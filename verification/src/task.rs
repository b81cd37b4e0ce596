//! To-dos: reading them out of iCalendar text, and the rewrites behind toggle,
//! edit and create.
use icalendar::Component;
use vstd::prelude::*;
use crate::clock::{stamp_like, utc_stamp};
use crate::failure::{plain, Failure, FailureV};
use crate::ical::{
    apply_vtodo_mutations, crlf, ensure_crlf, escape_ical_text, ical_escaped, mutated,
    mutation_views, property_text, Mutation, MutationV,
};
use crate::nesting::{
    begin_depth, has_short_lines, lines_short, nests_within_limit, NESTING_LIMIT,
};
use crate::plain::{is_word, one_plain_todo, status_reads};
use crate::plain_laws::law_toggled_reads_new_status;
use crate::rewrite_laws::one_line;
use crate::text::{
    ascii_upper, char_count, contains, has_sub, opt_str, opt_text, str_eq, to_ascii_upper,
};

verus! {

#[derive(Debug, Clone, Copy, PartialEq, Eq, Structural)]
pub enum TaskStatus {
    NeedsAction,
    InProcess,
    Completed,
    Cancelled,
    Unknown,
}

#[derive(Debug, Clone)]
pub struct Task {
    pub uid: String,
    pub summary: String,
    pub status: TaskStatus,
    pub due: Option<String>,
}

#[verifier::ext_equal]
pub struct TaskV {
    pub uid: Seq<char>,
    pub summary: Seq<char>,
    pub status: TaskStatus,
    pub due: Option<Seq<char>>,
}

impl View for Task {
    type V = TaskV;

    open spec fn view(&self) -> TaskV {
        TaskV {
            uid: self.uid@,
            summary: self.summary@,
            status: self.status,
            due: opt_text(self.due),
        }
    }
}

pub open spec fn task_views(v: Seq<Task>) -> Seq<TaskV> {
    v.map_values(|t: Task| t@)
}

/// The properties of a component, by name.
pub type Properties = Vec<(String, String)>;

pub type PropertiesV = Seq<(Seq<char>, Seq<char>)>;

pub open spec fn property_views(p: Seq<(String, String)>) -> PropertiesV {
    p.map_values(|x: (String, String)| (x.0@, x.1@))
}

pub open spec fn component_view(c: Option<Properties>) -> Option<PropertiesV> {
    match c {
        Some(p) => Some(property_views(p@)),
        None => None,
    }
}

pub open spec fn component_views(cs: Seq<Option<Properties>>) -> Seq<Option<PropertiesV>> {
    cs.map_values(|c: Option<Properties>| component_view(c))
}

/// The first property named `key` from `i` on.
pub open spec fn property_from(props: PropertiesV, key: Seq<char>, i: nat) -> Option<Seq<char>>
    decreases props.len() - i,
{
    if i >= props.len() {
        None
    } else if props[i as int].0 == key {
        Some(props[i as int].1)
    } else {
        property_from(props, key, i + 1)
    }
}

pub open spec fn property(props: PropertiesV, key: Seq<char>) -> Option<Seq<char>> {
    property_from(props, key, 0)
}

pub open spec fn or_text(o: Option<Seq<char>>, default: Seq<char>) -> Seq<char> {
    match o {
        Some(s) => s,
        None => default,
    }
}

/// The status a STATUS value stands for, whatever the case of its letters.
pub open spec fn status_of(raw: Seq<char>) -> TaskStatus {
    let up = ascii_upper(raw);
    if up == "NEEDS-ACTION"@ {
        TaskStatus::NeedsAction
    } else if up == "IN-PROCESS"@ {
        TaskStatus::InProcess
    } else if up == "COMPLETED"@ {
        TaskStatus::Completed
    } else if up == "CANCELLED"@ {
        TaskStatus::Cancelled
    } else {
        TaskStatus::Unknown
    }
}

/// The status in the properties of a VTODO, `default` where it has none.
pub open spec fn status_in(props: PropertiesV, default: TaskStatus) -> TaskStatus {
    match property(props, "STATUS"@) {
        Some(raw) => status_of(raw),
        None => default,
    }
}

/// The task that a VTODO describes.
pub open spec fn task_of(props: PropertiesV) -> TaskV {
    TaskV {
        uid: or_text(property(props, "UID"@), ""@),
        summary: or_text(property(props, "SUMMARY"@), "(no summary)"@),
        status: status_in(props, TaskStatus::Unknown),
        due: property(props, "DUE"@),
    }
}

/// The tasks of the VTODOs among the components, in order.
pub open spec fn tasks_of(cs: Seq<Option<PropertiesV>>) -> Seq<TaskV>
    decreases cs.len(),
{
    if cs.len() == 0 {
        Seq::empty()
    } else {
        let before = tasks_of(cs.drop_last());
        match cs.last() {
            Some(props) => before.push(task_of(props)),
            None => before,
        }
    }
}

/// The first VTODO from `i` on.
pub open spec fn first_todo(cs: Seq<Option<PropertiesV>>, i: nat) -> Option<PropertiesV>
    decreases cs.len() - i,
{
    if i >= cs.len() {
        None
    } else {
        match cs[i as int] {
            Some(props) => Some(props),
            None => first_todo(cs, i + 1),
        }
    }
}

/// The status of the first VTODO from `i` on; a VTODO without one needs action.
pub open spec fn first_status(cs: Seq<Option<PropertiesV>>, i: nat) -> Option<TaskStatus>
    decreases cs.len() - i,
{
    if i >= cs.len() {
        None
    } else {
        match cs[i as int] {
            Some(props) => Some(status_in(props, TaskStatus::NeedsAction)),
            None => first_status(cs, i + 1),
        }
    }
}

/// What the icalendar crate reads out of a text: the components in order, each
/// VTODO with its properties and anything else as `None`; or the words of its
/// error.
pub uninterp spec fn parsed_components(text: Seq<char>) -> Result<
    Seq<Option<PropertiesV>>,
    Seq<char>,
>;

pub open spec fn components_result(r: Result<Vec<Option<Properties>>, String>) -> Result<
    Seq<Option<PropertiesV>>,
    Seq<char>,
> {
    match r {
        Ok(cs) => Ok(component_views(cs@)),
        Err(e) => Err(e@),
    }
}

/// The components read out of a text have its status: where the to-do of the text has the
/// status `v` and no other, so has the first VTODO.
pub open spec fn status_is_read(cs: Seq<Option<PropertiesV>>, text: Seq<char>) -> bool {
    forall|v: Seq<char>|
        is_word(v) && #[trigger] status_reads(text, v) ==> (first_todo(cs, 0) matches Some(props)
            && property(props, "STATUS"@) == Some(v))
}

/// Whether the icalendar crate can read a text.
pub uninterp spec fn parses(text: Seq<char>) -> bool;

/// `icalendar::parser::read_calendar_simple` on the text without its folds, by
/// `icalendar::parser::unfold`: whether it succeeds. It puts no error into words. The parser
/// calls itself for each component inside another, so that only texts whose components nest
/// within a limit are given to it.
#[verifier::external_body]
fn can_parse(text: &str) -> (b: bool)
    requires
        begin_depth(text@) <= NESTING_LIMIT,
    ensures
        b == parses(text@),
{
    icalendar::parser::read_calendar_simple(&icalendar::parser::unfold(text)).is_ok()
}

/// `str::parse` into an `icalendar::Calendar`. Each of its components is handed
/// out: a VTODO by the names and values of its `properties`, any other as `None`.
/// The parser calls itself for each component inside another, so that only texts whose
/// components nest within a limit are given to it. It succeeds where `read_calendar_simple`
/// does. Where it fails, it words the error with a mark below its column, and panics on a
/// column past what a width in a format may be; so that a text with long lines is given to
/// it only where it can be read. Of a calendar with one to-do, in which there are properties
/// only, each on a line of its own and without quotes before its value, it gives back the
/// status. What it makes of other properties and other texts is left unsaid.
#[verifier::external_body]
pub(crate) fn read_components(text: &str) -> (r: Result<Vec<Option<Properties>>, String>)
    requires
        begin_depth(text@) <= NESTING_LIMIT,
        lines_short(text@) || parses(text@),
    ensures
        components_result(r) == parsed_components(text@),
        r is Ok == parses(text@),
        r is Ok && one_plain_todo(text@) ==> status_is_read(components_result(r)->Ok_0, text@),
{
    let calendar = text.parse::<icalendar::Calendar>()?;
    let properties = |t: &icalendar::Todo| -> Properties {
        t.properties().iter().map(|(k, p)| (k.clone(), p.value().to_owned())).collect()
    };
    Ok(calendar.components.iter().map(|c| c.as_todo().map(properties)).collect())
}

/// The components that a text holds. One whose components nest too deeply is refused. One
/// that cannot be read is refused too, in other words where its lines are too long to point
/// into.
pub open spec fn components_in(text: Seq<char>) -> Result<Seq<Option<PropertiesV>>, Seq<char>> {
    if begin_depth(text) > NESTING_LIMIT {
        Err("components nest too deeply"@)
    } else if !lines_short(text) && !parses(text) {
        Err("malformed text with a line too long to show"@)
    } else {
        parsed_components(text)
    }
}

/// Reads the components of a text.
fn components_of(text: &str) -> (r: Result<Vec<Option<Properties>>, String>)
    ensures
        components_result(r) == components_in(text@),
        r is Ok && one_plain_todo(text@) ==> status_is_read(components_result(r)->Ok_0, text@),
{
    if !nests_within_limit(text) {
        Err("components nest too deeply".to_owned())
    } else if !has_short_lines(text) && !can_parse(text) {
        Err("malformed text with a line too long to show".to_owned())
    } else {
        read_components(text)
    }
}

/// The tasks that a text holds.
pub open spec fn tasks_in(text: Seq<char>) -> Result<Seq<TaskV>, FailureV> {
    match components_in(text) {
        Ok(cs) => Ok(tasks_of(cs)),
        Err(e) => Err(plain("icalendar parse error: "@ + e)),
    }
}

/// The first task that a text holds.
pub open spec fn first_task_in(text: Seq<char>) -> Result<TaskV, FailureV> {
    match tasks_in(text) {
        Ok(ts) => if ts.len() > 0 {
            Ok(ts[0])
        } else {
            Err(plain("no VTODO components in iCalendar payload"@))
        },
        Err(e) => Err(e),
    }
}

/// The status of the first VTODO of a text.
pub open spec fn current_status(text: Seq<char>) -> Result<TaskStatus, FailureV> {
    match components_in(text) {
        Ok(cs) => match first_status(cs, 0) {
            Some(s) => Ok(s),
            None => Err(plain("no VTODO component in iCalendar payload"@)),
        },
        Err(e) => Err(plain("icalendar parse error: "@ + e)),
    }
}

pub open spec fn task_result(r: Result<Task, Failure>) -> Result<TaskV, FailureV> {
    match r {
        Ok(t) => Ok(t@),
        Err(e) => Err(e@),
    }
}

pub open spec fn tasks_result(r: Result<Vec<Task>, Failure>) -> Result<Seq<TaskV>, FailureV> {
    match r {
        Ok(ts) => Ok(task_views(ts@)),
        Err(e) => Err(e@),
    }
}

pub open spec fn status_result(r: Result<TaskStatus, Failure>) -> Result<TaskStatus, FailureV> {
    match r {
        Ok(s) => Ok(s),
        Err(e) => Err(e@),
    }
}

/// A toggled task is completed, unless it was: then it needs action again.
pub open spec fn flipped(s: TaskStatus) -> TaskStatus {
    if s == TaskStatus::Completed {
        TaskStatus::NeedsAction
    } else {
        TaskStatus::Completed
    }
}

pub open spec fn set_to(key: Seq<char>, value: Seq<char>) -> MutationV {
    MutationV { key, params: Seq::empty(), value: Some(value) }
}

pub open spec fn removed(key: Seq<char>) -> MutationV {
    MutationV { key, params: Seq::empty(), value: None }
}

/// The changes that bring a VTODO to the status `to` at the time `now`.
pub open spec fn toggle_mutations(to: TaskStatus, now: Seq<char>) -> Seq<MutationV> {
    if to == TaskStatus::Completed {
        seq![
            set_to("DTSTAMP"@, now),
            set_to("LAST-MODIFIED"@, now),
            set_to("STATUS"@, "COMPLETED"@),
            set_to("COMPLETED"@, now),
            set_to("PERCENT-COMPLETE"@, "100"@),
        ]
    } else {
        seq![
            set_to("DTSTAMP"@, now),
            set_to("LAST-MODIFIED"@, now),
            set_to("STATUS"@, "NEEDS-ACTION"@),
            removed("COMPLETED"@),
            removed("PERCENT-COMPLETE"@),
        ]
    }
}

/// The text, old status and new status of a toggle at the time `now`.
pub open spec fn toggled(text: Seq<char>, now: Seq<char>) -> Result<
    (Seq<char>, TaskStatus, TaskStatus),
    FailureV,
> {
    let body = crlf(text);
    match current_status(body) {
        Ok(s) => Ok((mutated(body, toggle_mutations(flipped(s), now)), s, flipped(s))),
        Err(e) => Err(e),
    }
}

pub open spec fn toggle_result(r: Result<(String, TaskStatus, TaskStatus), Failure>) -> Result<
    (Seq<char>, TaskStatus, TaskStatus),
    FailureV,
> {
    match r {
        Ok(t) => Ok((t.0@, t.1, t.2)),
        Err(e) => Err(e@),
    }
}

/// The changes of an edit of the summary at the time `now`.
pub open spec fn summary_mutations(summary: Seq<char>, now: Seq<char>) -> Seq<MutationV> {
    seq![
        set_to("SUMMARY"@, ical_escaped(summary)),
        set_to("DTSTAMP"@, now),
        set_to("LAST-MODIFIED"@, now),
    ]
}

/// The parameters of a due date: one without a time of day is marked as a date.
pub open spec fn due_params(due: Seq<char>) -> Seq<char> {
    if has_sub(due, "T"@) {
        Seq::empty()
    } else {
        ";VALUE=DATE"@
    }
}

/// The change that an edit makes to the due date: an empty one removes it.
pub open spec fn due_mutation(due: Seq<char>) -> MutationV {
    if due.len() == 0 {
        removed("DUE"@)
    } else {
        MutationV { key: "DUE"@, params: due_params(due), value: Some(ical_escaped(due)) }
    }
}

/// The changes of an edit at the time `now`. Where no due date is given, the due date
/// is not among them.
pub open spec fn edit_mutations(
    summary: Seq<char>,
    due: Option<Seq<char>>,
    now: Seq<char>,
) -> Seq<MutationV> {
    match due {
        Some(d) => summary_mutations(summary, now).push(due_mutation(d)),
        None => summary_mutations(summary, now),
    }
}

/// The text after an edit at the time `now`.
pub open spec fn edited(
    text: Seq<char>,
    summary: Seq<char>,
    due: Option<Seq<char>>,
    now: Seq<char>,
) -> Seq<char> {
    mutated(crlf(text), edit_mutations(summary, due, now))
}

/// The values that an edit sets, without the stamps.
pub open spec fn edit_values(summary: Seq<char>, due: Option<Seq<char>>) -> Seq<MutationV> {
    match due {
        Some(d) => seq![set_to("SUMMARY"@, ical_escaped(summary)), due_mutation(d)],
        None => seq![set_to("SUMMARY"@, ical_escaped(summary))],
    }
}

/// A text holds an edit where setting its values changes nothing.
pub open spec fn has_edit(text: Seq<char>, summary: Seq<char>, due: Option<Seq<char>>) -> bool {
    mutated(text, edit_values(summary, due)) == text
}

/// A text with an edit: as it is where it holds the edit, else edited at the time `now`.
pub open spec fn with_edit(
    text: Seq<char>,
    summary: Seq<char>,
    due: Option<Seq<char>>,
    now: Seq<char>,
) -> Seq<char> {
    if has_edit(text, summary, due) {
        text
    } else {
        edited(text, summary, due, now)
    }
}

/// The value of STATUS that a toggle to `to` sets.
pub open spec fn toggle_value(to: TaskStatus) -> Seq<char> {
    if to == TaskStatus::Completed {
        "COMPLETED"@
    } else {
        "NEEDS-ACTION"@
    }
}

/// A text holds a toggle to `to` where setting the status changes nothing.
pub open spec fn has_toggle(text: Seq<char>, to: TaskStatus) -> bool {
    mutated(text, seq![set_to("STATUS"@, toggle_value(to))]) == text
}

/// A text with a toggle to `to`: as it is where it holds the toggle, else toggled at the
/// time `now`.
pub open spec fn with_toggle(text: Seq<char>, to: TaskStatus, now: Seq<char>) -> Seq<char> {
    if has_toggle(text, to) {
        text
    } else {
        mutated(crlf(text), toggle_mutations(to, now))
    }
}

/// The text after an edit of the summary alone at the time `now`.
pub open spec fn resummarized(text: Seq<char>, summary: Seq<char>, now: Seq<char>) -> Seq<char> {
    edited(text, summary, None, now)
}

/// The line of a due date, behind the line before it. There is none for an empty one.
pub open spec fn due_line(due: Option<Seq<char>>) -> Seq<char> {
    match due {
        Some(d) => if d.len() == 0 {
            Seq::empty()
        } else {
            "\r\n"@ + property_text(due_mutation(d))
        },
        None => Seq::empty(),
    }
}

/// The body of a new to-do.
pub open spec fn new_todo(
    uid: Seq<char>,
    summary: Seq<char>,
    due: Option<Seq<char>>,
    now: Seq<char>,
) -> Seq<char> {
    "BEGIN:VCALENDAR\r\nVERSION:2.0\r\nPRODID:-//reTaskable//EN\r\nBEGIN:VTODO\r\nUID:"@ + uid
        + "\r\nDTSTAMP:"@ + now + "\r\nCREATED:"@ + now + "\r\nLAST-MODIFIED:"@ + now
        + "\r\nSUMMARY:"@ + ical_escaped(summary) + due_line(due)
        + "\r\nSTATUS:NEEDS-ACTION\r\nEND:VTODO\r\nEND:VCALENDAR\r\n"@
}

impl Task {
    /// A copy.
    pub fn copy(&self) -> (t: Task)
        ensures
            t@ == self@,
    {
        Task {
            uid: self.uid.clone(),
            summary: self.summary.clone(),
            status: self.status,
            due: match &self.due {
                Some(d) => Some(d.clone()),
                None => None,
            },
        }
    }
}

/// Reads a STATUS value.
pub fn parse_status(raw: &str) -> (s: TaskStatus)
    ensures
        s == status_of(raw@),
{
    let up = to_ascii_upper(raw);
    let up = up.as_str();
    if str_eq(up, "NEEDS-ACTION") {
        TaskStatus::NeedsAction
    } else if str_eq(up, "IN-PROCESS") {
        TaskStatus::InProcess
    } else if str_eq(up, "COMPLETED") {
        TaskStatus::Completed
    } else if str_eq(up, "CANCELLED") {
        TaskStatus::Cancelled
    } else {
        TaskStatus::Unknown
    }
}

fn property_value(props: &Properties, key: &str) -> (r: Option<String>)
    ensures
        opt_text(r) == property(property_views(props@), key@),
{
    let mut i: usize = 0;
    while i < props.len()
        invariant
            i <= props@.len(),
            property(property_views(props@), key@) == property_from(
                property_views(props@),
                key@,
                i as nat,
            ),
        decreases props@.len() - i,
    {
        assert(property_views(props@)[i as int] == (props@[i as int].0@, props@[i as int].1@));
        if str_eq(props[i].0.as_str(), key) {
            return Some(props[i].1.clone());
        }
        i += 1;
    }
    None
}

fn status_value(props: &Properties, default: TaskStatus) -> (s: TaskStatus)
    ensures
        s == status_in(property_views(props@), default),
{
    match property_value(props, "STATUS") {
        Some(raw) => parse_status(raw.as_str()),
        None => default,
    }
}

/// The tasks of the VTODOs among the components.
pub fn tasks_of_components(components: &Vec<Option<Properties>>) -> (r: Vec<Task>)
    ensures
        task_views(r@) == tasks_of(component_views(components@)),
{
    let mut out: Vec<Task> = Vec::new();
    let mut i: usize = 0;
    let ghost cs = component_views(components@);
    while i < components.len()
        invariant
            cs == component_views(components@),
            i <= components@.len(),
            task_views(out@) == tasks_of(cs.take(i as int)),
        decreases components@.len() - i,
    {
        proof {
            assert(cs.take(i + 1).drop_last() =~= cs.take(i as int));
            assert(cs[i as int] == component_view(components@[i as int]));
        }
        match &components[i] {
            Some(props) => {
                let uid = match property_value(props, "UID") {
                    Some(s) => s,
                    None => "".to_owned(),
                };
                let summary = match property_value(props, "SUMMARY") {
                    Some(s) => s,
                    None => "(no summary)".to_owned(),
                };
                let status = status_value(props, TaskStatus::Unknown);
                let due = property_value(props, "DUE");
                let task = Task { uid, summary, status, due };
                let ghost before = task_views(out@);
                out.push(task);
                assert(task_views(out@) =~= before.push(task@));
            },
            None => {},
        }
        i += 1;
    }
    assert(cs.take(i as int) =~= cs);
    out
}

/// The status of the first VTODO among the components.
pub fn first_status_of_components(components: &Vec<Option<Properties>>) -> (r: Option<TaskStatus>)
    ensures
        r == first_status(component_views(components@), 0),
{
    let ghost cs = component_views(components@);
    let mut i: usize = 0;
    while i < components.len()
        invariant
            cs == component_views(components@),
            i <= components@.len(),
            first_status(cs, 0) == first_status(cs, i as nat),
        decreases components@.len() - i,
    {
        assert(cs[i as int] == component_view(components@[i as int]));
        match &components[i] {
            Some(props) => {
                return Some(status_value(props, TaskStatus::NeedsAction));
            },
            None => {},
        }
        i += 1;
    }
    None
}

fn parse_failure(e: String) -> (f: Failure)
    ensures
        f@ == plain("icalendar parse error: "@ + e@),
{
    let mut m = "icalendar parse error: ".to_owned();
    m.append(e.as_str());
    Failure::from_message(m)
}

/// Every task in an iCalendar text.
pub fn parse_vtodos(ical_text: &str) -> (r: Result<Vec<Task>, Failure>)
    ensures
        tasks_result(r) == tasks_in(ical_text@),
{
    match components_of(ical_text) {
        Ok(cs) => Ok(tasks_of_components(&cs)),
        Err(e) => Err(parse_failure(e)),
    }
}

/// The first task in an iCalendar text.
pub fn parse_vtodos_first(ical_text: &str) -> (r: Result<Task, Failure>)
    ensures
        task_result(r) == first_task_in(ical_text@),
{
    match parse_vtodos(ical_text) {
        Ok(ts) => {
            if ts.len() > 0 {
                assert(task_views(ts@)[0] == ts@[0]@);
                Ok(ts[0].copy())
            } else {
                Err(Failure::new("no VTODO components in iCalendar payload"))
            }
        },
        Err(e) => Err(e),
    }
}

/// The status of the first VTODO is that of the first VTODO's properties.
proof fn lemma_first_status(cs: Seq<Option<PropertiesV>>, i: nat)
    ensures
        first_status(cs, i) == match first_todo(cs, i) {
            Some(props) => Some(status_in(props, TaskStatus::NeedsAction)),
            None => None,
        },
    decreases cs.len() - i,
{
    if i < cs.len() {
        lemma_first_status(cs, i + 1);
    }
}

/// The status of the first VTODO in an iCalendar text. Of a plain text with the status `v`
/// it is what `v` stands for.
pub fn read_current_status(ical_text: &str) -> (r: Result<TaskStatus, Failure>)
    ensures
        status_result(r) == current_status(ical_text@),
        r is Ok && one_plain_todo(ical_text@) ==> forall|v: Seq<char>|
            is_word(v) && #[trigger] status_reads(ical_text@, v) ==> r->Ok_0 == status_of(v),
{
    let components = components_of(ical_text);
    proof {
        if components is Ok {
            lemma_first_status(components_result(components)->Ok_0, 0);
        }
    }
    match components {
        Ok(cs) => match first_status_of_components(&cs) {
            Some(s) => Ok(s),
            None => Err(Failure::new("no VTODO component in iCalendar payload")),
        },
        Err(e) => Err(parse_failure(e)),
    }
}

fn setting(key: &str, value: &str) -> (m: Mutation)
    ensures
        m@ == set_to(key@, value@),
{
    let params = String::new();
    assert(params@ =~= Seq::empty());
    Mutation { key: key.to_owned(), params, value: Some(value.to_owned()) }
}

fn removal(key: &str) -> (m: Mutation)
    ensures
        m@ == removed(key@),
{
    let params = String::new();
    assert(params@ =~= Seq::empty());
    Mutation { key: key.to_owned(), params, value: None }
}

/// The changes of a toggle to the status `to`, stamped with `now`.
fn toggle_settings(to: TaskStatus, now: &str) -> (muts: Vec<Mutation>)
    ensures
        mutation_views(muts@) == toggle_mutations(to, now@),
{
    let mut muts: Vec<Mutation> = Vec::new();
    muts.push(setting("DTSTAMP", now));
    muts.push(setting("LAST-MODIFIED", now));
    match to {
        TaskStatus::Completed => {
            muts.push(setting("STATUS", "COMPLETED"));
            muts.push(setting("COMPLETED", now));
            muts.push(setting("PERCENT-COMPLETE", "100"));
        },
        _ => {
            muts.push(setting("STATUS", "NEEDS-ACTION"));
            muts.push(removal("COMPLETED"));
            muts.push(removal("PERCENT-COMPLETE"));
        },
    }
    assert(mutation_views(muts@) =~= toggle_mutations(to, now@));
    muts
}

/// Rewrites a text, read as one whose first VTODO has the status `current`, into
/// its toggled form.
pub fn toggle_from(ical_text: &str, current: TaskStatus, now: &str) -> (r: (String, TaskStatus))
    ensures
        r.0@ == mutated(ical_text@, toggle_mutations(flipped(current), now@)),
        r.1 == flipped(current),
{
    let new_status = match current {
        TaskStatus::Completed => TaskStatus::NeedsAction,
        _ => TaskStatus::Completed,
    };
    let muts = toggle_settings(new_status, now);
    (apply_vtodo_mutations(ical_text, &muts), new_status)
}

/// Flips the completion of a to-do, stamped with `now`. Returns the new text, the
/// old status and the new one. A plain text becomes a plain text with the new status, which
/// another toggle finds.
pub fn toggle_completion_at(ical_text: &str, now: &str) -> (r: Result<
    (String, TaskStatus, TaskStatus),
    Failure,
>)
    ensures
        toggle_result(r) == toggled(ical_text@, now@),
        r is Ok && one_plain_todo(crlf(ical_text@)) ==> forall|v: Seq<char>|
            is_word(v) && #[trigger] status_reads(crlf(ical_text@), v) ==> r->Ok_0.1
                == status_of(v),
        r is Ok && one_plain_todo(crlf(ical_text@)) && one_line(now@) ==> {
            &&& crlf(r->Ok_0.0@) == r->Ok_0.0@
            &&& one_plain_todo(r->Ok_0.0@)
            &&& is_word(toggle_value(r->Ok_0.2))
            &&& status_reads(r->Ok_0.0@, toggle_value(r->Ok_0.2))
            &&& status_of(toggle_value(r->Ok_0.2)) == r->Ok_0.2
        },
{
    let body = ensure_crlf(ical_text);
    proof {
        if toggled(ical_text@, now@) is Ok && one_plain_todo(crlf(ical_text@)) && one_line(now@) {
            law_toggled_reads_new_status(ical_text@, now@);
        }
    }
    match read_current_status(body.as_str()) {
        Ok(current) => {
            let (text, new_status) = toggle_from(body.as_str(), current, now);
            Ok((text, current, new_status))
        },
        Err(e) => Err(e),
    }
}

/// Flips the completion of a to-do, stamped with the present time.
pub fn toggle_completion(ical_text: &str) -> (r: Result<
    (String, TaskStatus, TaskStatus),
    Failure,
>)
    ensures
        exists|now: Seq<char>|
            stamp_like(now) && toggle_result(r) == #[trigger] toggled(ical_text@, now),
{
    let now = utc_stamp();
    let r = toggle_completion_at(ical_text, now.as_str());
    assert(stamp_like(now@) && toggle_result(r) == toggled(ical_text@, now@));
    r
}

/// The parameters to write behind the name of a due date.
fn params_of_due(due: &str) -> (r: String)
    ensures
        r@ == due_params(due@),
{
    if contains(due, "T") {
        let none = String::new();
        assert(none@ =~= Seq::empty());
        none
    } else {
        ";VALUE=DATE".to_owned()
    }
}

/// Sets the due date, or removes it where the new one is empty.
fn due_setting(due: &str) -> (m: Mutation)
    ensures
        m@ == due_mutation(due@),
{
    if char_count(due) == 0 {
        return removal("DUE");
    }
    Mutation {
        key: "DUE".to_owned(),
        params: params_of_due(due),
        value: Some(escape_ical_text(due)),
    }
}

/// Edits the summary of a to-do, and its due date where one is given: an empty one
/// removes it. The edit is stamped with `now`.
pub fn edit_text_at(ical_text: &str, new_summary: &str, due: Option<&str>, now: &str) -> (r: String)
    ensures
        r@ == edited(ical_text@, new_summary@, opt_str(due), now@),
{
    let body = ensure_crlf(ical_text);
    let escaped = escape_ical_text(new_summary);
    let mut muts: Vec<Mutation> = Vec::new();
    muts.push(setting("SUMMARY", escaped.as_str()));
    muts.push(setting("DTSTAMP", now));
    muts.push(setting("LAST-MODIFIED", now));
    match due {
        Some(d) => {
            muts.push(due_setting(d));
        },
        None => {},
    }
    assert(mutation_views(muts@) =~= edit_mutations(new_summary@, opt_str(due), now@));
    apply_vtodo_mutations(body.as_str(), &muts)
}

/// Brings an edit into a text that may hold it already.
pub fn ensure_edit(ical_text: &str, summary: &str, due: Option<&str>, now: &str) -> (r: String)
    ensures
        r@ == with_edit(ical_text@, summary@, opt_str(due), now@),
{
    let escaped = escape_ical_text(summary);
    let mut muts: Vec<Mutation> = Vec::new();
    muts.push(setting("SUMMARY", escaped.as_str()));
    match due {
        Some(d) => {
            muts.push(due_setting(d));
        },
        None => {},
    }
    assert(mutation_views(muts@) =~= edit_values(summary@, opt_str(due)));
    let set = apply_vtodo_mutations(ical_text, &muts);
    if str_eq(set.as_str(), ical_text) {
        ical_text.to_owned()
    } else {
        edit_text_at(ical_text, summary, due, now)
    }
}

/// Brings a toggle to the status `to` into a text that may hold it already.
pub fn ensure_toggle(ical_text: &str, to: TaskStatus, now: &str) -> (r: String)
    ensures
        r@ == with_toggle(ical_text@, to, now@),
{
    let value = match to {
        TaskStatus::Completed => "COMPLETED",
        _ => "NEEDS-ACTION",
    };
    let mut muts: Vec<Mutation> = Vec::new();
    muts.push(setting("STATUS", value));
    assert(mutation_views(muts@) =~= seq![set_to("STATUS"@, toggle_value(to))]);
    let set = apply_vtodo_mutations(ical_text, &muts);
    if str_eq(set.as_str(), ical_text) {
        ical_text.to_owned()
    } else {
        let body = ensure_crlf(ical_text);
        apply_vtodo_mutations(body.as_str(), &toggle_settings(to, now))
    }
}

/// Replaces the summary of a to-do, stamped with `now`.
pub fn replace_summary_at(ical_text: &str, new_summary: &str, now: &str) -> (r: String)
    ensures
        r@ == resummarized(ical_text@, new_summary@, now@),
{
    edit_text_at(ical_text, new_summary, None, now)
}

/// Replaces the summary of a to-do, stamped with the present time.
pub fn replace_summary(ical_text: &str, new_summary: &str) -> (r: String)
    ensures
        exists|now: Seq<char>|
            stamp_like(now) && r@ == #[trigger] resummarized(ical_text@, new_summary@, now),
{
    let now = utc_stamp();
    let r = replace_summary_at(ical_text, new_summary, now.as_str());
    assert(stamp_like(now@) && r@ == resummarized(ical_text@, new_summary@, now@));
    r
}

/// The line of a due date, behind the line before it.
fn due_text(due: Option<&str>) -> (r: String)
    ensures
        r@ == due_line(opt_str(due)),
{
    let mut r = String::new();
    assert(r@ =~= Seq::empty());
    match due {
        Some(d) => {
            if char_count(d) > 0 {
                r.append("\r\nDUE");
                r.append(params_of_due(d).as_str());
                r.append(":");
                r.append(escape_ical_text(d).as_str());
                proof {
                    reveal_strlit("\r\nDUE");
                    reveal_strlit("\r\n");
                    reveal_strlit("DUE");
                    assert("\r\nDUE"@ =~= "\r\n"@ + "DUE"@);
                    assert(r@ =~= due_line(opt_str(due)));
                }
            }
        },
        None => {},
    }
    r
}

/// Writes the body of a new to-do.
pub fn new_todo_body(uid: &str, summary: &str, due: Option<&str>, now: &str) -> (r: String)
    ensures
        r@ == new_todo(uid@, summary@, opt_str(due), now@),
{
    let escaped = escape_ical_text(summary);
    let mut r =
        "BEGIN:VCALENDAR\r\nVERSION:2.0\r\nPRODID:-//reTaskable//EN\r\nBEGIN:VTODO\r\nUID:".to_owned();
    r.append(uid);
    r.append("\r\nDTSTAMP:");
    r.append(now);
    r.append("\r\nCREATED:");
    r.append(now);
    r.append("\r\nLAST-MODIFIED:");
    r.append(now);
    r.append("\r\nSUMMARY:");
    r.append(escaped.as_str());
    r.append(due_text(due).as_str());
    r.append("\r\nSTATUS:NEEDS-ACTION\r\nEND:VTODO\r\nEND:VCALENDAR\r\n");
    r
}

} // verus!
