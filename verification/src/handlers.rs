//! What the screen's messages ask for: the checks on what was sent, the change of
//! the tables, and the words of the answer.
use vstd::prelude::*;
use crate::cache::{
    calendar_exists, ensure_local_list, get_calendar_href_by_display_name, href_named,
    is_local_list, knows_calendar, with_local_list,
};
use crate::clock::{Moment, MomentV};
use crate::config::{active_list, selected_list, Config, ConfigV, LOCAL_LIST_ID};
use crate::db::{
    create_local_with_anchor, create_queued, delete_local, delete_queued, edit_local, edit_queued,
    enqueue_create_at, enqueue_delete_at, enqueue_edit_at, enqueue_toggle_at, local_deleted,
    opt_anchor_ref, row_created, row_edited, row_toggled, toggle_local, toggle_queued,
};
use crate::failure::{plain, Failure, FailureV};
use crate::json::{json_top, read_json, JsonTop, JsonTopV};
use crate::listing::{cached_by_uid, first_listed, get_cached_task_by_uid, get_first_task};
use crate::seqs::first;
use crate::store::{Anchor, AnchorV, Store, StoreV};
use crate::text::{
    char_count, opt_str, opt_text, signed_decimal, signed_decimal_of, str_eq, trim, trimmed,
};

verus! {

// --- Which list ---

/// The list to work on, once the device's own is known: the selected one where it
/// is known, else the one with the configured name, else the device's own.
pub open spec fn active_href(s: StoreV, cfg: ConfigV) -> Seq<char> {
    let named = match cfg.caldav.calendar {
        Some(n) => href_named(s, n),
        None => None,
    };
    let fallback = match named {
        Some(h) => h,
        None => LOCAL_LIST_ID@,
    };
    match selected_list(cfg) {
        Some(id) => if id == LOCAL_LIST_ID@ || knows_calendar(s, id) {
            id
        } else {
            fallback
        },
        None => fallback,
    }
}

/// Finds the list to work on.
pub fn active_list_href(store: &mut Store, cfg: &Config) -> (r: String)
    requires
        old(store)@.wf(),
    ensures
        final(store)@.wf(),
        final(store)@ == with_local_list(old(store)@),
        r@ == active_href(with_local_list(old(store)@), cfg@),
{
    ensure_local_list(store);
    match active_list(cfg) {
        Some(id) => {
            if is_local_list(id) || calendar_exists(store, id) {
                return id.to_owned();
            }
        },
        None => {},
    }
    match &cfg.caldav.calendar {
        Some(name) => match get_calendar_href_by_display_name(store, name.as_str()) {
            Some(h) => {
                return h;
            },
            None => {},
        },
        None => {},
    }
    LOCAL_LIST_ID.to_owned()
}

/// The list that a message selects: a known one, by its trimmed name.
pub open spec fn list_selected(s: StoreV, id: Seq<char>) -> Result<Seq<char>, FailureV> {
    if trimmed(id).len() > 0 && knows_calendar(s, trimmed(id)) {
        Ok(trimmed(id))
    } else {
        Err(plain("unknown task list"@))
    }
}

/// Selects a list. Returns its name, to be stored.
pub fn select_source(store: &Store, id: &str) -> (r: Result<String, Failure>)
    ensures
        crate::weburl::url_result(r) == list_selected(store@, id@),
        match r {
            Ok(s) => s@ == trimmed(id@) && s@.len() > 0 && knows_calendar(store@, s@),
            Err(e) => (trimmed(id@).len() == 0 || !knows_calendar(store@, trimmed(id@))) && e@
                == plain("unknown task list"@),
        },
{
    let id = trim(id);
    if char_count(id.as_str()) == 0 || !calendar_exists(store, id.as_str()) {
        return Err(Failure::new("unknown task list"));
    }
    Ok(id)
}

// --- Changes, on the device's own list or by way of the queue ---

/// New tables and the number of the queued operation, if one was queued.
pub type Changed = Result<(StoreV, Option<int>), FailureV>;

pub open spec fn on_device(r: Result<StoreV, FailureV>) -> Changed {
    match r {
        Ok(s) => Ok((s, None)),
        Err(e) => Err(e),
    }
}

pub open spec fn by_queue(r: Result<(StoreV, int), FailureV>) -> Changed {
    match r {
        Ok(p) => Ok((p.0, Some(p.1))),
        Err(e) => Err(e),
    }
}

/// A change went as it should.
pub open spec fn went(
    r: Result<Option<i64>, Failure>,
    before: StoreV,
    after: StoreV,
    outcome: Changed,
) -> bool {
    match outcome {
        Ok(done) => r is Ok && after == done.0 && match done.1 {
            Some(id) => r->Ok_0 == Some(id as i64) && i64::MIN <= id <= i64::MAX,
            None => r->Ok_0 is None,
        },
        Err(e) => r is Err && r->Err_0@ == e && after == before,
    }
}

pub open spec fn toggled_in(s: StoreV, cal: Seq<char>, uid: Seq<char>, m: MomentV) -> Changed {
    if cal == LOCAL_LIST_ID@ {
        on_device(row_toggled(s, cal, uid, m.stamp))
    } else {
        by_queue(toggle_queued(s, cal, uid, m.stamp, m.secs))
    }
}

pub open spec fn edited_in(
    s: StoreV,
    cal: Seq<char>,
    uid: Seq<char>,
    summary: Seq<char>,
    due: Option<Seq<char>>,
    m: MomentV,
) -> Changed {
    if cal == LOCAL_LIST_ID@ {
        on_device(row_edited(s, cal, uid, summary, due, m.stamp))
    } else {
        by_queue(edit_queued(s, cal, uid, summary, due, m.stamp, m.secs))
    }
}

pub open spec fn deleted_in(s: StoreV, cal: Seq<char>, uid: Seq<char>, m: MomentV) -> Changed {
    if cal == LOCAL_LIST_ID@ {
        on_device(local_deleted(s, uid))
    } else {
        by_queue(delete_queued(s, cal, uid, m.secs))
    }
}

pub open spec fn created_in(
    s: StoreV,
    cal: Seq<char>,
    uid: Seq<char>,
    summary: Seq<char>,
    anchor: Option<AnchorV>,
    due: Option<Seq<char>>,
    m: MomentV,
) -> Changed {
    if cal == LOCAL_LIST_ID@ {
        on_device(row_created(s, cal, uid, summary, due, anchor, m.stamp))
    } else {
        by_queue(create_queued(s, cal, uid, summary, due, anchor, m.stamp, m.secs))
    }
}

fn toggle_in(store: &mut Store, cal: &str, uid: &str, m: &Moment) -> (r: Result<
    Option<i64>,
    Failure,
>)
    requires
        old(store)@.wf(),
    ensures
        final(store)@.wf(),
        went(r, old(store)@, final(store)@, toggled_in(old(store)@, cal@, uid@, m@)),
{
    if is_local_list(cal) {
        match toggle_local(store, uid, m.stamp.as_str()) {
            Ok(()) => Ok(None),
            Err(e) => Err(e),
        }
    } else {
        match enqueue_toggle_at(store, cal, uid, m.stamp.as_str(), m.secs) {
            Ok(id) => Ok(Some(id)),
            Err(e) => Err(e),
        }
    }
}

fn edit_in(
    store: &mut Store,
    cal: &str,
    uid: &str,
    summary: &str,
    due: Option<&str>,
    m: &Moment,
) -> (r: Result<Option<i64>, Failure>)
    requires
        old(store)@.wf(),
    ensures
        final(store)@.wf(),
        went(
            r,
            old(store)@,
            final(store)@,
            edited_in(old(store)@, cal@, uid@, summary@, opt_str(due), m@),
        ),
{
    if is_local_list(cal) {
        match edit_local(store, uid, summary, due, m.stamp.as_str()) {
            Ok(()) => Ok(None),
            Err(e) => Err(e),
        }
    } else {
        match enqueue_edit_at(store, cal, uid, summary, due, m.stamp.as_str(), m.secs) {
            Ok(id) => Ok(Some(id)),
            Err(e) => Err(e),
        }
    }
}

fn delete_in(store: &mut Store, cal: &str, uid: &str, m: &Moment) -> (r: Result<
    Option<i64>,
    Failure,
>)
    requires
        old(store)@.wf(),
    ensures
        final(store)@.wf(),
        went(r, old(store)@, final(store)@, deleted_in(old(store)@, cal@, uid@, m@)),
{
    if is_local_list(cal) {
        match delete_local(store, uid) {
            Ok(()) => Ok(None),
            Err(e) => Err(e),
        }
    } else {
        match enqueue_delete_at(store, cal, uid, m.secs) {
            Ok(id) => Ok(Some(id)),
            Err(e) => Err(e),
        }
    }
}

fn create_in(
    store: &mut Store,
    cal: &str,
    uid: &str,
    summary: &str,
    anchor: Option<&Anchor>,
    due: Option<&str>,
    m: &Moment,
) -> (r: Result<Option<i64>, Failure>)
    requires
        old(store)@.wf(),
    ensures
        final(store)@.wf(),
        went(
            r,
            old(store)@,
            final(store)@,
            created_in(
                old(store)@,
                cal@,
                uid@,
                summary@,
                opt_anchor_ref(anchor),
                opt_str(due),
                m@,
            ),
        ),
{
    if is_local_list(cal) {
        match create_local_with_anchor(store, uid, summary, anchor, due, m.stamp.as_str()) {
            Ok(()) => Ok(None),
            Err(e) => Err(e),
        }
    } else {
        match enqueue_create_at(
            store,
            cal,
            uid,
            summary,
            anchor,
            due,
            m.stamp.as_str(),
            m.secs,
        ) {
            Ok(id) => Ok(Some(id)),
            Err(e) => Err(e),
        }
    }
}

// --- Answers in words ---

/// New tables and an answer.
pub type Answered = Result<(StoreV, Seq<char>), FailureV>;

/// A change was answered as it should be.
pub open spec fn answers(
    r: Result<String, Failure>,
    before: StoreV,
    after: StoreV,
    outcome: Answered,
) -> bool {
    match outcome {
        Ok(done) => r is Ok && r->Ok_0@ == done.1 && after == done.0,
        Err(e) => r is Err && r->Err_0@ == e && after == before,
    }
}

/// `text`, followed by the number of the operation.
pub open spec fn numbered(text: Seq<char>, id: int) -> Seq<char> {
    text + " (#"@ + signed_decimal(id) + ")"@
}

/// The answer to a change: one wording for the device's own list, another for the
/// queue.
pub open spec fn worded(c: Changed, on_device_text: Seq<char>, queued_text: Seq<char>) -> Answered {
    match c {
        Err(e) => Err(e),
        Ok(done) => match done.1 {
            None => Ok((done.0, on_device_text)),
            Some(id) => Ok((done.0, numbered(queued_text, id))),
        },
    }
}

fn say(r: Result<Option<i64>, Failure>, on_device_text: String, queued_text: String) -> (t: Result<
    String,
    Failure,
>)
    ensures
        match r {
            Err(e) => t is Err && t->Err_0@ == e@,
            Ok(None) => t is Ok && t->Ok_0@ == on_device_text@,
            Ok(Some(id)) => t is Ok && t->Ok_0@ == numbered(queued_text@, id as int),
        },
{
    match r {
        Err(e) => Err(e),
        Ok(None) => Ok(on_device_text),
        Ok(Some(id)) => {
            let mut t = queued_text;
            t.append(" (#");
            t.append(signed_decimal_of(id).as_str());
            t.append(")");
            Ok(t)
        },
    }
}

/// `a "b"`.
pub open spec fn quoted(a: Seq<char>, b: Seq<char>) -> Seq<char> {
    a + " \""@ + b + "\""@
}

fn quote(a: &str, b: &str) -> (s: String)
    ensures
        s@ == quoted(a@, b@),
{
    let mut s = a.to_owned();
    s.append(" \"");
    s.append(b);
    s.append("\"");
    s
}

/// `a "b" -> c`.
pub open spec fn arrow(a: Seq<char>, b: Seq<char>, c: Seq<char>) -> Seq<char> {
    quoted(a, b) + " -> "@ + c
}

fn arrow_text(a: &str, b: &str, c: &str) -> (s: String)
    ensures
        s@ == arrow(a@, b@, c@),
{
    let mut s = quote(a, b);
    s.append(" -> ");
    s.append(c);
    s
}

/// `a "b" -> "c"`.
pub open spec fn arrow_quoted(a: Seq<char>, b: Seq<char>, c: Seq<char>) -> Seq<char> {
    quoted(a, b) + " -> \""@ + c + "\""@
}

fn arrow_quote(a: &str, b: &str, c: &str) -> (s: String)
    ensures
        s@ == arrow_quoted(a@, b@, c@),
{
    let mut s = quote(a, b);
    s.append(" -> \"");
    s.append(c);
    s.append("\"");
    s
}

pub open spec fn no_tasks_yet() -> Seq<char> {
    "no tasks in cache -- tap Sync first."@
}

// --- The first task of the list ---

/// The status a toggle of a task leads to.
pub open spec fn toggle_word(status: Seq<char>) -> Seq<char> {
    if status == "completed"@ {
        "needs-action"@
    } else {
        "completed"@
    }
}

pub open spec fn first_toggled(s: StoreV, cal: Seq<char>, m: MomentV) -> Answered {
    match first_listed(s, cal) {
        None => Ok((s, no_tasks_yet())),
        Some(t) => worded(
            toggled_in(s, cal, t.uid, m),
            arrow("Updated local task"@, t.summary, toggle_word(t.status)),
            arrow("Queued: toggle"@, t.summary, toggle_word(t.status)),
        ),
    }
}

/// Toggles the task at the top of a list.
pub fn toggle_first(store: &mut Store, cal_href: &str, m: &Moment) -> (r: Result<String, Failure>)
    requires
        old(store)@.wf(),
    ensures
        final(store)@.wf(),
        answers(r, old(store)@, final(store)@, first_toggled(old(store)@, cal_href@, m@)),
{
    let task = match get_first_task(store, cal_href) {
        None => {
            return Ok("no tasks in cache -- tap Sync first.".to_owned());
        },
        Some(t) => t,
    };
    let word = if str_eq(task.status.as_str(), "completed") {
        "needs-action"
    } else {
        "completed"
    };
    let local = arrow_text("Updated local task", task.summary.as_str(), word);
    let queued = arrow_text("Queued: toggle", task.summary.as_str(), word);
    let done = toggle_in(store, cal_href, task.uid.as_str(), m);
    say(done, local, queued)
}

pub open spec fn first_edited(
    s: StoreV,
    cal: Seq<char>,
    summary: Seq<char>,
    m: MomentV,
) -> Answered {
    let new = trimmed(summary);
    if new.len() == 0 {
        Err(plain("summary cannot be empty"@))
    } else {
        match first_listed(s, cal) {
            None => Ok((s, no_tasks_yet())),
            Some(t) => worded(
                edited_in(s, cal, t.uid, new, None, m),
                arrow_quoted("Updated local task"@, t.summary, new),
                arrow_quoted("Queued: edit"@, t.summary, new),
            ),
        }
    }
}

/// Edits the task at the top of a list.
pub fn edit_first(store: &mut Store, cal_href: &str, summary: &str, m: &Moment) -> (r: Result<
    String,
    Failure,
>)
    requires
        old(store)@.wf(),
    ensures
        final(store)@.wf(),
        answers(
            r,
            old(store)@,
            final(store)@,
            first_edited(old(store)@, cal_href@, summary@, m@),
        ),
{
    let new_summary = trim(summary);
    let new = new_summary.as_str();
    if char_count(new) == 0 {
        return Err(Failure::new("summary cannot be empty"));
    }
    let task = match get_first_task(store, cal_href) {
        None => {
            return Ok("no tasks in cache -- tap Sync first.".to_owned());
        },
        Some(t) => t,
    };
    let local = arrow_quote("Updated local task", task.summary.as_str(), new);
    let queued = arrow_quote("Queued: edit", task.summary.as_str(), new);
    let done = edit_in(store, cal_href, task.uid.as_str(), new, None, m);
    say(done, local, queued)
}

pub open spec fn first_deleted(s: StoreV, cal: Seq<char>, m: MomentV) -> Answered {
    match first_listed(s, cal) {
        None => Ok((s, no_tasks_yet())),
        Some(t) => worded(
            deleted_in(s, cal, t.uid, m),
            quoted("Deleted local task"@, t.summary),
            quoted("Queued: delete"@, t.summary),
        ),
    }
}

/// Deletes the task at the top of a list.
pub fn delete_first(store: &mut Store, cal_href: &str, m: &Moment) -> (r: Result<String, Failure>)
    requires
        old(store)@.wf(),
    ensures
        final(store)@.wf(),
        answers(r, old(store)@, final(store)@, first_deleted(old(store)@, cal_href@, m@)),
{
    let task = match get_first_task(store, cal_href) {
        None => {
            return Ok("no tasks in cache -- tap Sync first.".to_owned());
        },
        Some(t) => t,
    };
    let local = quote("Deleted local task", task.summary.as_str());
    let queued = quote("Queued: delete", task.summary.as_str());
    let done = delete_in(store, cal_href, task.uid.as_str(), m);
    say(done, local, queued)
}

// --- A task by its identifier ---

pub open spec fn no_such_task(uid: Seq<char>) -> FailureV {
    plain("no task with uid "@ + uid)
}

fn unknown_uid(uid: &str) -> (f: Failure)
    ensures
        f@ == no_such_task(uid@),
{
    let mut m = "no task with uid ".to_owned();
    m.append(uid);
    Failure::from_message(m)
}

/// The new state of a toggled row, for the screen to show at once.
#[derive(Debug)]
pub struct ToggleReply {
    pub uid: String,
    pub completed: bool,
    pub mark: String,
}

#[verifier::ext_equal]
pub struct ToggleReplyV {
    pub uid: Seq<char>,
    pub completed: bool,
    pub mark: Seq<char>,
}

impl View for ToggleReply {
    type V = ToggleReplyV;

    open spec fn view(&self) -> ToggleReplyV {
        ToggleReplyV { uid: self.uid@, completed: self.completed, mark: self.mark@ }
    }
}

pub open spec fn uid_toggled(s: StoreV, cal: Seq<char>, uid: Seq<char>, m: MomentV) -> Result<
    (StoreV, ToggleReplyV),
    FailureV,
> {
    match cached_by_uid(s, cal, uid) {
        None => Err(no_such_task(uid)),
        Some(t) => match toggled_in(s, cal, uid, m) {
            Err(e) => Err(e),
            Ok(done) => Ok(
                (
                    done.0,
                    ToggleReplyV {
                        uid,
                        completed: t.status != "completed"@,
                        mark: if cal == LOCAL_LIST_ID@ {
                            ""@
                        } else {
                            "*"@
                        },
                    },
                ),
            ),
        },
    }
}

/// Toggles a task.
pub fn toggle_by_uid_inner(store: &mut Store, cal_href: &str, uid: &str, m: &Moment) -> (r: Result<
    ToggleReply,
    Failure,
>)
    requires
        old(store)@.wf(),
    ensures
        final(store)@.wf(),
        match uid_toggled(old(store)@, cal_href@, uid@, m@) {
            Ok(done) => r is Ok && r->Ok_0@ == done.1 && final(store)@ == done.0,
            Err(e) => r is Err && r->Err_0@ == e && final(store)@ == old(store)@,
        },
{
    let task = match get_cached_task_by_uid(store, cal_href, uid) {
        None => {
            return Err(unknown_uid(uid));
        },
        Some(t) => t,
    };
    let was_completed = str_eq(task.status.as_str(), "completed");
    match toggle_in(store, cal_href, uid, m) {
        Err(e) => Err(e),
        Ok(_) => {
            let mark = if is_local_list(cal_href) {
                "".to_owned()
            } else {
                "*".to_owned()
            };
            Ok(ToggleReply { uid: uid.to_owned(), completed: !was_completed, mark })
        },
    }
}

/// The identifier in a message.
pub fn parse_uid(contents: &str) -> (r: Result<String, Failure>)
    ensures
        match r {
            Ok(s) => s@ == trimmed(contents@) && s@.len() > 0,
            Err(e) => trimmed(contents@).len() == 0 && e@ == plain("uid cannot be empty"@),
        },
{
    let uid = trim(contents);
    if char_count(uid.as_str()) == 0 {
        return Err(Failure::new("uid cannot be empty"));
    }
    Ok(uid)
}

/// An edit as the screen asks for it. Without a due date the task keeps its own;
/// an empty one clears it.
#[derive(Debug)]
pub struct EditRequest {
    pub uid: String,
    pub summary: String,
    pub due: Option<String>,
}

#[verifier::ext_equal]
pub struct EditRequestV {
    pub uid: Seq<char>,
    pub summary: Seq<char>,
    pub due: Option<Seq<char>>,
}

impl View for EditRequest {
    type V = EditRequestV;

    open spec fn view(&self) -> EditRequestV {
        EditRequestV { uid: self.uid@, summary: self.summary@, due: opt_text(self.due) }
    }
}

pub open spec fn edit_of(top: JsonTopV) -> Result<EditRequestV, FailureV> {
    let uid = trimmed(top.string_or("uid"@, ""@));
    let summary = trimmed(top.string_or("summary"@, ""@));
    if uid.len() == 0 {
        Err(plain("uid cannot be empty"@))
    } else if summary.len() == 0 {
        Err(plain("summary cannot be empty"@))
    } else {
        Ok(
            EditRequestV {
                uid,
                summary,
                due: match top.member("due"@) {
                    None => None,
                    Some(None) => Some(trimmed(""@)),
                    Some(Some(d)) => Some(trimmed(d)),
                },
            },
        )
    }
}

pub open spec fn edit_in_message(payload: Seq<char>) -> Result<EditRequestV, FailureV> {
    match json_top(payload) {
        Ok(top) => edit_of(top),
        Err(e) => Err(plain(e)),
    }
}

pub open spec fn edit_result(r: Result<EditRequest, Failure>) -> Result<EditRequestV, FailureV> {
    match r {
        Ok(x) => Ok(x@),
        Err(e) => Err(e@),
    }
}

/// Checks the members of an edit.
pub fn read_edit(top: &JsonTop) -> (r: Result<EditRequest, Failure>)
    ensures
        edit_result(r) == edit_of(top@),
{
    let uid = trim(top.str_field_or("uid", "").as_str());
    let due = if top.has("due") {
        Some(trim(top.str_field_or("due", "").as_str()))
    } else {
        None
    };
    let summary = trim(top.str_field_or("summary", "").as_str());
    if char_count(uid.as_str()) == 0 {
        return Err(Failure::new("uid cannot be empty"));
    }
    if char_count(summary.as_str()) == 0 {
        return Err(Failure::new("summary cannot be empty"));
    }
    Ok(EditRequest { uid, summary, due })
}

/// Reads an edit out of a message.
pub fn parse_edit(payload: &str) -> (r: Result<EditRequest, Failure>)
    ensures
        edit_result(r) == edit_in_message(payload@),
{
    match read_json(payload) {
        Ok(top) => read_edit(&top),
        Err(e) => Err(Failure::from_message(e)),
    }
}

pub open spec fn uid_edited(
    s: StoreV,
    cal: Seq<char>,
    uid: Seq<char>,
    summary: Seq<char>,
    due: Option<Seq<char>>,
    m: MomentV,
) -> Answered {
    match cached_by_uid(s, cal, uid) {
        None => Err(no_such_task(uid)),
        Some(t) => worded(
            edited_in(s, cal, uid, summary, due, m),
            arrow_quoted("Updated local task"@, t.summary, summary),
            arrow_quoted("Queued: edit"@, t.summary, summary),
        ),
    }
}

/// Edits a task.
pub fn edit_by_uid_inner(
    store: &mut Store,
    cal_href: &str,
    uid: &str,
    new_summary: &str,
    due: Option<&str>,
    m: &Moment,
) -> (r: Result<String, Failure>)
    requires
        old(store)@.wf(),
    ensures
        final(store)@.wf(),
        answers(
            r,
            old(store)@,
            final(store)@,
            uid_edited(old(store)@, cal_href@, uid@, new_summary@, opt_str(due), m@),
        ),
{
    let task = match get_cached_task_by_uid(store, cal_href, uid) {
        None => {
            return Err(unknown_uid(uid));
        },
        Some(t) => t,
    };
    let local = arrow_quote("Updated local task", task.summary.as_str(), new_summary);
    let queued = arrow_quote("Queued: edit", task.summary.as_str(), new_summary);
    let done = edit_in(store, cal_href, uid, new_summary, due, m);
    say(done, local, queued)
}

pub open spec fn uid_deleted(s: StoreV, cal: Seq<char>, uid: Seq<char>, m: MomentV) -> Answered {
    match cached_by_uid(s, cal, uid) {
        None => Err(no_such_task(uid)),
        Some(t) => worded(
            deleted_in(s, cal, uid, m),
            quoted("Deleted local task"@, t.summary),
            quoted("Queued: delete"@, t.summary),
        ),
    }
}

/// Deletes a task.
pub fn delete_by_uid_inner(store: &mut Store, cal_href: &str, uid: &str, m: &Moment) -> (r: Result<
    String,
    Failure,
>)
    requires
        old(store)@.wf(),
    ensures
        final(store)@.wf(),
        answers(r, old(store)@, final(store)@, uid_deleted(old(store)@, cal_href@, uid@, m@)),
{
    let task = match get_cached_task_by_uid(store, cal_href, uid) {
        None => {
            return Err(unknown_uid(uid));
        },
        Some(t) => t,
    };
    let local = quote("Deleted local task", task.summary.as_str());
    let queued = quote("Queued: delete", task.summary.as_str());
    let done = delete_in(store, cal_href, uid, m);
    say(done, local, queued)
}

// --- New tasks ---

/// The summary and the due date of a new task.
pub open spec fn create_in_message(payload: Seq<char>) -> (Seq<char>, Seq<char>) {
    match json_top(payload) {
        Ok(top) => if top.is_object {
            (trimmed(top.string_or("summary"@, ""@)), trimmed(top.string_or("due"@, ""@)))
        } else {
            (trimmed(payload), trimmed(""@))
        },
        Err(_) => (trimmed(payload), trimmed(""@)),
    }
}

/// Reads a new task out of a message: an object with a summary and perhaps a due
/// date, or else the bare summary.
pub fn parse_create(payload: &str) -> (r: (String, String))
    ensures
        (r.0@, r.1@) == create_in_message(payload@),
{
    match read_json(payload) {
        Ok(top) => {
            if top.is_object {
                return (
                    trim(top.str_field_or("summary", "").as_str()),
                    trim(top.str_field_or("due", "").as_str()),
                );
            }
        },
        Err(_) => {},
    }
    (trim(payload), trim(""))
}

pub open spec fn created(
    s: StoreV,
    cal: Seq<char>,
    uid: Seq<char>,
    summary: Seq<char>,
    due: Seq<char>,
    m: MomentV,
) -> Answered {
    if summary.len() == 0 {
        Err(plain("summary cannot be empty"@))
    } else {
        worded(
            created_in(
                s,
                cal,
                uid,
                summary,
                None,
                if due.len() == 0 {
                    None
                } else {
                    Some(due)
                },
                m,
            ),
            quoted("Created local task"@, summary),
            quoted("Queued: create"@, summary),
        )
    }
}

/// Creates a task under the identifier `uid`.
pub fn create(
    store: &mut Store,
    cal_href: &str,
    uid: &str,
    summary: &str,
    due: &str,
    m: &Moment,
) -> (r: Result<String, Failure>)
    requires
        old(store)@.wf(),
    ensures
        final(store)@.wf(),
        answers(
            r,
            old(store)@,
            final(store)@,
            created(old(store)@, cal_href@, uid@, summary@, due@, m@),
        ),
{
    if char_count(summary) == 0 {
        return Err(Failure::new("summary cannot be empty"));
    }
    let due_opt = if char_count(due) == 0 {
        None
    } else {
        Some(due)
    };
    let local = quote("Created local task", summary);
    let queued = quote("Queued: create", summary);
    let done = create_in(store, cal_href, uid, summary, None, due_opt, m);
    say(done, local, queued)
}

/// A to-do captured in a notebook, waiting to be taken in.
#[derive(Debug)]
pub struct IntakeItem {
    pub summary: String,
    pub source_doc_uuid: String,
    pub source_page_key: String,
    pub source_label: String,
}

#[verifier::ext_equal]
pub struct IntakeItemV {
    pub summary: Seq<char>,
    pub source_doc_uuid: Seq<char>,
    pub source_page_key: Seq<char>,
    pub source_label: Seq<char>,
}

impl View for IntakeItem {
    type V = IntakeItemV;

    open spec fn view(&self) -> IntakeItemV {
        IntakeItemV {
            summary: self.summary@,
            source_doc_uuid: self.source_doc_uuid@,
            source_page_key: self.source_page_key@,
            source_label: self.source_label@,
        }
    }
}

/// Where an item was captured, none where it does not say.
pub open spec fn anchor_of(i: IntakeItemV) -> Option<AnchorV> {
    if i.source_doc_uuid.len() == 0 && i.source_page_key.len() == 0 && i.source_label.len() == 0 {
        None
    } else {
        Some(
            AnchorV {
                doc_uuid: i.source_doc_uuid,
                page_key: i.source_page_key,
                label: i.source_label,
            },
        )
    }
}

/// Reads where an item was captured.
pub fn make_anchor(item: &IntakeItem) -> (a: Option<Anchor>)
    ensures
        crate::store::opt_anchor(a) == anchor_of(item@),
{
    if char_count(item.source_doc_uuid.as_str()) == 0 && char_count(item.source_page_key.as_str())
        == 0 && char_count(item.source_label.as_str()) == 0 {
        None
    } else {
        Some(
            Anchor {
                doc_uuid: item.source_doc_uuid.clone(),
                page_key: item.source_page_key.clone(),
                label: item.source_label.clone(),
            },
        )
    }
}

/// Taking in an item; nothing happens to one without a summary.
pub open spec fn taken_in(
    s: StoreV,
    cal: Seq<char>,
    item: IntakeItemV,
    uid: Seq<char>,
    m: MomentV,
) -> Result<(StoreV, bool), FailureV> {
    let summary = trimmed(item.summary);
    if summary.len() == 0 {
        Ok((s, false))
    } else {
        match created_in(s, cal, uid, summary, anchor_of(item), None, m) {
            Ok(done) => Ok((done.0, true)),
            Err(e) => Err(e),
        }
    }
}

/// Takes in a captured to-do under the identifier `uid`. Says whether it did; an
/// item that was not taken in stays for later.
pub fn ingest_item(
    store: &mut Store,
    cal_href: &str,
    item: &IntakeItem,
    uid: &str,
    m: &Moment,
) -> (r: Result<bool, Failure>)
    requires
        old(store)@.wf(),
    ensures
        final(store)@.wf(),
        match taken_in(old(store)@, cal_href@, item@, uid@, m@) {
            Ok(done) => r is Ok && r->Ok_0 == done.1 && final(store)@ == done.0,
            Err(e) => r is Err && r->Err_0@ == e && final(store)@ == old(store)@,
        },
{
    let summary = trim(item.summary.as_str());
    if char_count(summary.as_str()) == 0 {
        return Ok(false);
    }
    let anchor = make_anchor(item);
    let anchor_ref = match &anchor {
        Some(a) => Some(a),
        None => None,
    };
    match create_in(store, cal_href, uid, summary.as_str(), anchor_ref, None, m) {
        Ok(_) => Ok(true),
        Err(e) => Err(e),
    }
}

} // verus!
