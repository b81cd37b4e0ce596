//! Reading multistatus answers: the changes of a sync, the calendars of an
//! account, and single properties.
use vstd::prelude::*;
use crate::failure::{in_context, plain, Failure, FailureV};
use crate::ical::{crlf, ensure_crlf};
use crate::seqs::find;
use crate::task::{parse_vtodos, task_views, tasks_in, Task, TaskV};
use crate::text::{contains, has_sub, opt_text, texts, trim, trimmed};
use crate::weburl::{join_url, joined_url};
use crate::xml::{
    attribute_from, child, child_of, child_text, find_child, is_within, node_views, parsed_xml,
    read_xml, tagged, text_of_child, within, XmlNode, XmlNodeV,
};

verus! {

/// A task list of an account.
#[derive(Debug)]
pub struct Calendar {
    pub display_name: String,
    pub href: String,
}

#[verifier::ext_equal]
pub struct CalendarV {
    pub display_name: Seq<char>,
    pub href: Seq<char>,
}

impl View for Calendar {
    type V = CalendarV;

    open spec fn view(&self) -> CalendarV {
        CalendarV { display_name: self.display_name@, href: self.href@ }
    }
}

pub open spec fn calendar_list(v: Seq<Calendar>) -> Seq<CalendarV> {
    v.map_values(|c: Calendar| c@)
}

/// A task as the server reports it.
#[derive(Debug)]
pub struct TaskRecord {
    pub href: String,
    pub etag: String,
    pub ical_text: String,
    pub task: Task,
}

#[verifier::ext_equal]
pub struct TaskRecordV {
    pub href: Seq<char>,
    pub etag: Seq<char>,
    pub ical_text: Seq<char>,
    pub task: TaskV,
}

impl View for TaskRecord {
    type V = TaskRecordV;

    open spec fn view(&self) -> TaskRecordV {
        TaskRecordV {
            href: self.href@,
            etag: self.etag@,
            ical_text: self.ical_text@,
            task: self.task@,
        }
    }
}

pub open spec fn record_views(v: Seq<TaskRecord>) -> Seq<TaskRecordV> {
    v.map_values(|r: TaskRecord| r@)
}

/// What changed on the server, and where the next sync starts.
#[derive(Debug)]
pub struct SyncDelta {
    pub added_or_updated: Vec<TaskRecord>,
    pub deleted_hrefs: Vec<String>,
    pub new_sync_token: Option<String>,
}

#[verifier::ext_equal]
pub struct SyncDeltaV {
    pub added_or_updated: Seq<TaskRecordV>,
    pub deleted_hrefs: Seq<Seq<char>>,
    pub new_sync_token: Option<Seq<char>>,
}

impl View for SyncDelta {
    type V = SyncDeltaV;

    open spec fn view(&self) -> SyncDeltaV {
        SyncDeltaV {
            added_or_updated: record_views(self.added_or_updated@),
            deleted_hrefs: texts(self.deleted_hrefs@),
            new_sync_token: opt_text(self.new_sync_token),
        }
    }
}

/// Does a propstat report success?
pub open spec fn propstat_ok(nodes: Seq<XmlNodeV>, p: int) -> bool {
    match child_text(nodes, p, "status"@) {
        Some(s) => has_sub(s, " 200 "@),
        None => false,
    }
}

/// The properties of the propstat `p`, where it is a successful one of the
/// response `r`; else the number of nodes.
pub open spec fn good_prop(nodes: Seq<XmlNodeV>, r: int, p: int) -> int {
    if child_of(r, "propstat"@)(nodes[p]) && propstat_ok(nodes, p) {
        child(nodes, p, "prop"@)
    } else {
        nodes.len() as int
    }
}

/// Is the node `c` a property `tag` of `prop`?
pub open spec fn is_property(nodes: Seq<XmlNodeV>, prop: int, c: int, tag: Seq<char>) -> bool {
    child_of(prop, tag)(nodes[c])
}

/// The trimmed text of the last property `tag` with a text among the first `n`
/// nodes, `before` where there is none.
pub open spec fn last_text(
    nodes: Seq<XmlNodeV>,
    prop: int,
    tag: Seq<char>,
    before: Seq<char>,
    n: nat,
) -> Seq<char>
    decreases n,
{
    if n == 0 {
        before
    } else {
        let sofar = last_text(nodes, prop, tag, before, (n - 1) as nat);
        if is_property(nodes, prop, n - 1, tag) {
            match nodes[n - 1].text {
                Some(t) => trimmed(t),
                None => sofar,
            }
        } else {
            sofar
        }
    }
}

/// The same over the successful propstats of the response `r` among the first `n`
/// nodes.
pub open spec fn response_text(nodes: Seq<XmlNodeV>, r: int, tag: Seq<char>, n: nat) -> Seq<char>
    decreases n,
{
    if n == 0 {
        ""@
    } else {
        let sofar = response_text(nodes, r, tag, (n - 1) as nat);
        let prop = good_prop(nodes, r, n - 1);
        if prop < nodes.len() {
            last_text(nodes, prop, tag, sofar, nodes.len())
        } else {
            sofar
        }
    }
}

/// The href of the response `r`, not empty.
pub open spec fn response_href(nodes: Seq<XmlNodeV>, r: int) -> Option<Seq<char>> {
    match child_text(nodes, r, "href"@) {
        Some(t) => if trimmed(t).len() == 0 {
            None
        } else {
            Some(trimmed(t))
        },
        None => None,
    }
}

/// `href` resolved against `base`, or as it is where it does not resolve.
pub open spec fn resolved(base: Seq<char>, href: Seq<char>) -> Seq<char> {
    match joined_url(base, href) {
        Ok(u) => u,
        Err(_) => href,
    }
}

/// Does the response `r` report a deleted resource?
pub open spec fn reports_deleted(nodes: Seq<XmlNodeV>, r: int) -> bool {
    match child_text(nodes, r, "status"@) {
        Some(s) => has_sub(s, " 404 "@),
        None => false,
    }
}

/// One record for each task.
pub open spec fn records_of(
    tasks: Seq<TaskV>,
    href: Seq<char>,
    etag: Seq<char>,
    ical: Seq<char>,
) -> Seq<TaskRecordV> {
    tasks.map_values(|t: TaskV| TaskRecordV { href, etag, ical_text: ical, task: t })
}

/// The records of a resource that is there. A body without content, or one that
/// does not parse, has none.
pub open spec fn resource_records(nodes: Seq<XmlNodeV>, r: int, href: Seq<char>) -> Seq<
    TaskRecordV,
> {
    let etag = response_text(nodes, r, "getetag"@, nodes.len());
    let ical = crlf(response_text(nodes, r, "calendar-data"@, nodes.len()));
    if ical.len() == 0 {
        Seq::empty()
    } else {
        match tasks_in(ical) {
            Ok(ts) => records_of(ts, href, etag, ical),
            Err(_) => Seq::empty(),
        }
    }
}

/// The records of the responses among the first `n` nodes.
pub open spec fn records_among(nodes: Seq<XmlNodeV>, base: Seq<char>, n: nat) -> Seq<TaskRecordV>
    decreases n,
{
    if n == 0 {
        Seq::empty()
    } else {
        let sofar = records_among(nodes, base, (n - 1) as nat);
        let r = n - 1;
        match response_href(nodes, r) {
            Some(h) => if tagged("response"@)(nodes[r]) && !reports_deleted(nodes, r) {
                sofar + resource_records(nodes, r, resolved(base, h))
            } else {
                sofar
            },
            None => sofar,
        }
    }
}

/// The hrefs reported deleted by the responses among the first `n` nodes.
pub open spec fn deleted_among(nodes: Seq<XmlNodeV>, base: Seq<char>, n: nat) -> Seq<Seq<char>>
    decreases n,
{
    if n == 0 {
        Seq::empty()
    } else {
        let sofar = deleted_among(nodes, base, (n - 1) as nat);
        let r = n - 1;
        match response_href(nodes, r) {
            Some(h) => if tagged("response"@)(nodes[r]) && reports_deleted(nodes, r) {
                sofar.push(resolved(base, h))
            } else {
                sofar
            },
            None => sofar,
        }
    }
}

/// The token of the answer, not empty.
pub open spec fn sync_token_in(nodes: Seq<XmlNodeV>) -> Option<Seq<char>> {
    let k = find(nodes, tagged("sync-token"@), 0);
    if k < nodes.len() {
        match nodes[k as int].text {
            Some(t) => if trimmed(t).len() == 0 {
                None
            } else {
                Some(trimmed(t))
            },
            None => None,
        }
    } else {
        None
    }
}

/// The changes that a document reports.
pub open spec fn delta_of(nodes: Seq<XmlNodeV>, base: Seq<char>) -> SyncDeltaV {
    SyncDeltaV {
        added_or_updated: records_among(nodes, base, nodes.len()),
        deleted_hrefs: deleted_among(nodes, base, nodes.len()),
        new_sync_token: sync_token_in(nodes),
    }
}

/// The changes that an answer reports.
pub open spec fn delta_in(xml: Seq<char>, base: Seq<char>) -> Result<SyncDeltaV, FailureV> {
    match parsed_xml(xml) {
        Ok(nodes) => Ok(delta_of(nodes, base)),
        Err(e) => Err(in_context(plain(e), "parsing sync-collection XML"@)),
    }
}

pub open spec fn delta_result(r: Result<SyncDelta, Failure>) -> Result<SyncDeltaV, FailureV> {
    match r {
        Ok(d) => Ok(d@),
        Err(e) => Err(e@),
    }
}

fn propstat_is_ok(nodes: &Vec<XmlNode>, p: usize) -> (r: bool)
    ensures
        r == propstat_ok(node_views(nodes@), p as int),
{
    match text_of_child(nodes, p, "status") {
        Some(s) => contains(s, " 200 "),
        None => false,
    }
}

/// The properties of the propstat `p` of the response `r`, or the number of nodes.
fn find_good_prop(nodes: &Vec<XmlNode>, r: usize, p: usize) -> (k: usize)
    requires
        p < nodes@.len(),
    ensures
        k == good_prop(node_views(nodes@), r as int, p as int),
        k <= nodes@.len(),
{
    assert(node_views(nodes@)[p as int] == nodes@[p as int]@);
    if nodes[p].is_child_of(r, "propstat") && propstat_is_ok(nodes, p) {
        find_child(nodes, p, "prop")
    } else {
        nodes.len()
    }
}

/// The trimmed text of the last property `tag` of `prop`, or `before`.
fn last_text_of(nodes: &Vec<XmlNode>, prop: usize, tag: &str, before: String) -> (r: String)
    ensures
        r@ == last_text(node_views(nodes@), prop as int, tag@, before@, nodes@.len()),
{
    let ghost ns = node_views(nodes@);
    let mut r = before;
    let mut c: usize = 0;
    while c < nodes.len()
        invariant
            c <= nodes@.len(),
            ns == node_views(nodes@),
            r@ == last_text(ns, prop as int, tag@, before@, c as nat),
        decreases nodes@.len() - c,
    {
        assert(ns[c as int] == nodes@[c as int]@);
        if nodes[c].is_child_of(prop, tag) {
            match &nodes[c].text {
                Some(t) => {
                    r = trim(t.as_str());
                },
                None => {},
            }
        }
        c += 1;
    }
    r
}

/// The text of a property of the response `r`.
fn text_in_response(nodes: &Vec<XmlNode>, r: usize, tag: &str) -> (s: String)
    ensures
        s@ == response_text(node_views(nodes@), r as int, tag@, nodes@.len()),
{
    let ghost ns = node_views(nodes@);
    let mut s = "".to_owned();
    let mut p: usize = 0;
    while p < nodes.len()
        invariant
            p <= nodes@.len(),
            ns == node_views(nodes@),
            s@ == response_text(ns, r as int, tag@, p as nat),
        decreases nodes@.len() - p,
    {
        let prop = find_good_prop(nodes, r, p);
        if prop < nodes.len() {
            s = last_text_of(nodes, prop, tag, s);
        }
        p += 1;
    }
    s
}

/// The trimmed href of the response `r`.
fn href_of_response(nodes: &Vec<XmlNode>, r: usize) -> (h: Option<String>)
    ensures
        opt_text(h) == response_href(node_views(nodes@), r as int),
{
    match text_of_child(nodes, r, "href") {
        Some(t) => {
            let s = trim(t);
            if crate::text::char_count(s.as_str()) == 0 {
                None
            } else {
                Some(s)
            }
        },
        None => None,
    }
}

fn resolve(base: &str, href: String) -> (u: String)
    ensures
        u@ == resolved(base@, href@),
{
    match join_url(base, href.as_str()) {
        Ok(u) => u,
        Err(_) => href,
    }
}

fn is_deleted(nodes: &Vec<XmlNode>, r: usize) -> (b: bool)
    ensures
        b == reports_deleted(node_views(nodes@), r as int),
{
    match text_of_child(nodes, r, "status") {
        Some(s) => contains(s, " 404 "),
        None => false,
    }
}

/// Appends one record for each task.
fn push_records(
    out: &mut Vec<TaskRecord>,
    tasks: &Vec<Task>,
    href: &str,
    etag: &str,
    ical: &str,
)
    ensures
        record_views(final(out)@) == record_views(old(out)@) + records_of(
            task_views(tasks@),
            href@,
            etag@,
            ical@,
        ),
{
    let ghost before = record_views(out@);
    let ghost want = records_of(task_views(tasks@), href@, etag@, ical@);
    let mut i: usize = 0;
    assert(record_views(out@) =~= before + want.take(0));
    while i < tasks.len()
        invariant
            i <= tasks@.len(),
            before == record_views(old(out)@),
            want == records_of(task_views(tasks@), href@, etag@, ical@),
            record_views(out@) == before + want.take(i as int),
        decreases tasks@.len() - i,
    {
        let rec = TaskRecord {
            href: href.to_owned(),
            etag: etag.to_owned(),
            ical_text: ical.to_owned(),
            task: tasks[i].copy(),
        };
        let ghost mid = record_views(out@);
        out.push(rec);
        proof {
            assert(record_views(out@) =~= mid.push(rec@));
            assert(want[i as int] == rec@);
            assert(mid.push(rec@) =~= before + want.take(i + 1));
        }
        i += 1;
    }
    assert(want.take(i as int) =~= want);
}

/// Appends the records of the resource of the response `r`.
fn push_resource(out: &mut Vec<TaskRecord>, nodes: &Vec<XmlNode>, r: usize, href: &str)
    ensures
        record_views(final(out)@) == record_views(old(out)@) + resource_records(
            node_views(nodes@),
            r as int,
            href@,
        ),
{
    let etag = text_in_response(nodes, r, "getetag");
    let raw = text_in_response(nodes, r, "calendar-data");
    let ical = ensure_crlf(raw.as_str());
    let ghost before = record_views(out@);
    assert(before + Seq::<TaskRecordV>::empty() =~= before);
    if crate::text::char_count(ical.as_str()) == 0 {
        return ;
    }
    match parse_vtodos(ical.as_str()) {
        Ok(tasks) => {
            push_records(out, &tasks, href, etag.as_str(), ical.as_str());
        },
        Err(_) => {},
    }
}

fn find_token(nodes: &Vec<XmlNode>) -> (r: Option<String>)
    ensures
        opt_text(r) == sync_token_in(node_views(nodes@)),
{
    let ghost ns = node_views(nodes@);
    let mut k: usize = 0;
    while k < nodes.len() && !nodes[k].has_tag("sync-token")
        invariant
            k <= nodes@.len(),
            ns == node_views(nodes@),
            forall|i: int| 0 <= i < k ==> !tagged("sync-token"@)(#[trigger] ns[i]),
        decreases nodes@.len() - k,
    {
        k += 1;
    }
    proof {
        crate::seqs::lemma_find_is(ns, tagged("sync-token"@), k as nat);
    }
    if k < nodes.len() {
        assert(ns[k as int] == nodes@[k as int]@);
        match &nodes[k].text {
            Some(t) => {
                let s = trim(t.as_str());
                if crate::text::char_count(s.as_str()) == 0 {
                    None
                } else {
                    Some(s)
                }
            },
            None => None,
        }
    } else {
        None
    }
}

/// Reads the changes out of the nodes of an answer.
pub fn sync_delta_of_nodes(nodes: &Vec<XmlNode>, base: &str) -> (d: SyncDelta)
    ensures
        d@ == delta_of(node_views(nodes@), base@),
{
    let ghost ns = node_views(nodes@);
    let mut added: Vec<TaskRecord> = Vec::new();
    let mut deleted: Vec<String> = Vec::new();
    let new_sync_token = find_token(nodes);
    let mut i: usize = 0;
    assert(record_views(added@) =~= Seq::empty());
    assert(texts(deleted@) =~= Seq::empty());
    while i < nodes.len()
        invariant
            i <= nodes@.len(),
            ns == node_views(nodes@),
            record_views(added@) == records_among(ns, base@, i as nat),
            texts(deleted@) == deleted_among(ns, base@, i as nat),
        decreases nodes@.len() - i,
    {
        assert(ns[i as int] == nodes@[i as int]@);
        if nodes[i].has_tag("response") {
            match href_of_response(nodes, i) {
                Some(h) => {
                    let href = resolve(base, h);
                    if is_deleted(nodes, i) {
                        let ghost before = texts(deleted@);
                        deleted.push(href);
                        assert(texts(deleted@) =~= before.push(href@));
                    } else {
                        push_resource(&mut added, nodes, i, href.as_str());
                    }
                },
                None => {},
            }
        }
        i += 1;
    }
    SyncDelta { added_or_updated: added, deleted_hrefs: deleted, new_sync_token }
}

/// Reads the changes that a REPORT answers with. Resources whose body does not
/// parse are left out.
pub fn parse_sync_response(xml: &str, base: &str) -> (r: Result<SyncDelta, Failure>)
    ensures
        delta_result(r) == delta_in(xml@, base@),
{
    match read_xml(xml) {
        Ok(nodes) => Ok(sync_delta_of_nodes(&nodes, base)),
        Err(e) => Err(Failure::from_message(e).context("parsing sync-collection XML")),
    }
}

// --- Single properties ---

/// The first href at or below the node `t`, from `i` on; else the number of nodes.
pub open spec fn href_below(nodes: Seq<XmlNodeV>, t: nat, i: nat) -> nat
    decreases nodes.len() - i,
{
    if i >= nodes.len() {
        nodes.len()
    } else if within(nodes, i, t) && tagged("href"@)(nodes[i as int]) {
        i
    } else {
        href_below(nodes, t, i + 1)
    }
}

/// The href inside the property `name` of the propstat `p`, where it is a
/// successful one.
pub open spec fn propstat_href(nodes: Seq<XmlNodeV>, p: int, name: Seq<char>) -> Option<Seq<char>> {
    let prop = child(nodes, p, "prop"@);
    let target = child(nodes, prop, name);
    let h = href_below(nodes, target as nat, 0);
    if propstat_ok(nodes, p) && prop < nodes.len() && target < nodes.len() && h < nodes.len() {
        match nodes[h as int].text {
            Some(t) => Some(trimmed(t)),
            None => None,
        }
    } else {
        None
    }
}

/// The first such href among the propstats below the response `r`, from `i` on.
pub open spec fn response_property(
    nodes: Seq<XmlNodeV>,
    r: nat,
    name: Seq<char>,
    i: nat,
) -> Option<Seq<char>>
    decreases nodes.len() - i,
{
    if i >= nodes.len() {
        None
    } else if within(nodes, i, r) && tagged("propstat"@)(nodes[i as int]) && propstat_href(
        nodes,
        i as int,
        name,
    ) is Some {
        propstat_href(nodes, i as int, name)
    } else {
        response_property(nodes, r, name, i + 1)
    }
}

/// The first such href among the responses, from `i` on.
pub open spec fn first_property(nodes: Seq<XmlNodeV>, name: Seq<char>, i: nat) -> Option<Seq<char>>
    decreases nodes.len() - i,
{
    if i >= nodes.len() {
        None
    } else if tagged("response"@)(nodes[i as int]) && response_property(nodes, i, name, 0) is Some {
        response_property(nodes, i, name, 0)
    } else {
        first_property(nodes, name, i + 1)
    }
}

/// The href that an answer gives for the property `name`.
pub open spec fn href_property(xml: Seq<char>, name: Seq<char>) -> Result<Seq<char>, FailureV> {
    match parsed_xml(xml) {
        Ok(nodes) => match first_property(nodes, name, 0) {
            Some(h) => Ok(h),
            None => Err(no_property(name)),
        },
        Err(e) => Err(in_context(plain(e), "parsing XML"@)),
    }
}

pub open spec fn no_property(name: Seq<char>) -> FailureV {
    plain("no <"@ + name + "> with an <href> child found in a 200-status propstat"@)
}

pub open spec fn href_result(r: Result<String, Failure>) -> Result<Seq<char>, FailureV> {
    match r {
        Ok(s) => Ok(s@),
        Err(e) => Err(e@),
    }
}

fn find_href_below(nodes: &Vec<XmlNode>, t: usize) -> (k: usize)
    ensures
        k == href_below(node_views(nodes@), t as nat, 0),
        k <= nodes@.len(),
{
    let ghost ns = node_views(nodes@);
    let mut k: usize = 0;
    while k < nodes.len()
        invariant
            k <= nodes@.len(),
            ns == node_views(nodes@),
            href_below(ns, t as nat, 0) == href_below(ns, t as nat, k as nat),
        decreases nodes@.len() - k,
    {
        assert(ns[k as int] == nodes@[k as int]@);
        if nodes[k].has_tag("href") && is_within(nodes, k, t) {
            return k;
        }
        k += 1;
    }
    k
}

fn href_in_propstat(nodes: &Vec<XmlNode>, p: usize, name: &str) -> (r: Option<String>)
    ensures
        opt_text(r) == propstat_href(node_views(nodes@), p as int, name@),
{
    if !propstat_is_ok(nodes, p) {
        return None;
    }
    let prop = find_child(nodes, p, "prop");
    if prop >= nodes.len() {
        return None;
    }
    let target = find_child(nodes, prop, name);
    if target >= nodes.len() {
        return None;
    }
    let h = find_href_below(nodes, target);
    if h >= nodes.len() {
        return None;
    }
    assert(node_views(nodes@)[h as int] == nodes@[h as int]@);
    match &nodes[h].text {
        Some(t) => Some(trim(t.as_str())),
        None => None,
    }
}

fn property_of_response(nodes: &Vec<XmlNode>, r: usize, name: &str) -> (h: Option<String>)
    ensures
        opt_text(h) == response_property(node_views(nodes@), r as nat, name@, 0),
{
    let ghost ns = node_views(nodes@);
    let mut i: usize = 0;
    while i < nodes.len()
        invariant
            i <= nodes@.len(),
            ns == node_views(nodes@),
            response_property(ns, r as nat, name@, 0) == response_property(
                ns,
                r as nat,
                name@,
                i as nat,
            ),
        decreases nodes@.len() - i,
    {
        assert(ns[i as int] == nodes@[i as int]@);
        if nodes[i].has_tag("propstat") && is_within(nodes, i, r) {
            match href_in_propstat(nodes, i, name) {
                Some(h) => {
                    return Some(h);
                },
                None => {},
            }
        }
        i += 1;
    }
    None
}

/// The href that the nodes of an answer give for the property `name`.
pub fn href_property_of_nodes(nodes: &Vec<XmlNode>, name: &str) -> (h: Option<String>)
    ensures
        opt_text(h) == first_property(node_views(nodes@), name@, 0),
{
    let ghost ns = node_views(nodes@);
    let mut i: usize = 0;
    while i < nodes.len()
        invariant
            i <= nodes@.len(),
            ns == node_views(nodes@),
            first_property(ns, name@, 0) == first_property(ns, name@, i as nat),
        decreases nodes@.len() - i,
    {
        assert(ns[i as int] == nodes@[i as int]@);
        if nodes[i].has_tag("response") {
            match property_of_response(nodes, i, name) {
                Some(h) => {
                    return Some(h);
                },
                None => {},
            }
        }
        i += 1;
    }
    None
}

/// Reads the href of a property.
pub fn parse_href_property(xml: &str, property_local_name: &str) -> (r: Result<String, Failure>)
    ensures
        href_result(r) == href_property(xml@, property_local_name@),
{
    match read_xml(xml) {
        Ok(nodes) => match href_property_of_nodes(&nodes, property_local_name) {
            Some(h) => Ok(h),
            None => {
                let mut m = "no <".to_owned();
                m.append(property_local_name);
                m.append("> with an <href> child found in a 200-status propstat");
                Err(Failure::from_message(m))
            },
        },
        Err(e) => Err(Failure::from_message(e).context("parsing XML")),
    }
}

// --- Calendars ---

/// Has the node `c` a child `tag` among the first `n` nodes?
pub open spec fn has_child(nodes: Seq<XmlNodeV>, c: int, tag: Seq<char>) -> bool {
    child(nodes, c, tag) < nodes.len()
}

/// Has the node `c` a component child named VTODO?
pub open spec fn names_vtodo(nodes: Seq<XmlNodeV>, c: int) -> bool {
    exists|i: int|
        0 <= i < nodes.len() && child_of(c, "comp"@)(#[trigger] nodes[i]) && attribute_from(
            nodes[i].attributes,
            "name"@,
            0,
        ) == Some("VTODO"@)
}

/// Does `prop` say that the resource is a calendar?
pub open spec fn prop_is_calendar(nodes: Seq<XmlNodeV>, prop: int) -> bool {
    exists|c: int|
        0 <= c < nodes.len() && is_property(nodes, prop, c, "resourcetype"@) && #[trigger] has_child(
            nodes,
            c,
            "calendar"@,
        )
}

/// Does `prop` say that the resource holds to-dos?
pub open spec fn prop_holds_todos(nodes: Seq<XmlNodeV>, prop: int) -> bool {
    exists|c: int|
        0 <= c < nodes.len() && is_property(
            nodes,
            prop,
            c,
            "supported-calendar-component-set"@,
        ) && #[trigger] names_vtodo(nodes, c)
}

/// Does some successful propstat of `r` say that the resource is a calendar?
pub open spec fn is_calendar(nodes: Seq<XmlNodeV>, r: int) -> bool {
    exists|p: int|
        0 <= p < nodes.len() && (#[trigger] good_prop(nodes, r, p)) < nodes.len()
            && prop_is_calendar(nodes, good_prop(nodes, r, p))
}

/// Does some successful propstat of `r` say that the resource holds to-dos?
pub open spec fn holds_todos(nodes: Seq<XmlNodeV>, r: int) -> bool {
    exists|p: int|
        0 <= p < nodes.len() && (#[trigger] good_prop(nodes, r, p)) < nodes.len()
            && prop_holds_todos(nodes, good_prop(nodes, r, p))
}

/// The last display name in `prop` that is not empty, among the first `n` nodes.
pub open spec fn prop_name(
    nodes: Seq<XmlNodeV>,
    prop: int,
    before: Option<Seq<char>>,
    n: nat,
) -> Option<Seq<char>>
    decreases n,
{
    if n == 0 {
        before
    } else {
        let sofar = prop_name(nodes, prop, before, (n - 1) as nat);
        if is_property(nodes, prop, n - 1, "displayname"@) {
            match nodes[n - 1].text {
                Some(t) => if trimmed(t).len() > 0 {
                    Some(trimmed(t))
                } else {
                    sofar
                },
                None => sofar,
            }
        } else {
            sofar
        }
    }
}

/// The same over the successful propstats of `r` among the first `n` nodes.
pub open spec fn response_name(nodes: Seq<XmlNodeV>, r: int, n: nat) -> Option<Seq<char>>
    decreases n,
{
    if n == 0 {
        None
    } else {
        let sofar = response_name(nodes, r, (n - 1) as nat);
        let prop = good_prop(nodes, r, n - 1);
        if prop < nodes.len() {
            prop_name(nodes, prop, sofar, nodes.len())
        } else {
            sofar
        }
    }
}

/// The calendar of the response `r`, where it is one that holds to-dos.
pub open spec fn calendar_at(nodes: Seq<XmlNodeV>, base: Seq<char>, r: int) -> Option<CalendarV> {
    match child_text(nodes, r, "href"@) {
        None => None,
        Some(t) => match joined_url(base, trimmed(t)) {
            Err(_) => None,
            Ok(href) => if is_calendar(nodes, r) && holds_todos(nodes, r) {
                Some(
                    CalendarV {
                        display_name: match response_name(nodes, r, nodes.len()) {
                            Some(name) => name,
                            None => href,
                        },
                        href,
                    },
                )
            } else {
                None
            },
        },
    }
}

/// The calendars of the responses among the first `n` nodes.
pub open spec fn calendars_among(nodes: Seq<XmlNodeV>, base: Seq<char>, n: nat) -> Seq<CalendarV>
    decreases n,
{
    if n == 0 {
        Seq::empty()
    } else {
        let sofar = calendars_among(nodes, base, (n - 1) as nat);
        match calendar_at(nodes, base, n - 1) {
            Some(c) => if tagged("response"@)(nodes[n - 1]) {
                sofar.push(c)
            } else {
                sofar
            },
            None => sofar,
        }
    }
}

/// The calendars that an answer lists.
pub open spec fn calendars_in(xml: Seq<char>, base: Seq<char>) -> Result<Seq<CalendarV>, FailureV> {
    match parsed_xml(xml) {
        Ok(nodes) => Ok(calendars_among(nodes, base, nodes.len())),
        Err(e) => Err(in_context(plain(e), "parsing XML"@)),
    }
}

pub open spec fn calendars_result(r: Result<Vec<Calendar>, Failure>) -> Result<
    Seq<CalendarV>,
    FailureV,
> {
    match r {
        Ok(v) => Ok(calendar_list(v@)),
        Err(e) => Err(e@),
    }
}

fn has_vtodo(nodes: &Vec<XmlNode>, c: usize) -> (b: bool)
    ensures
        b == names_vtodo(node_views(nodes@), c as int),
{
    let ghost ns = node_views(nodes@);
    let mut i: usize = 0;
    while i < nodes.len()
        invariant
            i <= nodes@.len(),
            ns == node_views(nodes@),
            forall|j: int|
                0 <= j < i ==> !(child_of(c as int, "comp"@)(#[trigger] ns[j]) && attribute_from(
                    ns[j].attributes,
                    "name"@,
                    0,
                ) == Some("VTODO"@)),
        decreases nodes@.len() - i,
    {
        assert(ns[i as int] == nodes@[i as int]@);
        if nodes[i].is_child_of(c, "comp") && nodes[i].has_attribute("name", "VTODO") {
            return true;
        }
        i += 1;
    }
    false
}

fn says_calendar(nodes: &Vec<XmlNode>, prop: usize) -> (b: bool)
    ensures
        b == prop_is_calendar(node_views(nodes@), prop as int),
{
    let ghost ns = node_views(nodes@);
    let mut c: usize = 0;
    while c < nodes.len()
        invariant
            c <= nodes@.len(),
            ns == node_views(nodes@),
            forall|j: int|
                0 <= j < c ==> !(is_property(ns, prop as int, j, "resourcetype"@)
                    && #[trigger] has_child(ns, j, "calendar"@)),
        decreases nodes@.len() - c,
    {
        assert(ns[c as int] == nodes@[c as int]@);
        if nodes[c].is_child_of(prop, "resourcetype") && find_child(nodes, c, "calendar")
            < nodes.len() {
            assert(has_child(ns, c as int, "calendar"@));
            return true;
        }
        c += 1;
    }
    false
}

fn says_todos(nodes: &Vec<XmlNode>, prop: usize) -> (b: bool)
    ensures
        b == prop_holds_todos(node_views(nodes@), prop as int),
{
    let ghost ns = node_views(nodes@);
    let mut c: usize = 0;
    while c < nodes.len()
        invariant
            c <= nodes@.len(),
            ns == node_views(nodes@),
            forall|j: int|
                0 <= j < c ==> !(is_property(
                    ns,
                    prop as int,
                    j,
                    "supported-calendar-component-set"@,
                ) && #[trigger] names_vtodo(ns, j)),
        decreases nodes@.len() - c,
    {
        assert(ns[c as int] == nodes@[c as int]@);
        if nodes[c].is_child_of(prop, "supported-calendar-component-set") && has_vtodo(nodes, c) {
            return true;
        }
        c += 1;
    }
    false
}

fn name_in_prop(nodes: &Vec<XmlNode>, prop: usize, before: Option<String>) -> (r: Option<String>)
    ensures
        opt_text(r) == prop_name(
            node_views(nodes@),
            prop as int,
            opt_text(before),
            nodes@.len(),
        ),
{
    let ghost ns = node_views(nodes@);
    let mut r = before;
    let mut c: usize = 0;
    while c < nodes.len()
        invariant
            c <= nodes@.len(),
            ns == node_views(nodes@),
            opt_text(r) == prop_name(ns, prop as int, opt_text(before), c as nat),
        decreases nodes@.len() - c,
    {
        assert(ns[c as int] == nodes@[c as int]@);
        if nodes[c].is_child_of(prop, "displayname") {
            match &nodes[c].text {
                Some(t) => {
                    let s = trim(t.as_str());
                    if crate::text::char_count(s.as_str()) > 0 {
                        r = Some(s);
                    }
                },
                None => {},
            }
        }
        c += 1;
    }
    r
}

fn calendar_of_response(nodes: &Vec<XmlNode>, base: &str, r: usize) -> (c: Option<Calendar>)
    ensures
        match c {
            Some(x) => calendar_at(node_views(nodes@), base@, r as int) == Some(x@),
            None => calendar_at(node_views(nodes@), base@, r as int) is None,
        },
{
    let ghost ns = node_views(nodes@);
    let href = match text_of_child(nodes, r, "href") {
        Some(t) => match join_url(base, trim(t).as_str()) {
            Ok(u) => u,
            Err(_) => {
                return None;
            },
        },
        None => {
            return None;
        },
    };
    let mut calendar = false;
    let mut todos = false;
    let mut name: Option<String> = None;
    let mut p: usize = 0;
    while p < nodes.len()
        invariant
            p <= nodes@.len(),
            ns == node_views(nodes@),
            calendar == (exists|j: int|
                0 <= j < p && (#[trigger] good_prop(ns, r as int, j)) < ns.len()
                    && prop_is_calendar(ns, good_prop(ns, r as int, j))),
            todos == (exists|j: int|
                0 <= j < p && (#[trigger] good_prop(ns, r as int, j)) < ns.len()
                    && prop_holds_todos(ns, good_prop(ns, r as int, j))),
            opt_text(name) == response_name(ns, r as int, p as nat),
        decreases nodes@.len() - p,
    {
        let prop = find_good_prop(nodes, r, p);
        if prop < nodes.len() {
            if says_calendar(nodes, prop) {
                calendar = true;
            }
            if says_todos(nodes, prop) {
                todos = true;
            }
            name = name_in_prop(nodes, prop, name);
        }
        p += 1;
    }
    if calendar && todos {
        let display_name = match name {
            Some(n) => n,
            None => href.clone(),
        };
        Some(Calendar { display_name, href })
    } else {
        None
    }
}

/// Reads the calendars out of the nodes of an answer.
pub fn calendars_of_nodes(nodes: &Vec<XmlNode>, base: &str) -> (r: Vec<Calendar>)
    ensures
        calendar_list(r@) == calendars_among(node_views(nodes@), base@, nodes@.len()),
{
    let ghost ns = node_views(nodes@);
    let mut out: Vec<Calendar> = Vec::new();
    let mut i: usize = 0;
    assert(calendar_list(out@) =~= Seq::empty());
    while i < nodes.len()
        invariant
            i <= nodes@.len(),
            ns == node_views(nodes@),
            calendar_list(out@) == calendars_among(ns, base@, i as nat),
        decreases nodes@.len() - i,
    {
        assert(ns[i as int] == nodes@[i as int]@);
        if nodes[i].has_tag("response") {
            match calendar_of_response(nodes, base, i) {
                Some(c) => {
                    let ghost before = calendar_list(out@);
                    out.push(c);
                    assert(calendar_list(out@) =~= before.push(c@));
                },
                None => {},
            }
        }
        i += 1;
    }
    out
}

/// Reads the task lists of an account: the calendars that hold to-dos.
pub fn parse_calendars(xml: &str, base: &str) -> (r: Result<Vec<Calendar>, Failure>)
    ensures
        calendars_result(r) == calendars_in(xml@, base@),
{
    match read_xml(xml) {
        Ok(nodes) => Ok(calendars_of_nodes(&nodes, base)),
        Err(e) => Err(Failure::from_message(e).context("parsing XML")),
    }
}

} // verus!
