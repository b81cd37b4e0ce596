//! Conflicts that the user resolves: the preview, and what keeping one side or
//! the other does.
use vstd::prelude::*;
use crate::cache::{delete_by_uid, not_of_uid};
use crate::failure::{in_context, plain, Failure, FailureV};
use crate::http::{
    get_meaning, get_request_of, get_task_outcome, get_task_request, put_meaning, put_request_of,
    put_task_outcome, put_task_request, reply_views, Reply, ReplyV, Step, StepV, WriteOutcome,
    WriteOutcomeV,
};
use crate::listing::{cached_by_uid, get_cached_task_by_uid, CachedTaskV};
use crate::pending::{
    drop_errored_on, errored_on, first_resolvable_conflict, get_pending_op_by_id, not_errored_on,
    resolvable,
};
use crate::seqs::{count, first};
use crate::store::{of_uid, op_with_id, PendingOp, PendingOpV, Store, StoreV, TaskRowV};
use crate::task::{first_task_in, parse_vtodos_first, Task, TaskStatus, TaskV};
use crate::text::{
    char_count, chars_of, contains, debug_quoted, debug_text, decimal, decimal_of, find_char,
    has_sub, index_before, lemma_index_before, parse_i64, parsed_i64, signed_decimal,
    signed_decimal_of, skip_chars, str_eq, string_of_range,
};
use crate::weburl::{build_task_url, task_url};

verus! {

// --- The preview ---

/// The tail of a long identifier.
pub open spec fn short_uid(uid: Seq<char>) -> Seq<char> {
    if uid.len() > 8 {
        "…"@ + uid.skip(uid.len() - 8)
    } else {
        uid
    }
}

pub open spec fn completion(completed: bool) -> Seq<char> {
    if completed {
        "completed"@
    } else {
        "not completed"@
    }
}

pub open spec fn server_pair(o: Option<(&str, bool)>) -> Option<(Seq<char>, bool)> {
    match o {
        Some(p) => Some((p.0@, p.1)),
        None => None,
    }
}

/// The preview of a conflict: what the user wants and what the server has.
pub open spec fn conflict_preview(
    op_id: int,
    op_type: Seq<char>,
    uid: Seq<char>,
    local_summary: Seq<char>,
    local_completed: bool,
    server: Option<(Seq<char>, bool)>,
) -> Seq<char> {
    "OPID:"@ + signed_decimal(op_id) + "\nConflict on \""@ + (match server {
        Some(p) => p.0,
        None => local_summary,
    }) + "\" (UID "@ + short_uid(uid) + ")\nOp: "@ + op_type + "\nLocal:  \""@ + local_summary
        + "\" ("@ + completion(local_completed) + ")\n"@ + (match server {
        Some(p) => "Server: \""@ + p.0 + "\" ("@ + completion(p.1) + ")"@,
        None => "Server: (deleted server-side)"@,
    }) + "\nTap Keep Mine, Take Theirs, or Cancel."@
}

fn shorten(uid: &str) -> (s: String)
    ensures
        s@ == short_uid(uid@),
{
    let n = char_count(uid);
    if n > 8 {
        let mut s = "…".to_owned();
        s.append(skip_chars(uid, n - 8).as_str());
        s
    } else {
        uid.to_owned()
    }
}

fn completion_word(completed: bool) -> (s: &'static str)
    ensures
        s@ == completion(completed),
{
    if completed {
        "completed"
    } else {
        "not completed"
    }
}

/// Lays out a conflict for the user. The first line names the operation; without
/// a server side, the task was deleted there.
pub fn format_conflict_preview(
    op_id: i64,
    op_type: &str,
    uid: &str,
    local_summary: &str,
    local_completed: bool,
    server: Option<(&str, bool)>,
) -> (s: String)
    ensures
        s@ == conflict_preview(
            op_id as int,
            op_type@,
            uid@,
            local_summary@,
            local_completed,
            server_pair(server),
        ),
{
    let server_line = match server {
        Some((t, c)) => {
            let mut l = "Server: \"".to_owned();
            l.append(t);
            l.append("\" (");
            l.append(completion_word(c));
            l.append(")");
            l
        },
        None => "Server: (deleted server-side)".to_owned(),
    };
    let mut s = "OPID:".to_owned();
    s.append(signed_decimal_of(op_id).as_str());
    s.append("\nConflict on \"");
    s.append(
        match server {
            Some((t, _)) => t,
            None => local_summary,
        },
    );
    s.append("\" (UID ");
    s.append(shorten(uid).as_str());
    s.append(")\nOp: ");
    s.append(op_type);
    s.append("\nLocal:  \"");
    s.append(local_summary);
    s.append("\" (");
    s.append(completion_word(local_completed));
    s.append(")\n");
    s.append(server_line.as_str());
    s.append("\nTap Keep Mine, Take Theirs, or Cancel.");
    s
}

/// What to show where there is no conflict to resolve.
pub fn format_no_conflict_preview() -> (s: String)
    ensures
        s@ == "OPID:0\nNo conflicts to resolve."@,
{
    "OPID:0\nNo conflicts to resolve.".to_owned()
}

/// The exchange behind a preview: the server's side is read, the tables stay.
pub open spec fn text_step(s: Step<Result<String, Failure>>) -> StepV<
    Result<Seq<char>, FailureV>,
> {
    match s {
        Step::Send(r) => StepV::Send(r@),
        Step::Done(Ok(t)) => StepV::Done(Ok(t@)),
        Step::Done(Err(e)) => StepV::Done(Err(e@)),
    }
}

pub open spec fn is_done(status: TaskStatus) -> bool {
    status == TaskStatus::Completed
}

/// The server's side of a conflict.
pub open spec fn server_side(url: Seq<char>, reply: ReplyV) -> Result<
    Option<(Seq<char>, bool)>,
    FailureV,
> {
    match get_meaning(url, reply) {
        Err(e) => Err(e),
        Ok(None) => Ok(None),
        Ok(Some(fresh)) => match first_task_in(fresh.1) {
            Ok(t) => Ok(Some((t.summary, is_done(t.status)))),
            Err(e) => Err(in_context(e, "parsing server iCalendar (fresh state)"@)),
        },
    }
}

/// The preview of the operation `op`, whose cached task is `cached`.
pub open spec fn preview_of(
    op: PendingOpV,
    cached: CachedTaskV,
    calendar_url: Seq<char>,
    replies: Seq<ReplyV>,
) -> StepV<Result<Seq<char>, FailureV>> {
    match first_task_in(cached.ical_text) {
        Err(e) => StepV::Done(
            Err(in_context(e, "parsing cached iCalendar (local intent)"@)),
        ),
        Ok(local) => match task_url(calendar_url, cached.href) {
            Err(e) => StepV::Done(Err(plain(e))),
            Ok(url) => if replies.len() == 0 {
                StepV::Send(get_request_of(url))
            } else {
                match server_side(url, replies[0]) {
                    Err(e) => StepV::Done(Err(e)),
                    Ok(server) => StepV::Done(
                        Ok(
                            conflict_preview(
                                op.id,
                                op.op_type,
                                op.target_uid,
                                local.summary,
                                is_done(local.status),
                                server,
                            ),
                        ),
                    ),
                }
            },
        },
    }
}

/// The preview of the first conflict.
pub open spec fn first_preview(s: StoreV, calendar_url: Seq<char>, replies: Seq<ReplyV>) -> StepV<
    Result<Seq<char>, FailureV>,
> {
    match first(s.ops, resolvable()) {
        None => StepV::Done(Ok("OPID:0\nNo conflicts to resolve."@)),
        Some(op) => match cached_by_uid(s, op.target_calendar_href, op.target_uid) {
            None => StepV::Done(
                Ok(
                    "OPID:0\nConflict op #"@ + signed_decimal(op.id)
                        + " has no matching cache row. Tap Clear Errored."@,
                ),
            ),
            Some(cached) => preview_of(op, cached, calendar_url, replies),
        },
    }
}

fn done_status(status: TaskStatus) -> (b: bool)
    ensures
        b == is_done(status),
{
    crate::display::is_completed(status)
}

pub open spec fn side_result(r: Result<Option<(String, bool)>, Failure>) -> Result<
    Option<(Seq<char>, bool)>,
    FailureV,
> {
    match r {
        Ok(Some((s, b))) => Ok(Some((s@, b))),
        Ok(None) => Ok(None),
        Err(e) => Err(e@),
    }
}

fn read_server_side(url: &str, reply: &Reply) -> (r: Result<Option<(String, bool)>, Failure>)
    ensures
        side_result(r) == server_side(url@, reply@),
{
    match get_task_outcome(url, reply) {
        Err(e) => Err(e),
        Ok(None) => Ok(None),
        Ok(Some((_, ical))) => match parse_vtodos_first(ical.as_str()) {
            Ok(t) => {
                let done = done_status(t.status);
                Ok(Some((t.summary, done)))
            },
            Err(e) => Err(e.context("parsing server iCalendar (fresh state)")),
        },
    }
}

/// Shows the first conflict that can be resolved, given the replies so far.
pub fn resolve_first_conflict_inner(store: &Store, calendar_url: &str, replies: &Vec<Reply>) -> (s: Step<
    Result<String, Failure>,
>)
    ensures
        text_step(s) == first_preview(store@, calendar_url@, reply_views(replies@)),
{
    let op = match first_resolvable_conflict(store) {
        None => {
            return Step::Done(Ok(format_no_conflict_preview()));
        },
        Some(op) => op,
    };
    let cached = match get_cached_task_by_uid(
        store,
        op.target_calendar_href.as_str(),
        op.target_uid.as_str(),
    ) {
        None => {
            let mut m = "OPID:0\nConflict op #".to_owned();
            m.append(signed_decimal_of(op.id).as_str());
            m.append(" has no matching cache row. Tap Clear Errored.");
            return Step::Done(Ok(m));
        },
        Some(c) => c,
    };
    let local = match parse_vtodos_first(cached.ical_text.as_str()) {
        Err(e) => {
            return Step::Done(Err(e.context("parsing cached iCalendar (local intent)")));
        },
        Ok(t) => t,
    };
    let url = match build_task_url(calendar_url, cached.href.as_str()) {
        Err(e) => {
            return Step::Done(Err(e));
        },
        Ok(u) => u,
    };
    if replies.len() == 0 {
        return Step::Send(get_task_request(url.as_str()));
    }
    match read_server_side(url.as_str(), &replies[0]) {
        Err(e) => Step::Done(Err(e)),
        Ok(server) => {
            let pair = match &server {
                Some(p) => Some((p.0.as_str(), p.1)),
                None => None,
            };
            Step::Done(
                Ok(
                    format_conflict_preview(
                        op.id,
                        op.op_type.as_str(),
                        op.target_uid.as_str(),
                        local.summary.as_str(),
                        done_status(local.status),
                        pair,
                    ),
                ),
            )
        },
    }
}

// --- The decision ---

#[derive(Debug, Clone, Copy, PartialEq, Eq, Structural)]
pub enum DecisionKind {
    Keep,
    Take,
}

/// A decision: which side, and the operation it is about.
pub open spec fn decision_in(payload: Seq<char>) -> Result<(DecisionKind, int), FailureV> {
    let k = index_before(payload, ':') as int;
    if k >= payload.len() {
        Err(plain("malformed decision payload: "@ + debug_text(payload)))
    } else {
        let kind = payload.take(k);
        match parsed_i64(payload.skip(k + 1)) {
            None => Err(
                plain("op_id must be a positive integer in "@ + debug_text(payload)),
            ),
            Some(id) => if id <= 0 {
                Err(plain("op_id must be a positive integer, got "@ + signed_decimal(id)))
            } else if kind == "keep"@ {
                Ok((DecisionKind::Keep, id))
            } else if kind == "take"@ {
                Ok((DecisionKind::Take, id))
            } else {
                Err(plain("unknown decision kind: "@ + debug_text(kind)))
            },
        }
    }
}

fn failure2(prefix: &str, detail: &str) -> (f: Failure)
    ensures
        f@ == plain(prefix@ + detail@),
{
    let mut m = prefix.to_owned();
    m.append(detail);
    Failure::from_message(m)
}

/// Reads a decision, `keep:<id>` or `take:<id>`.
pub fn parse_decision_payload(payload: &str) -> (r: Result<(DecisionKind, i64), Failure>)
    ensures
        match decision_in(payload@) {
            Ok(d) => r is Ok && r->Ok_0.0 == d.0 && r->Ok_0.1 == d.1,
            Err(e) => r is Err && r->Err_0@ == e,
        },
{
    let v = chars_of(payload);
    let k = find_char(&v, 0, ':');
    proof {
        assert(v@.skip(0) =~= payload@);
        lemma_index_before(payload@, ':');
    }
    if k >= v.len() {
        return Err(
            failure2("malformed decision payload: ", debug_quoted(payload).as_str()),
        );
    }
    let kind = string_of_range(&v, 0, k);
    let rest = string_of_range(&v, k + 1, v.len());
    assert(kind@ =~= payload@.take(k as int));
    assert(rest@ =~= payload@.skip(k + 1));
    let id = match parse_i64(rest.as_str()) {
        None => {
            return Err(
                failure2(
                    "op_id must be a positive integer in ",
                    debug_quoted(payload).as_str(),
                ),
            );
        },
        Some(id) => id,
    };
    if id <= 0 {
        return Err(
            failure2(
                "op_id must be a positive integer, got ",
                signed_decimal_of(id).as_str(),
            ),
        );
    }
    if str_eq(kind.as_str(), "keep") {
        Ok((DecisionKind::Keep, id))
    } else if str_eq(kind.as_str(), "take") {
        Ok((DecisionKind::Take, id))
    } else {
        Err(failure2("unknown decision kind: ", debug_quoted(kind.as_str()).as_str()))
    }
}

/// Can the operation still be resolved?
pub open spec fn still_resolvable(o: PendingOpV) -> bool {
    o.errored == 1 && (o.op_type == "toggle"@ || o.op_type == "edit"@) && match o.last_error {
        Some(m) => has_sub(m, "double-412"@),
        None => has_sub(""@, "double-412"@),
    }
}

/// The operation to resolve, or what to tell the user instead.
pub open spec fn resolvable_op(s: StoreV, id: int) -> Result<PendingOpV, Seq<char>> {
    match first(s.ops, op_with_id(id)) {
        None => Err("Conflict #"@ + signed_decimal(id) + " already resolved or cleared."@),
        Some(op) => if still_resolvable(op) {
            Ok(op)
        } else {
            Err("Op #"@ + signed_decimal(id) + " is no longer in a resolvable state."@)
        },
    }
}

/// Finds the operation that a decision is about.
pub fn load_resolvable_op(store: &Store, op_id: i64) -> (r: Result<PendingOp, String>)
    ensures
        match resolvable_op(store@, op_id as int) {
            Ok(op) => r is Ok && r->Ok_0@ == op,
            Err(m) => r is Err && r->Err_0@ == m,
        },
{
    let op = match get_pending_op_by_id(store, op_id) {
        None => {
            let mut m = "Conflict #".to_owned();
            m.append(signed_decimal_of(op_id).as_str());
            m.append(" already resolved or cleared.");
            return Err(m);
        },
        Some(op) => op,
    };
    let last = match &op.last_error {
        Some(m) => m.as_str(),
        None => "",
    };
    let ok = op.errored == 1 && (str_eq(op.op_type.as_str(), "toggle") || str_eq(
        op.op_type.as_str(),
        "edit",
    )) && contains(last, "double-412");
    if !ok {
        let mut m = "Op #".to_owned();
        m.append(signed_decimal_of(op_id).as_str());
        m.append(" is no longer in a resolvable state.");
        return Err(m);
    }
    Ok(op)
}

pub open spec fn no_cache_row(id: int) -> Seq<char> {
    "Conflict #"@ + signed_decimal(id) + " has no matching cache row. Tap Clear Errored."@
}

fn say_no_cache_row(id: i64) -> (s: String)
    ensures
        s@ == no_cache_row(id as int),
{
    let mut m = "Conflict #".to_owned();
    m.append(signed_decimal_of(id).as_str());
    m.append(" has no matching cache row. Tap Clear Errored.");
    m
}

/// What the user is told of the operations that are gone.
pub open spec fn resolved_line(id: int, dropped: nat) -> Seq<char> {
    if dropped <= 1 {
        "#"@ + signed_decimal(id) + " resolved."@
    } else {
        "#"@ + signed_decimal(id) + " resolved ("@ + decimal((dropped - 1) as nat)
            + " cascaded op(s) cleared)."@
    }
}

fn say_resolved(id: i64, dropped: usize) -> (s: String)
    ensures
        s@ == resolved_line(id as int, dropped as nat),
{
    let mut m = "#".to_owned();
    m.append(signed_decimal_of(id).as_str());
    if dropped <= 1 {
        m.append(" resolved.");
    } else {
        m.append(" resolved (");
        m.append(decimal_of((dropped - 1) as u64).as_str());
        m.append(" cascaded op(s) cleared).");
    }
    m
}

/// The rows of `cal` for `uid` with a new version.
pub open spec fn rows_versioned(
    tasks: Seq<TaskRowV>,
    cal: Seq<char>,
    uid: Seq<char>,
    etag: Seq<char>,
) -> Seq<TaskRowV> {
    tasks.map_values(
        |r: TaskRowV|
            if of_uid(cal, uid)(r) {
                TaskRowV { etag, ..r }
            } else {
                r
            },
    )
}

/// The tables once the user's version stands: its new version is known, and the
/// operation and its cascade are gone.
pub open spec fn mine_kept(s: StoreV, op: PendingOpV, etag: Seq<char>) -> StoreV {
    StoreV {
        tasks: rows_versioned(s.tasks, op.target_calendar_href, op.target_uid, etag),
        ops: s.ops.filter(not_errored_on(op.target_uid)),
        ..s
    }
}

/// What the user is told once that version stands.
pub open spec fn kept_message(s: StoreV, op: PendingOpV, id: int, ical: Seq<char>) -> Result<
    Seq<char>,
    FailureV,
> {
    match first_task_in(ical) {
        Err(e) => Err(in_context(e, "parsing cached ical for response"@)),
        Ok(local) => Ok(
            "Kept your version: \""@ + local.summary + "\" ("@ + completion(
                is_done(local.status),
            ) + ").\n"@ + resolved_line(id, count(s.ops, errored_on(op.target_uid))),
        ),
    }
}

/// The write of the user's version over the server's, once.
pub open spec fn keep_put(
    s: StoreV,
    op: PendingOpV,
    id: int,
    cached: CachedTaskV,
    url: Seq<char>,
    etag: Seq<char>,
    replies: Seq<ReplyV>,
) -> (StoreV, StepV<Result<Seq<char>, FailureV>>) {
    if replies.len() <= 1 {
        (s, StepV::Send(put_request_of(url, cached.ical_text, etag)))
    } else {
        match put_meaning(url, replies[1]) {
            Err(e) => (s, StepV::Done(Err(in_context(e, "Keep Mine PUT"@)))),
            Ok(WriteOutcomeV::PreconditionFailed) => (
                s,
                StepV::Done(
                    Ok(
                        "Conflict reopened -- server changed again between Resolve and Keep. Tap Resolve First Conflict, then Keep Mine to try once more."@,
                    ),
                ),
            ),
            Ok(WriteOutcomeV::Updated(e)) => (
                mine_kept(s, op, e),
                StepV::Done(kept_message(s, op, id, cached.ical_text)),
            ),
        }
    }
}

/// Keeping the user's version: the server's current version is looked up, and the
/// cached text is written over it.
pub open spec fn keep_mine(s: StoreV, calendar_url: Seq<char>, id: int, replies: Seq<ReplyV>) -> (
    StoreV,
    StepV<Result<Seq<char>, FailureV>>,
) {
    match resolvable_op(s, id) {
        Err(m) => (s, StepV::Done(Ok(m))),
        Ok(op) => match cached_by_uid(s, op.target_calendar_href, op.target_uid) {
            None => (s, StepV::Done(Ok(no_cache_row(id)))),
            Some(cached) => match task_url(calendar_url, cached.href) {
                Err(e) => (s, StepV::Done(Err(plain(e)))),
                Ok(url) => if replies.len() == 0 {
                    (s, StepV::Send(get_request_of(url)))
                } else {
                    match get_meaning(url, replies[0]) {
                        Err(e) => (s, StepV::Done(Err(e))),
                        Ok(None) => (
                            s,
                            StepV::Done(
                                Ok(
                                    "Task was deleted server-side after the conflict. Tap Resolve First Conflict, then Take Theirs to drop op #"@
                                        + signed_decimal(id) + "."@,
                                ),
                            ),
                        ),
                        Ok(Some(fresh)) => keep_put(s, op, id, cached, url, fresh.0, replies),
                    }
                },
            },
        },
    }
}

/// Writes a new version into the rows of a task.
fn version_rows(store: &mut Store, cal: &str, uid: &str, etag: &str)
    requires
        old(store)@.wf(),
    ensures
        final(store)@.wf(),
        final(store)@ == (StoreV {
            tasks: rows_versioned(old(store)@.tasks, cal@, uid@, etag@),
            ..old(store)@
        }),
{
    let ghost want = rows_versioned(store@.tasks, cal@, uid@, etag@);
    let mut i: usize = 0;
    while i < store.tasks.len()
        invariant
            i <= store.tasks@.len(),
            store.tasks@.len() == old(store).tasks@.len(),
            store.ops == old(store).ops,
            store.calendars == old(store).calendars,
            store.last_op_id == old(store).last_op_id,
            want == rows_versioned(old(store)@.tasks, cal@, uid@, etag@),
            forall|j: int| 0 <= j < i ==> (#[trigger] store.tasks@[j])@ == want[j],
            forall|j: int| i <= j < store.tasks@.len() ==> store.tasks@[j] == old(store).tasks@[j],
        decreases store.tasks@.len() - i,
    {
        assert(old(store)@.tasks[i as int] == store.tasks@[i as int]@);
        if store.tasks[i].is_uid(cal, uid) {
            store.tasks[i].etag = etag.to_owned();
        }
        i += 1;
    }
    assert(store@.tasks =~= want);
    proof {
        assert forall|a: int, b: int| 0 <= a < b < want.len() implies !((
        #[trigger] want[a]).calendar_href == (#[trigger] want[b]).calendar_href && want[a].href
            == want[b].href) by {
            let x = old(store)@.tasks[a];
            let y = old(store)@.tasks[b];
            assert(want[a].href == x.href && want[b].href == y.href);
        }
    }
}

/// Pushes the user's version over the server's, given the replies so far. One
/// attempt: a server that changed again is reported, not overwritten.
pub fn apply_keep_mine_inner(
    store: &mut Store,
    calendar_url: &str,
    op_id: i64,
    replies: &Vec<Reply>,
) -> (s: Step<Result<String, Failure>>)
    requires
        old(store)@.wf(),
    ensures
        final(store)@.wf(),
        (final(store)@, text_step(s)) == keep_mine(
            old(store)@,
            calendar_url@,
            op_id as int,
            reply_views(replies@),
        ),
{
    let op = match load_resolvable_op(store, op_id) {
        Ok(op) => op,
        Err(m) => {
            return Step::Done(Ok(m));
        },
    };
    let cached = match get_cached_task_by_uid(
        store,
        op.target_calendar_href.as_str(),
        op.target_uid.as_str(),
    ) {
        None => {
            return Step::Done(Ok(say_no_cache_row(op_id)));
        },
        Some(c) => c,
    };
    let url = match build_task_url(calendar_url, cached.href.as_str()) {
        Err(e) => {
            return Step::Done(Err(e));
        },
        Ok(u) => u,
    };
    if replies.len() == 0 {
        return Step::Send(get_task_request(url.as_str()));
    }
    let fresh_etag = match get_task_outcome(url.as_str(), &replies[0]) {
        Err(e) => {
            return Step::Done(Err(e));
        },
        Ok(None) => {
            let mut m =
                "Task was deleted server-side after the conflict. Tap Resolve First Conflict, then Take Theirs to drop op #".to_owned();
            m.append(signed_decimal_of(op_id).as_str());
            m.append(".");
            return Step::Done(Ok(m));
        },
        Ok(Some((e, _))) => e,
    };
    if replies.len() == 1 {
        return Step::Send(
            put_task_request(url.as_str(), cached.ical_text.as_str(), fresh_etag.as_str()),
        );
    }
    match put_task_outcome(url.as_str(), &replies[1]) {
        Err(e) => Step::Done(Err(e.context("Keep Mine PUT"))),
        Ok(WriteOutcome::PreconditionFailed) => Step::Done(
            Ok(
                "Conflict reopened -- server changed again between Resolve and Keep. Tap Resolve First Conflict, then Keep Mine to try once more.".to_owned(),
            ),
        ),
        Ok(WriteOutcome::Updated(new_etag)) => {
            version_rows(
                store,
                op.target_calendar_href.as_str(),
                op.target_uid.as_str(),
                new_etag.as_str(),
            );
            let dropped = drop_errored_on(store, op.target_uid.as_str());
            match parse_vtodos_first(cached.ical_text.as_str()) {
                Err(e) => Step::Done(Err(e.context("parsing cached ical for response"))),
                Ok(local) => {
                    let mut m = "Kept your version: \"".to_owned();
                    m.append(local.summary.as_str());
                    m.append("\" (");
                    m.append(completion_word(done_status(local.status)));
                    m.append(").\n");
                    m.append(say_resolved(op_id, dropped).as_str());
                    Step::Done(Ok(m))
                },
            }
        },
    }
}

/// The name of a status in a row taken from the server.
pub open spec fn taken_status(s: TaskStatus) -> Seq<char> {
    match s {
        TaskStatus::Completed => "completed"@,
        TaskStatus::NeedsAction => "needs-action"@,
        TaskStatus::InProcess => "in-process"@,
        TaskStatus::Cancelled => "cancelled"@,
        TaskStatus::Unknown => ""@,
    }
}

/// The rows of `cal` for `uid` as the server has the task.
pub open spec fn rows_taken(
    tasks: Seq<TaskRowV>,
    cal: Seq<char>,
    uid: Seq<char>,
    etag: Seq<char>,
    ical: Seq<char>,
    t: TaskV,
) -> Seq<TaskRowV> {
    tasks.map_values(
        |r: TaskRowV|
            if of_uid(cal, uid)(r) {
                TaskRowV {
                    etag,
                    ical_text: ical,
                    summary: t.summary,
                    status: Some(taken_status(t.status)),
                    due: t.due,
                    ..r
                }
            } else {
                r
            },
    )
}

/// The tables without the operation and its cascade, and what the user is told.
pub open spec fn taken(
    s: StoreV,
    op: PendingOpV,
    id: int,
    tasks: Seq<TaskRowV>,
    response: Seq<char>,
) -> (StoreV, StepV<Result<Seq<char>, FailureV>>) {
    (
        StoreV { tasks, ops: s.ops.filter(not_errored_on(op.target_uid)), ..s },
        StepV::Done(
            Ok(
                response + "\n"@ + resolved_line(
                    id,
                    count(s.ops, errored_on(op.target_uid)),
                ),
            ),
        ),
    )
}

/// Taking the server's version: the cache gets it, or loses the task where the
/// server has none.
pub open spec fn take_theirs(s: StoreV, calendar_url: Seq<char>, id: int, replies: Seq<ReplyV>) -> (
    StoreV,
    StepV<Result<Seq<char>, FailureV>>,
) {
    match resolvable_op(s, id) {
        Err(m) => (s, StepV::Done(Ok(m))),
        Ok(op) => match cached_by_uid(s, op.target_calendar_href, op.target_uid) {
            None => (s, StepV::Done(Ok(no_cache_row(id)))),
            Some(cached) => match task_url(calendar_url, cached.href) {
                Err(e) => (s, StepV::Done(Err(plain(e)))),
                Ok(url) => if replies.len() == 0 {
                    (s, StepV::Send(get_request_of(url)))
                } else {
                    match get_meaning(url, replies[0]) {
                        Err(e) => (s, StepV::Done(Err(e))),
                        Ok(None) => taken(
                            s,
                            op,
                            id,
                            s.tasks.filter(not_of_uid(op.target_calendar_href, op.target_uid)),
                            "Took server version: task is deleted server-side. Local row removed."@,
                        ),
                        Ok(Some(fresh)) => match first_task_in(fresh.1) {
                            Err(e) => (
                                s,
                                StepV::Done(
                                    Err(
                                        in_context(
                                            e,
                                            "parsing server iCalendar for Take Theirs"@,
                                        ),
                                    ),
                                ),
                            ),
                            Ok(t) => taken(
                                s,
                                op,
                                id,
                                rows_taken(
                                    s.tasks,
                                    op.target_calendar_href,
                                    op.target_uid,
                                    fresh.0,
                                    fresh.1,
                                    t,
                                ),
                                "Took server version: \""@ + t.summary + "\" ("@ + completion(
                                    is_done(t.status),
                                ) + ")."@,
                            ),
                        },
                    }
                },
            },
        },
    }
}

fn taken_status_str(s: TaskStatus) -> (r: &'static str)
    ensures
        r@ == taken_status(s),
{
    match s {
        TaskStatus::Completed => "completed",
        TaskStatus::NeedsAction => "needs-action",
        TaskStatus::InProcess => "in-process",
        TaskStatus::Cancelled => "cancelled",
        TaskStatus::Unknown => "",
    }
}

/// Writes the server's version into the rows of a task.
fn take_rows(store: &mut Store, cal: &str, uid: &str, etag: &str, ical: &str, t: &Task)
    requires
        old(store)@.wf(),
    ensures
        final(store)@.wf(),
        final(store)@ == (StoreV {
            tasks: rows_taken(old(store)@.tasks, cal@, uid@, etag@, ical@, t@),
            ..old(store)@
        }),
{
    let ghost want = rows_taken(store@.tasks, cal@, uid@, etag@, ical@, t@);
    let mut i: usize = 0;
    while i < store.tasks.len()
        invariant
            i <= store.tasks@.len(),
            store.tasks@.len() == old(store).tasks@.len(),
            store.ops == old(store).ops,
            store.calendars == old(store).calendars,
            store.last_op_id == old(store).last_op_id,
            want == rows_taken(old(store)@.tasks, cal@, uid@, etag@, ical@, t@),
            forall|j: int| 0 <= j < i ==> (#[trigger] store.tasks@[j])@ == want[j],
            forall|j: int| i <= j < store.tasks@.len() ==> store.tasks@[j] == old(store).tasks@[j],
        decreases store.tasks@.len() - i,
    {
        assert(old(store)@.tasks[i as int] == store.tasks@[i as int]@);
        if store.tasks[i].is_uid(cal, uid) {
            store.tasks[i].etag = etag.to_owned();
            store.tasks[i].ical_text = ical.to_owned();
            store.tasks[i].summary = t.summary.clone();
            store.tasks[i].status = Some(taken_status_str(t.status).to_owned());
            store.tasks[i].due = crate::store::copy_opt(&t.due);
        }
        i += 1;
    }
    assert(store@.tasks =~= want);
    proof {
        assert forall|a: int, b: int| 0 <= a < b < want.len() implies !((
        #[trigger] want[a]).calendar_href == (#[trigger] want[b]).calendar_href && want[a].href
            == want[b].href) by {
            let x = old(store)@.tasks[a];
            let y = old(store)@.tasks[b];
            assert(want[a].href == x.href && want[b].href == y.href);
        }
    }
}

/// Accepts the server's version, given the replies so far.
pub fn apply_take_theirs_inner(
    store: &mut Store,
    calendar_url: &str,
    op_id: i64,
    replies: &Vec<Reply>,
) -> (s: Step<Result<String, Failure>>)
    requires
        old(store)@.wf(),
    ensures
        final(store)@.wf(),
        (final(store)@, text_step(s)) == take_theirs(
            old(store)@,
            calendar_url@,
            op_id as int,
            reply_views(replies@),
        ),
{
    let op = match load_resolvable_op(store, op_id) {
        Ok(op) => op,
        Err(m) => {
            return Step::Done(Ok(m));
        },
    };
    let cal = op.target_calendar_href.as_str();
    let uid = op.target_uid.as_str();
    let cached = match get_cached_task_by_uid(store, cal, uid) {
        None => {
            return Step::Done(Ok(say_no_cache_row(op_id)));
        },
        Some(c) => c,
    };
    let url = match build_task_url(calendar_url, cached.href.as_str()) {
        Err(e) => {
            return Step::Done(Err(e));
        },
        Ok(u) => u,
    };
    if replies.len() == 0 {
        return Step::Send(get_task_request(url.as_str()));
    }
    let mut response: String;
    match get_task_outcome(url.as_str(), &replies[0]) {
        Err(e) => {
            return Step::Done(Err(e));
        },
        Ok(None) => {
            let _ = delete_by_uid(store, cal, uid);
            response =
                "Took server version: task is deleted server-side. Local row removed.".to_owned();
        },
        Ok(Some((etag, ical))) => {
            let t = match parse_vtodos_first(ical.as_str()) {
                Err(e) => {
                    return Step::Done(
                        Err(e.context("parsing server iCalendar for Take Theirs")),
                    );
                },
                Ok(t) => t,
            };
            take_rows(store, cal, uid, etag.as_str(), ical.as_str(), &t);
            response = "Took server version: \"".to_owned();
            response.append(t.summary.as_str());
            response.append("\" (");
            response.append(completion_word(done_status(t.status)));
            response.append(").");
        },
    }
    let dropped = drop_errored_on(store, uid);
    response.append("\n");
    response.append(say_resolved(op_id, dropped).as_str());
    Step::Done(Ok(response))
}

/// Carrying out the decision in a message.
pub open spec fn decided(
    s: StoreV,
    calendar_url: Seq<char>,
    payload: Seq<char>,
    replies: Seq<ReplyV>,
) -> (StoreV, StepV<Result<Seq<char>, FailureV>>) {
    match decision_in(payload) {
        Err(e) => (s, StepV::Done(Err(e))),
        Ok(d) => if d.0 == DecisionKind::Keep {
            keep_mine(s, calendar_url, d.1, replies)
        } else {
            take_theirs(s, calendar_url, d.1, replies)
        },
    }
}

/// Carries out the decision in a message, given the replies so far.
pub fn apply_decision_inner(
    store: &mut Store,
    calendar_url: &str,
    payload: &str,
    replies: &Vec<Reply>,
) -> (s: Step<Result<String, Failure>>)
    requires
        old(store)@.wf(),
    ensures
        final(store)@.wf(),
        (final(store)@, text_step(s)) == decided(
            old(store)@,
            calendar_url@,
            payload@,
            reply_views(replies@),
        ),
{
    match parse_decision_payload(payload) {
        Err(e) => Step::Done(Err(e)),
        Ok((DecisionKind::Keep, id)) => apply_keep_mine_inner(store, calendar_url, id, replies),
        Ok((DecisionKind::Take, id)) => apply_take_theirs_inner(store, calendar_url, id, replies),
    }
}

} // verus!
