//! Operations on the tables: the task cache, the calendars, and the queue of
//! writes that wait for the server.
use vstd::prelude::*;
use crate::cache::{delete_by_uid, not_of_uid};
use crate::clock::{stamp_like, unix_now, utc_stamp};
use crate::config::LOCAL_LIST_ID;
use crate::failure::{plain, Failure, FailureV};
use crate::json::{json_object, text_members, write_json_object};
use crate::queue::{payload_due, payload_summary};
use crate::seqs::{count, find, lemma_filter_empty, lemma_filter_step, lemma_find};
use crate::store::{
    keyed, live_of_uid, of_uid, own_opt, Anchor, PendingOp, PendingOpV, Store, StoreV, TaskRow,
    TaskRowV,
};
use crate::task::{
    edit_text_at, edited, new_todo, new_todo_body, toggle_completion_at, toggled,
    TaskStatus,
};
use crate::text::{opt_str, opt_text, str_eq};

verus! {

/// The name of a status in the tables.
pub open spec fn status_name(s: TaskStatus) -> Seq<char> {
    match s {
        TaskStatus::NeedsAction => "needs-action"@,
        TaskStatus::InProcess => "in-process"@,
        TaskStatus::Completed => "completed"@,
        TaskStatus::Cancelled => "cancelled"@,
        TaskStatus::Unknown => "unknown"@,
    }
}

/// The status that a name in the tables stands for.
pub open spec fn status_named(s: Option<Seq<char>>) -> TaskStatus {
    match s {
        None => TaskStatus::Unknown,
        Some(n) => if n == "needs-action"@ {
            TaskStatus::NeedsAction
        } else if n == "in-process"@ {
            TaskStatus::InProcess
        } else if n == "completed"@ {
            TaskStatus::Completed
        } else if n == "cancelled"@ {
            TaskStatus::Cancelled
        } else {
            TaskStatus::Unknown
        },
    }
}

pub fn status_to_str(s: TaskStatus) -> (r: &'static str)
    ensures
        r@ == status_name(s),
{
    match s {
        TaskStatus::NeedsAction => "needs-action",
        TaskStatus::InProcess => "in-process",
        TaskStatus::Completed => "completed",
        TaskStatus::Cancelled => "cancelled",
        TaskStatus::Unknown => "unknown",
    }
}

pub fn status_from_str(s: Option<&str>) -> (r: TaskStatus)
    ensures
        r == status_named(opt_str(s)),
{
    match s {
        None => TaskStatus::Unknown,
        Some(n) => if str_eq(n, "needs-action") {
            TaskStatus::NeedsAction
        } else if str_eq(n, "in-process") {
            TaskStatus::InProcess
        } else if str_eq(n, "completed") {
            TaskStatus::Completed
        } else if str_eq(n, "cancelled") {
            TaskStatus::Cancelled
        } else {
            TaskStatus::Unknown
        },
    }
}

// --- Enqueueing: one optimistic change of the cache and one queued operation ---

/// What an operation that may fail does to the tables: the new tables and the id
/// it returns, or the failure with the tables as they were.
pub open spec fn committed(
    r: Result<i64, Failure>,
    before: StoreV,
    after: StoreV,
    outcome: Result<(StoreV, int), FailureV>,
) -> bool {
    match outcome {
        Ok(done) => r is Ok && r->Ok_0 == done.1 && after == done.0,
        Err(e) => r is Err && r->Err_0@ == e && after == before,
    }
}

/// The same for an operation that returns nothing.
pub open spec fn changed(
    r: Result<(), Failure>,
    before: StoreV,
    after: StoreV,
    outcome: Result<StoreV, FailureV>,
) -> bool {
    match outcome {
        Ok(s) => r is Ok && after == s,
        Err(e) => r is Err && r->Err_0@ == e && after == before,
    }
}

/// The tables with one more queued operation, under the next free id.
pub open spec fn queued(
    s: StoreV,
    op_type: Seq<char>,
    uid: Seq<char>,
    cal: Seq<char>,
    payload: Option<Seq<char>>,
    at: int,
) -> Result<(StoreV, int), FailureV> {
    if s.last_op_id >= i64::MAX {
        Err(plain("database or disk is full"@))
    } else {
        let op = PendingOpV {
            id: s.last_op_id + 1,
            op_type,
            target_uid: uid,
            target_calendar_href: cal,
            payload,
            enqueued_at: at,
            error_count: 0,
            last_error: None,
            errored: 0,
        };
        Ok(
            (
                StoreV { ops: s.ops.push(op), last_op_id: s.last_op_id + 1, ..s },
                s.last_op_id + 1,
            ),
        )
    }
}

/// The placeholder href of a task that the server does not have yet.
pub open spec fn pending_href(uid: Seq<char>) -> Seq<char> {
    "pending:"@ + uid
}

/// The cache with a new task.
pub open spec fn row_created(
    s: StoreV,
    cal: Seq<char>,
    uid: Seq<char>,
    summary: Seq<char>,
    due: Option<Seq<char>>,
    anchor: Option<crate::store::AnchorV>,
    now: Seq<char>,
) -> Result<StoreV, FailureV> {
    if find(s.tasks, keyed(cal, pending_href(uid)), 0) < s.tasks.len() {
        Err(plain("UNIQUE constraint failed: task.calendar_href, task.href"@))
    } else {
        let row = TaskRowV {
            calendar_href: cal,
            href: pending_href(uid),
            etag: ""@,
            ical_text: new_todo(uid, summary, due, now),
            summary,
            status: Some("needs-action"@),
            due,
            uid,
            pending_delete: false,
            anchor,
        };
        Ok(StoreV { tasks: s.tasks.push(row), ..s })
    }
}

/// The cache with a visible task toggled.
pub open spec fn row_toggled(s: StoreV, cal: Seq<char>, uid: Seq<char>, now: Seq<char>) -> Result<
    StoreV,
    FailureV,
> {
    let k = find(s.tasks, live_of_uid(cal, uid), 0) as int;
    if k >= s.tasks.len() {
        Err(plain("no live task with uid "@ + uid))
    } else {
        match toggled(s.tasks[k].ical_text, now) {
            Ok(t) => Ok(
                StoreV {
                    tasks: s.tasks.update(
                        k,
                        TaskRowV {
                            ical_text: t.0,
                            status: Some(status_name(t.2)),
                            ..s.tasks[k]
                        },
                    ),
                    ..s
                },
            ),
            Err(e) => Err(e),
        }
    }
}

/// The due date after an edit: unchanged where none is given, cleared by an empty
/// one.
pub open spec fn due_after(old: Option<Seq<char>>, due: Option<Seq<char>>) -> Option<Seq<char>> {
    match due {
        None => old,
        Some(d) => if d.len() == 0 {
            None
        } else {
            Some(d)
        },
    }
}

/// The cache with a visible task edited.
pub open spec fn row_edited(
    s: StoreV,
    cal: Seq<char>,
    uid: Seq<char>,
    summary: Seq<char>,
    due: Option<Seq<char>>,
    now: Seq<char>,
) -> Result<StoreV, FailureV> {
    let k = find(s.tasks, live_of_uid(cal, uid), 0) as int;
    if k >= s.tasks.len() {
        Err(plain("no live task with uid "@ + uid))
    } else {
        Ok(
            StoreV {
                tasks: s.tasks.update(
                    k,
                    TaskRowV {
                        ical_text: edited(s.tasks[k].ical_text, summary, due, now),
                        summary,
                        due: due_after(s.tasks[k].due, due),
                        ..s.tasks[k]
                    },
                ),
                ..s
            },
        )
    }
}

/// The cache with a visible task hidden until the server has deleted it.
pub open spec fn row_tombstoned(s: StoreV, cal: Seq<char>, uid: Seq<char>) -> Result<
    StoreV,
    FailureV,
> {
    let k = find(s.tasks, live_of_uid(cal, uid), 0) as int;
    if count(s.tasks, live_of_uid(cal, uid)) != 1 {
        Err(plain("no live task with uid "@ + uid + " (already deleted or missing)"@))
    } else {
        Ok(
            StoreV {
                tasks: s.tasks.update(k, TaskRowV { pending_delete: true, ..s.tasks[k] }),
                ..s
            },
        )
    }
}

/// The members of the payload of a create or an edit.
pub open spec fn payload_members(summary: Seq<char>, due: Option<Seq<char>>) -> Seq<
    (Seq<char>, Seq<char>),
> {
    match due {
        Some(d) => seq![("summary"@, summary), ("due"@, d)],
        None => seq![("summary"@, summary)],
    }
}

/// The payload of a create or an edit: the summary, and the due date where one is
/// given.
pub open spec fn payload_of(summary: Seq<char>, due: Option<Seq<char>>) -> Seq<char> {
    json_object(payload_members(summary, due))
}

/// A payload that reads back as this summary and this due date.
pub open spec fn payload_reads(
    payload: Option<Seq<char>>,
    summary: Seq<char>,
    due: Option<Seq<char>>,
) -> bool {
    payload_summary(payload) == Some(summary) && payload_due(payload) == due
}

/// Writes the payload of a create or an edit.
fn write_payload(summary: &str, due: Option<&str>) -> (r: String)
    ensures
        r@ == payload_of(summary@, opt_str(due)),
        payload_reads(Some(r@), summary@, opt_str(due)),
{
    let mut members: Vec<(String, String)> = Vec::new();
    members.push(("summary".to_owned(), summary.to_owned()));
    match due {
        Some(d) => {
            members.push(("due".to_owned(), d.to_owned()));
        },
        None => {},
    }
    let ghost views = text_members(members@);
    proof {
        reveal_strlit("summary");
        reveal_strlit("due");
        assert("summary"@.len() != "due"@.len());
        assert(views =~= payload_members(summary@, opt_str(due)));
        assert(views[0] == ("summary"@, summary@));
    }
    let r = write_json_object(members);
    proof {
        let top = crate::json::json_top(r@)->Ok_0;
        assert(top.member(views[0].0) == Some(Some(views[0].1)));
        match due {
            Some(d) => {
                assert(views[1] == ("due"@, d@));
                assert(top.member(views[1].0) == Some(Some(views[1].1)));
            },
            None => {
                assert(top.member("due"@) is None);
            },
        }
    }
    r
}

/// The tables after a queued create.
pub open spec fn create_queued(
    s: StoreV,
    cal: Seq<char>,
    uid: Seq<char>,
    summary: Seq<char>,
    due: Option<Seq<char>>,
    anchor: Option<crate::store::AnchorV>,
    now: Seq<char>,
    at: int,
) -> Result<(StoreV, int), FailureV> {
    match row_created(s, cal, uid, summary, due, anchor, now) {
        Ok(t) => queued(t, "create"@, uid, cal, Some(payload_of(summary, due)), at),
        Err(e) => Err(e),
    }
}

/// The tables after a queued toggle.
pub open spec fn toggle_queued(
    s: StoreV,
    cal: Seq<char>,
    uid: Seq<char>,
    now: Seq<char>,
    at: int,
) -> Result<(StoreV, int), FailureV> {
    match row_toggled(s, cal, uid, now) {
        Ok(t) => queued(t, "toggle"@, uid, cal, None, at),
        Err(e) => Err(e),
    }
}

/// The tables after a queued edit.
pub open spec fn edit_queued(
    s: StoreV,
    cal: Seq<char>,
    uid: Seq<char>,
    summary: Seq<char>,
    due: Option<Seq<char>>,
    now: Seq<char>,
    at: int,
) -> Result<(StoreV, int), FailureV> {
    match row_edited(s, cal, uid, summary, due, now) {
        Ok(t) => queued(t, "edit"@, uid, cal, Some(payload_of(summary, due)), at),
        Err(e) => Err(e),
    }
}

/// The tables after a queued delete.
pub open spec fn delete_queued(s: StoreV, cal: Seq<char>, uid: Seq<char>, at: int) -> Result<
    (StoreV, int),
    FailureV,
> {
    match row_tombstoned(s, cal, uid) {
        Ok(t) => queued(t, "delete"@, uid, cal, None, at),
        Err(e) => Err(e),
    }
}

/// Appends a queued operation.
fn push_op(
    store: &mut Store,
    op_type: &str,
    uid: &str,
    cal: &str,
    payload: Option<String>,
    at: i64,
) -> (id: i64)
    requires
        old(store)@.wf(),
        old(store)@.last_op_id < i64::MAX,
    ensures
        final(store)@.wf(),
        queued(old(store)@, op_type@, uid@, cal@, opt_text(payload), at as int) == Ok::<
            (StoreV, int),
            FailureV,
        >((final(store)@, id as int)),
{
    let id: i64 = store.last_op_id + 1;
    let op = PendingOp {
        id,
        op_type: op_type.to_owned(),
        target_uid: uid.to_owned(),
        target_calendar_href: cal.to_owned(),
        payload,
        enqueued_at: at,
        error_count: 0,
        last_error: None,
        errored: 0,
    };
    store.ops.push(op);
    store.last_op_id = id;
    assert(store@.ops =~= old(store)@.ops.push(op@));
    assert(store@.tasks =~= old(store)@.tasks);
    assert(store@.calendars =~= old(store)@.calendars);
    id
}

/// The view of an optional reference to an anchor.
pub open spec fn opt_anchor_ref(a: Option<&Anchor>) -> Option<crate::store::AnchorV> {
    match a {
        Some(x) => Some(x@),
        None => None,
    }
}

/// A planned change of one row agrees with what a change of the cache should do.
pub open spec fn plans(
    s: StoreV,
    r: Result<(usize, TaskRow), Failure>,
    outcome: Result<StoreV, FailureV>,
) -> bool {
    match outcome {
        Ok(t) => {
            &&& r is Ok
            &&& r->Ok_0.0 < s.tasks.len()
            &&& r->Ok_0.1@.calendar_href == s.tasks[r->Ok_0.0 as int].calendar_href
            &&& r->Ok_0.1@.href == s.tasks[r->Ok_0.0 as int].href
            &&& t == StoreV { tasks: s.tasks.update(r->Ok_0.0 as int, r->Ok_0.1@), ..s }
        },
        Err(e) => r is Err && r->Err_0@ == e,
    }
}

/// Puts a row in the place of one with the same key.
fn set_row(store: &mut Store, k: usize, row: TaskRow)
    requires
        old(store)@.wf(),
        k < old(store)@.tasks.len(),
        row@.calendar_href == old(store)@.tasks[k as int].calendar_href,
        row@.href == old(store)@.tasks[k as int].href,
    ensures
        final(store)@.wf(),
        final(store)@ == (StoreV {
            tasks: old(store)@.tasks.update(k as int, row@),
            ..old(store)@
        }),
{
    store.tasks.set(k, row);
    assert(store@.tasks =~= old(store)@.tasks.update(k as int, row@));
    assert(store@.ops =~= old(store)@.ops);
    assert(store@.calendars =~= old(store)@.calendars);
}

/// The row of a new task, where its key is free.
fn plan_create(
    store: &Store,
    cal: &str,
    uid: &str,
    summary: &str,
    due: Option<&str>,
    anchor: Option<&Anchor>,
    now: &str,
) -> (r: Result<TaskRow, Failure>)
    requires
        store@.wf(),
    ensures
        match row_created(
            store@,
            cal@,
            uid@,
            summary@,
            opt_str(due),
            opt_anchor_ref(anchor),
            now@,
        ) {
            Ok(t) => r is Ok && t == (StoreV { tasks: store@.tasks.push(r->Ok_0@), ..store@ })
                && t.wf(),
            Err(e) => r is Err && r->Err_0@ == e,
        },
{
    let mut href = "pending:".to_owned();
    href.append(uid);
    let k = store.find_keyed(cal, href.as_str());
    if k < store.tasks.len() {
        return Err(Failure::new("UNIQUE constraint failed: task.calendar_href, task.href"));
    }
    proof {
        lemma_find(store@.tasks, keyed(cal@, href@), 0);
    }
    let row = TaskRow {
        calendar_href: cal.to_owned(),
        href,
        etag: "".to_owned(),
        ical_text: new_todo_body(uid, summary, due, now),
        summary: summary.to_owned(),
        status: Some("needs-action".to_owned()),
        due: own_opt(due),
        uid: uid.to_owned(),
        pending_delete: false,
        anchor: match anchor {
            Some(a) => Some(a.copy()),
            None => None,
        },
    };
    Ok(row)
}

/// Appends the row of a new task.
fn add_row(store: &mut Store, row: TaskRow)
    requires
        (StoreV { tasks: old(store)@.tasks.push(row@), ..old(store)@ }).wf(),
    ensures
        final(store)@ == (StoreV { tasks: old(store)@.tasks.push(row@), ..old(store)@ }),
{
    store.tasks.push(row);
    assert(store@.tasks =~= old(store)@.tasks.push(row@));
    assert(store@.ops =~= old(store)@.ops);
    assert(store@.calendars =~= old(store)@.calendars);
}

fn no_live_task(uid: &str) -> (f: Failure)
    ensures
        f@ == plain("no live task with uid "@ + uid@),
{
    let mut m = "no live task with uid ".to_owned();
    m.append(uid);
    Failure::from_message(m)
}

/// The row of a visible task after a toggle.
fn plan_toggle(store: &Store, cal: &str, uid: &str, now: &str) -> (r: Result<
    (usize, TaskRow),
    Failure,
>)
    ensures
        plans(store@, r, row_toggled(store@, cal@, uid@, now@)),
{
    let k = store.find_live(cal, uid);
    if k >= store.tasks.len() {
        return Err(no_live_task(uid));
    }
    assert(store@.tasks[k as int] == store.tasks@[k as int]@);
    match toggle_completion_at(store.tasks[k].ical_text.as_str(), now) {
        Ok((text, _, new_status)) => {
            let mut row = store.tasks[k].copy();
            row.ical_text = text;
            row.status = Some(status_to_str(new_status).to_owned());
            Ok((k, row))
        },
        Err(e) => Err(e),
    }
}

/// The row of a visible task after an edit.
fn plan_edit(
    store: &Store,
    cal: &str,
    uid: &str,
    new_summary: &str,
    due: Option<&str>,
    now: &str,
) -> (r: Result<(usize, TaskRow), Failure>)
    ensures
        plans(store@, r, row_edited(store@, cal@, uid@, new_summary@, opt_str(due), now@)),
{
    let k = store.find_live(cal, uid);
    if k >= store.tasks.len() {
        return Err(no_live_task(uid));
    }
    assert(store@.tasks[k as int] == store.tasks@[k as int]@);
    let mut row = store.tasks[k].copy();
    let text = edit_text_at(row.ical_text.as_str(), new_summary, due, now);
    row.ical_text = text;
    row.summary = new_summary.to_owned();
    match due {
        None => {},
        Some(d) => {
            if crate::text::char_count(d) == 0 {
                row.due = None;
            } else {
                row.due = Some(d.to_owned());
            }
        },
    }
    Ok((k, row))
}

/// The number of visible rows of `cal` for `uid`.
fn count_live(store: &Store, cal: &str, uid: &str) -> (n: usize)
    ensures
        n == count(store@.tasks, live_of_uid(cal@, uid@)),
{
    let mut n: usize = 0;
    let mut i: usize = 0;
    while i < store.tasks.len()
        invariant
            i <= store.tasks@.len(),
            n <= i,
            n == store@.tasks.take(i as int).filter(live_of_uid(cal@, uid@)).len(),
        decreases store.tasks@.len() - i,
    {
        proof {
            assert(store@.tasks[i as int] == store.tasks@[i as int]@);
            lemma_filter_step(store@.tasks, live_of_uid(cal@, uid@), i as int);
        }
        if store.tasks[i].is_live(cal, uid) {
            n += 1;
        }
        i += 1;
    }
    assert(store@.tasks.take(i as int) =~= store@.tasks);
    n
}

/// The row of a visible task once it is hidden.
fn plan_tombstone(store: &Store, cal: &str, uid: &str) -> (r: Result<(usize, TaskRow), Failure>)
    ensures
        plans(store@, r, row_tombstoned(store@, cal@, uid@)),
{
    let n = count_live(store, cal, uid);
    if n != 1 {
        let mut m = "no live task with uid ".to_owned();
        m.append(uid);
        m.append(" (already deleted or missing)");
        return Err(Failure::from_message(m));
    }
    let k = store.find_live(cal, uid);
    proof {
        lemma_filter_empty(store@.tasks, live_of_uid(cal@, uid@));
        assert(store@.tasks[k as int] == store.tasks@[k as int]@);
    }
    let mut row = store.tasks[k].copy();
    row.pending_delete = true;
    Ok((k, row))
}

fn full() -> (f: Failure)
    ensures
        f@ == plain("database or disk is full"@),
{
    Failure::new("database or disk is full")
}

/// Queues a create, stamped with `now` and queued at the second `at`. The cache
/// shows the task at once.
pub fn enqueue_create_at(
    store: &mut Store,
    calendar_href: &str,
    uid: &str,
    summary: &str,
    anchor: Option<&Anchor>,
    due: Option<&str>,
    now: &str,
    at: i64,
) -> (r: Result<i64, Failure>)
    requires
        old(store)@.wf(),
    ensures
        final(store)@.wf(),
        committed(
            r,
            old(store)@,
            final(store)@,
            create_queued(
                old(store)@,
                calendar_href@,
                uid@,
                summary@,
                opt_str(due),
                opt_anchor_ref(anchor),
                now@,
                at as int,
            ),
        ),
        r is Ok ==> payload_reads(final(store)@.ops.last().payload, summary@, opt_str(due)),
{
    match plan_create(store, calendar_href, uid, summary, due, anchor, now) {
        Ok(row) => {
            if store.last_op_id == i64::MAX {
                return Err(full());
            }
            let payload = write_payload(summary, due);
            add_row(store, row);
            Ok(push_op(store, "create", uid, calendar_href, Some(payload), at))
        },
        Err(e) => Err(e),
    }
}

/// Queues a create.
pub fn enqueue_create(
    store: &mut Store,
    calendar_href: &str,
    uid: &str,
    summary: &str,
) -> (r: Result<i64, Failure>)
    requires
        old(store)@.wf(),
    ensures
        final(store)@.wf(),
        exists|now: Seq<char>, at: i64|
            stamp_like(now) && committed(
                r,
                old(store)@,
                final(store)@,
                #[trigger] create_queued(
                    old(store)@,
                    calendar_href@,
                    uid@,
                    summary@,
                    None,
                    None,
                    now,
                    at as int,
                ),
            ),
        r is Ok ==> payload_reads(final(store)@.ops.last().payload, summary@, None),
{
    enqueue_create_with_anchor(store, calendar_href, uid, summary, None, None)
}

/// Queues a create of a task with a source note and a due date.
pub fn enqueue_create_with_anchor(
    store: &mut Store,
    calendar_href: &str,
    uid: &str,
    summary: &str,
    anchor: Option<&Anchor>,
    due: Option<&str>,
) -> (r: Result<i64, Failure>)
    requires
        old(store)@.wf(),
    ensures
        final(store)@.wf(),
        exists|now: Seq<char>, at: i64|
            stamp_like(now) && committed(
                r,
                old(store)@,
                final(store)@,
                #[trigger] create_queued(
                    old(store)@,
                    calendar_href@,
                    uid@,
                    summary@,
                    opt_str(due),
                    opt_anchor_ref(anchor),
                    now,
                    at as int,
                ),
            ),
        r is Ok ==> payload_reads(final(store)@.ops.last().payload, summary@, opt_str(due)),
{
    let now = utc_stamp();
    let at = unix_now();
    let r = enqueue_create_at(
        store,
        calendar_href,
        uid,
        summary,
        anchor,
        due,
        now.as_str(),
        at,
    );
    assert(stamp_like(now@) && committed(
        r,
        old(store)@,
        store@,
        create_queued(
            old(store)@,
            calendar_href@,
            uid@,
            summary@,
            opt_str(due),
            opt_anchor_ref(anchor),
            now@,
            at as int,
        ),
    ));
    r
}

/// Queues a toggle, stamped with `now` and queued at the second `at`.
pub fn enqueue_toggle_at(
    store: &mut Store,
    calendar_href: &str,
    uid: &str,
    now: &str,
    at: i64,
) -> (r: Result<i64, Failure>)
    requires
        old(store)@.wf(),
    ensures
        final(store)@.wf(),
        committed(
            r,
            old(store)@,
            final(store)@,
            toggle_queued(old(store)@, calendar_href@, uid@, now@, at as int),
        ),
{
    match plan_toggle(store, calendar_href, uid, now) {
        Ok((k, row)) => {
            if store.last_op_id == i64::MAX {
                return Err(full());
            }
            set_row(store, k, row);
            Ok(push_op(store, "toggle", uid, calendar_href, None, at))
        },
        Err(e) => Err(e),
    }
}

/// Queues a toggle.
pub fn enqueue_toggle(store: &mut Store, calendar_href: &str, uid: &str) -> (r: Result<
    i64,
    Failure,
>)
    requires
        old(store)@.wf(),
    ensures
        final(store)@.wf(),
        exists|now: Seq<char>, at: i64|
            stamp_like(now) && committed(
                r,
                old(store)@,
                final(store)@,
                #[trigger] toggle_queued(old(store)@, calendar_href@, uid@, now, at as int),
            ),
{
    let now = utc_stamp();
    let at = unix_now();
    let r = enqueue_toggle_at(store, calendar_href, uid, now.as_str(), at);
    assert(stamp_like(now@) && committed(
        r,
        old(store)@,
        store@,
        toggle_queued(old(store)@, calendar_href@, uid@, now@, at as int),
    ));
    r
}

/// Queues an edit, stamped with `now` and queued at the second `at`.
pub fn enqueue_edit_at(
    store: &mut Store,
    calendar_href: &str,
    uid: &str,
    new_summary: &str,
    due: Option<&str>,
    now: &str,
    at: i64,
) -> (r: Result<i64, Failure>)
    requires
        old(store)@.wf(),
    ensures
        final(store)@.wf(),
        committed(
            r,
            old(store)@,
            final(store)@,
            edit_queued(
                old(store)@,
                calendar_href@,
                uid@,
                new_summary@,
                opt_str(due),
                now@,
                at as int,
            ),
        ),
        r is Ok ==> payload_reads(final(store)@.ops.last().payload, new_summary@, opt_str(due)),
{
    match plan_edit(store, calendar_href, uid, new_summary, due, now) {
        Ok((k, row)) => {
            if store.last_op_id == i64::MAX {
                return Err(full());
            }
            let payload = write_payload(new_summary, due);
            set_row(store, k, row);
            Ok(push_op(store, "edit", uid, calendar_href, Some(payload), at))
        },
        Err(e) => Err(e),
    }
}

/// Queues an edit of the summary.
pub fn enqueue_edit(
    store: &mut Store,
    calendar_href: &str,
    uid: &str,
    new_summary: &str,
) -> (r: Result<i64, Failure>)
    requires
        old(store)@.wf(),
    ensures
        final(store)@.wf(),
        exists|now: Seq<char>, at: i64|
            stamp_like(now) && committed(
                r,
                old(store)@,
                final(store)@,
                #[trigger] edit_queued(
                    old(store)@,
                    calendar_href@,
                    uid@,
                    new_summary@,
                    None,
                    now,
                    at as int,
                ),
            ),
        r is Ok ==> payload_reads(final(store)@.ops.last().payload, new_summary@, None),
{
    let now = utc_stamp();
    let at = unix_now();
    let r = enqueue_edit_at(store, calendar_href, uid, new_summary, None, now.as_str(), at);
    assert(stamp_like(now@) && committed(
        r,
        old(store)@,
        store@,
        edit_queued(
            old(store)@,
            calendar_href@,
            uid@,
            new_summary@,
            None,
            now@,
            at as int,
        ),
    ));
    r
}

/// Queues a delete, queued at the second `at`.
pub fn enqueue_delete_at(store: &mut Store, calendar_href: &str, uid: &str, at: i64) -> (r: Result<
    i64,
    Failure,
>)
    requires
        old(store)@.wf(),
    ensures
        final(store)@.wf(),
        committed(
            r,
            old(store)@,
            final(store)@,
            delete_queued(old(store)@, calendar_href@, uid@, at as int),
        ),
{
    match plan_tombstone(store, calendar_href, uid) {
        Ok((k, row)) => {
            if store.last_op_id == i64::MAX {
                return Err(full());
            }
            set_row(store, k, row);
            Ok(push_op(store, "delete", uid, calendar_href, None, at))
        },
        Err(e) => Err(e),
    }
}

/// Queues a delete.
pub fn enqueue_delete(store: &mut Store, calendar_href: &str, uid: &str) -> (r: Result<
    i64,
    Failure,
>)
    requires
        old(store)@.wf(),
    ensures
        final(store)@.wf(),
        exists|at: i64|
            committed(
                r,
                old(store)@,
                final(store)@,
                #[trigger] delete_queued(old(store)@, calendar_href@, uid@, at as int),
            ),
{
    let at = unix_now();
    let r = enqueue_delete_at(store, calendar_href, uid, at);
    assert(committed(
        r,
        old(store)@,
        store@,
        delete_queued(old(store)@, calendar_href@, uid@, at as int),
    ));
    r
}

// --- The device's own list: the same changes, with nobody to send them to ---

/// The cache without a task of the device's own list.
pub open spec fn local_deleted(s: StoreV, uid: Seq<char>) -> Result<StoreV, FailureV> {
    if find(s.tasks, of_uid(LOCAL_LIST_ID@, uid), 0) < s.tasks.len() {
        Ok(StoreV { tasks: s.tasks.filter(not_of_uid(LOCAL_LIST_ID@, uid)), ..s })
    } else {
        Err(plain("no live task with uid "@ + uid))
    }
}

/// Adds a task to the device's own list.
pub fn create_local_with_anchor(
    store: &mut Store,
    uid: &str,
    summary: &str,
    anchor: Option<&Anchor>,
    due: Option<&str>,
    now: &str,
) -> (r: Result<(), Failure>)
    requires
        old(store)@.wf(),
    ensures
        final(store)@.wf(),
        changed(
            r,
            old(store)@,
            final(store)@,
            row_created(
                old(store)@,
                LOCAL_LIST_ID@,
                uid@,
                summary@,
                opt_str(due),
                opt_anchor_ref(anchor),
                now@,
            ),
        ),
{
    match plan_create(store, LOCAL_LIST_ID, uid, summary, due, anchor, now) {
        Ok(row) => {
            add_row(store, row);
            Ok(())
        },
        Err(e) => Err(e),
    }
}

/// Toggles a task of the device's own list.
pub fn toggle_local(store: &mut Store, uid: &str, now: &str) -> (r: Result<(), Failure>)
    requires
        old(store)@.wf(),
    ensures
        final(store)@.wf(),
        changed(
            r,
            old(store)@,
            final(store)@,
            row_toggled(old(store)@, LOCAL_LIST_ID@, uid@, now@),
        ),
{
    match plan_toggle(store, LOCAL_LIST_ID, uid, now) {
        Ok((k, row)) => {
            set_row(store, k, row);
            Ok(())
        },
        Err(e) => Err(e),
    }
}

/// Edits a task of the device's own list.
pub fn edit_local(
    store: &mut Store,
    uid: &str,
    new_summary: &str,
    due: Option<&str>,
    now: &str,
) -> (r: Result<(), Failure>)
    requires
        old(store)@.wf(),
    ensures
        final(store)@.wf(),
        changed(
            r,
            old(store)@,
            final(store)@,
            row_edited(
                old(store)@,
                LOCAL_LIST_ID@,
                uid@,
                new_summary@,
                opt_str(due),
                now@,
            ),
        ),
{
    match plan_edit(store, LOCAL_LIST_ID, uid, new_summary, due, now) {
        Ok((k, row)) => {
            set_row(store, k, row);
            Ok(())
        },
        Err(e) => Err(e),
    }
}

/// Removes a task of the device's own list.
pub fn delete_local(store: &mut Store, uid: &str) -> (r: Result<(), Failure>)
    requires
        old(store)@.wf(),
    ensures
        final(store)@.wf(),
        changed(r, old(store)@, final(store)@, local_deleted(old(store)@, uid@)),
{
    let k = store.find_uid(LOCAL_LIST_ID, uid);
    if k >= store.tasks.len() {
        return Err(no_live_task(uid));
    }
    let _ = delete_by_uid(store, LOCAL_LIST_ID, uid);
    Ok(())
}

} // verus!
