//! What a pull, the answer to a queued operation, and the upkeep of the tables do to their
//! rows, column by column.
use vstd::prelude::*;
use crate::cache::{
    calendar_upserted, href_named, knows_calendar, named, not_keyed, not_stale, synced_at,
    task_upserted, token_of, token_set, with_local_list, without_remote,
};
use crate::change_laws::{is_first_row, only_changed};
use crate::conflict_laws::reads_as;
use crate::failure::FailureV;
use crate::http::{ReplyV, StepV};
use crate::multistatus::{SyncDeltaV, TaskRecordV};
use crate::pending::{
    cleared, errored_kind, has_open_change, lost_change_in, not_abandoned, not_given_up,
    op_other_than, open_change_on, revived,
};
use crate::queue::{
    asked_of, hand_next, has_row, outcome_applied, row_of, ExecOutcomeV, FlushActionV,
    FlushSummaryV, HandV,
};
use crate::reconcile::{hrefs_taken, reconciled, record_hrefs, records_put};
use crate::seqs::{find, lemma_filter_mem, lemma_find, lemma_find_is};
use crate::store::{
    calendar_with_href, keyed, of_uid, op_with_id, CalendarRowV, PendingOpV, StoreV, TaskRowV,
};
use crate::task::TaskV;
use crate::text::{ascii_lower, stands_at};
use crate::wire_laws::{holds, lemma_holds};

verus! {

// --- Putting in what the server reports ---

/// The row has what the server reports of a task.
pub open spec fn shows(
    row: TaskRowV,
    cal: Seq<char>,
    href: Seq<char>,
    etag: Seq<char>,
    ical: Seq<char>,
    uid: Seq<char>,
    t: TaskV,
) -> bool {
    &&& row.calendar_href == cal && row.href == href
    &&& row.etag == etag && row.ical_text == ical && row.uid == uid
    &&& row.summary == t.summary && row.due == t.due
    &&& reads_as(row.status, t.status)
}

/// What the server reports of a task is put into the row at its address, which keeps its
/// place of capture and whether it is hidden; where there is none, a row is added that is
/// visible and was not captured. All other rows stay.
pub proof fn law_reported_row(
    tasks: Seq<TaskRowV>,
    cal: Seq<char>,
    href: Seq<char>,
    etag: Seq<char>,
    ical: Seq<char>,
    uid: Seq<char>,
    t: TaskV,
)
    ensures
        ({
            let after = task_upserted(tasks, cal, href, etag, ical, uid, t);
            ||| exists|k: int|
                {
                    &&& 0 <= k < tasks.len()
                    &&& (#[trigger] tasks[k]).calendar_href == cal && tasks[k].href == href
                    &&& only_changed(tasks, after, k)
                    &&& shows(after[k], cal, href, etag, ical, uid, t)
                    &&& after[k].anchor == tasks[k].anchor
                    &&& after[k].pending_delete == tasks[k].pending_delete
                }
            ||| {
                &&& forall|k: int|
                    0 <= k < tasks.len() ==> !((#[trigger] tasks[k]).calendar_href == cal
                        && tasks[k].href == href)
                &&& after.len() == tasks.len() + 1
                &&& forall|k: int| 0 <= k < tasks.len() ==> #[trigger] after[k] == tasks[k]
                &&& shows(after.last(), cal, href, etag, ical, uid, t)
                &&& after.last().anchor is None && !after.last().pending_delete
            }
        }),
{
    let after = task_upserted(tasks, cal, href, etag, ical, uid, t);
    let p = keyed(cal, href);
    lemma_find(tasks, p, 0);
    let k = find(tasks, p, 0) as int;
    lemma_unknown_differs();
    if k < tasks.len() {
        assert(p(tasks[k]));
        assert(only_changed(tasks, after, k));
        assert(tasks[k].calendar_href == cal);
    } else {
        assert forall|i: int| 0 <= i < tasks.len() implies !((#[trigger] tasks[i]).calendar_href
            == cal && tasks[i].href == href) by {
            assert(!p(tasks[i]));
        }
    }
}

proof fn lemma_unknown_differs()
    ensures
        "unknown"@ != "needs-action"@ && "unknown"@ != "in-process"@ && "unknown"@ != "completed"@
            && "unknown"@ != "cancelled"@,
{
    reveal_strlit("unknown");
    reveal_strlit("needs-action");
    reveal_strlit("in-process");
    reveal_strlit("completed");
    reveal_strlit("cancelled");
    assert("unknown"@.len() == 7 && "needs-action"@.len() == 12 && "in-process"@.len() == 10);
    assert("completed"@.len() == 9 && "cancelled"@.len() == 9);
}

/// No change of the task waits, and none is a conflict to resolve.
pub open spec fn is_quiet(ops: Seq<PendingOpV>, cal: Seq<char>, uid: Seq<char>) -> bool {
    forall|i: int|
        0 <= i < ops.len() && (#[trigger] ops[i]).target_calendar_href == cal && ops[i].target_uid
            == uid && (ops[i].op_type == "toggle"@ || ops[i].op_type == "edit"@) ==> ops[i].errored
            == 1 && !(ops[i].last_error matches Some(m) && holds(ascii_lower(m), "double-412"@))
}

proof fn lemma_quiet(ops: Seq<PendingOpV>, cal: Seq<char>, uid: Seq<char>)
    requires
        is_quiet(ops, cal, uid),
    ensures
        !has_open_change(ops, cal, uid),
{
    let p = open_change_on(cal, uid);
    assert forall|i: int| 0 <= i < ops.len() implies !p(#[trigger] ops[i]) by {
        if p(ops[i]) {
            assert(ops[i].errored == 1);
            let m = ascii_lower(ops[i].last_error->Some_0);
            let at = choose|at: int| stands_at(m, "double-412"@, at);
            assert(m.subrange(at, at + "double-412"@.len()) == "double-412"@);
        }
    }
    lemma_find_is(ops, p, ops.len());
}

/// No change is open of what stands at `href`, before the pull or in what it brings.
pub open spec fn is_settled(
    s: StoreV,
    cal: Seq<char>,
    recs: Seq<TaskRecordV>,
    href: Seq<char>,
) -> bool {
    &&& forall|i: int|
        0 <= i < s.tasks.len() && (#[trigger] s.tasks[i]).calendar_href == cal && s.tasks[i].href
            == href ==> is_quiet(s.ops, cal, s.tasks[i].uid)
    &&& forall|i: int|
        0 <= i < recs.len() && (#[trigger] recs[i]).href == href ==> is_quiet(
            s.ops,
            cal,
            recs[i].task.uid,
        )
}

proof fn lemma_put_quiet(
    s: StoreV,
    cal: Seq<char>,
    recs: Seq<TaskRecordV>,
    href: Seq<char>,
    n: nat,
)
    requires
        n <= recs.len(),
        is_settled(s, cal, recs, href),
    ensures
        forall|i: int|
            0 <= i < records_put(s.tasks, s.ops, cal, recs, n).len() && (#[trigger] records_put(
                s.tasks,
                s.ops,
                cal,
                recs,
                n,
            )[i]).calendar_href == cal && records_put(s.tasks, s.ops, cal, recs, n)[i].href == href
                ==> is_quiet(s.ops, cal, records_put(s.tasks, s.ops, cal, recs, n)[i].uid),
    decreases n,
{
    if n > 0 {
        let m = (n - 1) as nat;
        lemma_put_quiet(s, cal, recs, href, m);
        let before = records_put(s.tasks, s.ops, cal, recs, m);
        let r = recs[m as int];
        let after = records_put(s.tasks, s.ops, cal, recs, n);
        lemma_find(before, keyed(cal, r.href), 0);
        assert forall|i: int|
            0 <= i < after.len() && (#[trigger] after[i]).calendar_href == cal && after[i].href
                == href implies is_quiet(s.ops, cal, after[i].uid) by {
            if i < before.len() && after[i] == before[i] {
                assert(before[i].href == href);
            } else {
                assert(r.href == href);
            }
        }
    }
}

/// The record `k` is in the rows once it was put in, and stays there while no other record
/// for its address follows.
proof fn lemma_put_shows(
    s: StoreV,
    cal: Seq<char>,
    recs: Seq<TaskRecordV>,
    k: int,
    n: nat,
)
    requires
        0 <= k < n <= recs.len(),
        is_settled(s, cal, recs, recs[k].href),
        forall|i: int| k < i < recs.len() ==> (#[trigger] recs[i]).href != recs[k].href,
    ensures
        exists|i: int|
            0 <= i < records_put(s.tasks, s.ops, cal, recs, n).len() && shows(
                #[trigger] records_put(s.tasks, s.ops, cal, recs, n)[i],
                cal,
                recs[k].href,
                recs[k].etag,
                recs[k].ical_text,
                recs[k].task.uid,
                recs[k].task,
            ),
    decreases n,
{
    let m = (n - 1) as nat;
    let before = records_put(s.tasks, s.ops, cal, recs, m);
    let after = records_put(s.tasks, s.ops, cal, recs, n);
    let r = recs[m as int];
    let p = keyed(cal, r.href);
    lemma_find(before, p, 0);
    let at = find(before, p, 0) as int;
    if k == m {
        lemma_put_quiet(s, cal, recs, r.href, m);
        if at < before.len() {
            assert(p(before[at]));
            assert(is_quiet(s.ops, cal, before[at].uid));
            lemma_quiet(s.ops, cal, before[at].uid);
        }
        assert(after == task_upserted(
            before,
            cal,
            r.href,
            r.etag,
            r.ical_text,
            r.task.uid,
            r.task,
        ));
        law_reported_row(before, cal, r.href, r.etag, r.ical_text, r.task.uid, r.task);
        if exists|j: int|
            {
                &&& 0 <= j < before.len()
                &&& (#[trigger] before[j]).calendar_href == cal && before[j].href == r.href
                &&& only_changed(before, after, j)
                &&& shows(after[j], cal, r.href, r.etag, r.ical_text, r.task.uid, r.task)
                &&& after[j].anchor == before[j].anchor
                &&& after[j].pending_delete == before[j].pending_delete
            } {
        } else {
            assert(shows(
                after[after.len() - 1],
                cal,
                r.href,
                r.etag,
                r.ical_text,
                r.task.uid,
                r.task,
            ));
        }
    } else {
        lemma_put_shows(s, cal, recs, k, m);
        let i = choose|i: int|
            0 <= i < before.len() && shows(
                #[trigger] before[i],
                cal,
                recs[k].href,
                recs[k].etag,
                recs[k].ical_text,
                recs[k].task.uid,
                recs[k].task,
            );
        assert(r.href != recs[k].href);
        assert(at != i) by {
            if at == i {
                assert(p(before[at]));
            }
        }
        assert(after[i] == before[i]);
    }
}

/// A pull stores what the server reports: the last record for an address is in the cache
/// afterwards, with its version, its text, its identifier and the summary, due date and
/// status of its task, unless a change of the task is open, or the address is reported as
/// gone besides.
pub proof fn law_pull_stores_the_report(
    s: StoreV,
    cal: Seq<char>,
    d: SyncDeltaV,
    full: bool,
    at: i64,
    k: int,
)
    requires
        0 <= k < d.added_or_updated.len(),
        is_settled(s, cal, d.added_or_updated, d.added_or_updated[k].href),
        forall|i: int|
            k < i < d.added_or_updated.len() ==> (#[trigger] d.added_or_updated[i]).href
                != d.added_or_updated[k].href,
        !full ==> !d.deleted_hrefs.contains(d.added_or_updated[k].href),
    ensures
        exists|i: int|
            0 <= i < reconciled(s, cal, d, full, at).tasks.len() && shows(
                #[trigger] reconciled(s, cal, d, full, at).tasks[i],
                cal,
                d.added_or_updated[k].href,
                d.added_or_updated[k].etag,
                d.added_or_updated[k].ical_text,
                d.added_or_updated[k].task.uid,
                d.added_or_updated[k].task,
            ),
{
    let recs = d.added_or_updated;
    let rec = recs[k];
    let put = records_put(s.tasks, s.ops, cal, recs, recs.len());
    lemma_put_shows(s, cal, recs, k, recs.len());
    let i = choose|i: int|
        0 <= i < put.len() && shows(
            #[trigger] put[i],
            cal,
            rec.href,
            rec.etag,
            rec.ical_text,
            rec.task.uid,
            rec.task,
        );
    let row = put[i];
    let t = reconciled(s, cal, d, full, at);
    if full {
        let p = not_stale(cal, record_hrefs(recs));
        lemma_filter_mem(put, p);
        assert(record_hrefs(recs)[k] == rec.href);
        assert(put.contains(row) && p(row));
        assert(put.filter(p).contains(row));
    } else {
        lemma_taken_stays(put, cal, d.deleted_hrefs, d.deleted_hrefs.len(), row);
    }
    assert(t.tasks.contains(row));
    let j = choose|j: int| 0 <= j < t.tasks.len() && t.tasks[j] == row;
    assert(shows(
        t.tasks[j],
        cal,
        rec.href,
        rec.etag,
        rec.ical_text,
        rec.task.uid,
        rec.task,
    ));
}

proof fn lemma_taken_stays(
    tasks: Seq<TaskRowV>,
    cal: Seq<char>,
    hrefs: Seq<Seq<char>>,
    n: nat,
    r: TaskRowV,
)
    requires
        n <= hrefs.len(),
        tasks.contains(r),
        !hrefs.contains(r.href),
    ensures
        hrefs_taken(tasks, cal, hrefs, n).contains(r),
    decreases n,
{
    if n > 0 {
        let before = hrefs_taken(tasks, cal, hrefs, (n - 1) as nat);
        lemma_taken_stays(tasks, cal, hrefs, (n - 1) as nat, r);
        assert(hrefs.contains(hrefs[n - 1]));
        lemma_filter_mem(before, not_keyed(cal, hrefs[n - 1]));
        assert(before.contains(r) && not_keyed(cal, hrefs[n - 1])(r));
    }
}

/// What a pull remembers of its list: the new token and the time. A full pull without a
/// token forgets the old one, and an incremental one without a token changes nothing. Other
/// lists and every name stay.
pub proof fn law_pull_remembers(
    s: StoreV,
    cal: Seq<char>,
    d: SyncDeltaV,
    full: bool,
    at: i64,
)
    requires
        s.wf(),
    ensures
        ({
            let t = reconciled(s, cal, d, full, at);
            &&& t.calendars.len() == s.calendars.len()
            &&& t.ops == s.ops && t.last_op_id == s.last_op_id
            &&& forall|i: int|
                0 <= i < s.calendars.len() ==> {
                    let old = s.calendars[i];
                    let new = #[trigger] t.calendars[i];
                    &&& new.href == old.href && new.display_name == old.display_name
                    &&& if old.href == cal && (d.new_sync_token is Some || full) {
                        new.sync_token == d.new_sync_token && new.last_synced_at == Some(at)
                    } else {
                        new == old
                    }
                }
        }),
{
    let p = calendar_with_href(cal);
    lemma_find(s.calendars, p, 0);
    let k = find(s.calendars, p, 0) as int;
    let blank = token_set(s.calendars, cal, None, synced_at(s, cal));
    lemma_find(blank, p, 0);
    let b = find(blank, p, 0) as int;
    if k < s.calendars.len() {
        assert(p(blank[k]));
        if b < k {
            assert(p(blank[b]));
            assert(p(s.calendars[b]));
        }
        assert(b == k);
        assert forall|i: int| 0 <= i < s.calendars.len() && i != k implies (
        #[trigger] s.calendars[i]).href != cal by {
            if i < k {
                assert(!p(s.calendars[i]));
            } else {
                assert(s.calendars[k].href != s.calendars[i].href);
            }
        }
    } else {
        assert forall|i: int| 0 <= i < s.calendars.len() implies (#[trigger] s.calendars[i]).href
            != cal by {
            assert(!p(s.calendars[i]));
        }
    }
}

// --- What becomes of a queued operation ---

/// The operation is gone from the queue, and nothing else is.
pub open spec fn is_off_queue(s: StoreV, t: StoreV, op: PendingOpV) -> bool {
    &&& t.ops == s.ops.filter(|o: PendingOpV| o.id != op.id)
    &&& t.calendars == s.calendars
    &&& t.last_op_id == s.last_op_id
}

/// One more operation was flushed, with a retry or without one.
pub open spec fn counts_flushed(a: FlushSummaryV, b: FlushSummaryV, retried: bool) -> bool {
    &&& b.flushed == a.flushed + 1
    &&& b.retried == a.retried + if retried {
        1int
    } else {
        0int
    }
    &&& b.transient_failed == a.transient_failed
    &&& b.newly_errored == a.newly_errored
    &&& b.cascade_errored == a.cascade_errored
}

/// A row of the task that the operation is about.
pub open spec fn is_row_of(r: TaskRowV, op: PendingOpV) -> bool {
    r.calendar_href == op.target_calendar_href && r.uid == op.target_uid
}

proof fn lemma_has_row(s: StoreV, op: PendingOpV)
    ensures
        has_row(s, op.target_calendar_href, op.target_uid) == exists|i: int|
            0 <= i < s.tasks.len() && is_row_of(#[trigger] s.tasks[i], op),
{
    let p = of_uid(op.target_calendar_href, op.target_uid);
    lemma_find(s.tasks, p, 0);
    let k = find(s.tasks, p, 0) as int;
    if k < s.tasks.len() {
        assert(p(s.tasks[k]));
        assert(is_row_of(s.tasks[k], op));
    } else {
        assert forall|i: int| 0 <= i < s.tasks.len() implies !is_row_of(#[trigger] s.tasks[i], op) by {
            assert(!p(s.tasks[i]));
        }
    }
}

/// A task that was created on the server gets the address, the version and the text there;
/// its other columns and all other rows stay. The operation is off the queue and counted.
pub proof fn law_created_task_is_placed(
    s: StoreV,
    op: PendingOpV,
    url: Seq<char>,
    etag: Seq<char>,
    text: Seq<char>,
    sum: FlushSummaryV,
    k: int,
)
    requires
        0 <= k < s.tasks.len(),
        is_row_of(s.tasks[k], op),
    ensures
        outcome_applied(
            s,
            op,
            ExecOutcomeV::SuccessCreate { task_url: url, etag, ical_text: text },
            sum,
        ) matches Ok(done) ==> {
            let t = done.0;
            &&& done.2
            &&& is_off_queue(s, t, op)
            &&& counts_flushed(sum, done.1, false)
            &&& t.tasks.len() == s.tasks.len()
            &&& forall|i: int|
                0 <= i < s.tasks.len() ==> #[trigger] t.tasks[i] == if is_row_of(s.tasks[i], op) {
                    TaskRowV { href: url, etag, ical_text: text, ..s.tasks[i] }
                } else {
                    s.tasks[i]
                }
        },
{
    lemma_has_row(s, op);
    assert(op_other_than(op.id) =~= (|o: PendingOpV| o.id != op.id));
}

/// A task that was changed on the server gets the version and the text there; its other
/// columns and all other rows stay. The operation is off the queue and counted.
pub proof fn law_updated_task_is_stored(
    s: StoreV,
    op: PendingOpV,
    etag: Seq<char>,
    text: Seq<char>,
    retried: bool,
    sum: FlushSummaryV,
    k: int,
)
    requires
        0 <= k < s.tasks.len(),
        is_row_of(s.tasks[k], op),
    ensures
        outcome_applied(
            s,
            op,
            ExecOutcomeV::SuccessUpdate { new_etag: etag, new_ical: text, retried },
            sum,
        ) matches Ok(done) && {
            let t = done.0;
            &&& done.2
            &&& is_off_queue(s, t, op)
            &&& counts_flushed(sum, done.1, retried)
            &&& t.tasks.len() == s.tasks.len()
            &&& forall|i: int|
                0 <= i < s.tasks.len() ==> #[trigger] t.tasks[i] == if is_row_of(s.tasks[i], op) {
                    TaskRowV { etag, ical_text: text, ..s.tasks[i] }
                } else {
                    s.tasks[i]
                }
        },
{
    lemma_has_row(s, op);
    assert(op_other_than(op.id) =~= (|o: PendingOpV| o.id != op.id));
}

/// A task that was deleted on the server loses its rows, and no other does. The operation is
/// off the queue and counted.
pub proof fn law_deleted_task_is_dropped(
    s: StoreV,
    op: PendingOpV,
    retried: bool,
    sum: FlushSummaryV,
)
    ensures
        outcome_applied(s, op, ExecOutcomeV::SuccessDelete { retried }, sum) matches Ok(done) && {
            let t = done.0;
            &&& done.2
            &&& is_off_queue(s, t, op)
            &&& counts_flushed(sum, done.1, retried)
            &&& t.tasks == s.tasks.filter(|r: TaskRowV| !is_row_of(r, op))
        },
{
    assert(op_other_than(op.id) =~= (|o: PendingOpV| o.id != op.id));
    assert(crate::cache::not_of_uid(op.target_calendar_href, op.target_uid) =~= (|r: TaskRowV|
        !is_row_of(r, op)));
}

/// What becomes of the queue when `op` is given up over `msg`: it and all that waits for its
/// task are marked, and nothing else.
pub open spec fn gives_up(
    before: Seq<PendingOpV>,
    after: Seq<PendingOpV>,
    op: PendingOpV,
    strikes: int,
    msg: Seq<char>,
) -> bool {
    &&& after.len() == before.len()
    &&& forall|i: int|
        0 <= i < before.len() ==> #[trigger] after[i] == if before[i].id == op.id {
            PendingOpV {
                errored: 1,
                last_error: Some(msg),
                error_count: before[i].error_count + strikes,
                ..before[i]
            }
        } else if before[i].target_uid == op.target_uid && before[i].errored == 0 {
            PendingOpV {
                errored: 1,
                last_error: Some("blocked by failed "@ + op.op_type),
                ..before[i]
            }
        } else {
            before[i]
        }
}

/// An operation that failed for good is given up with the failure's words, and with it all
/// that waits for its task. The tasks and the lists stay, and the pass goes on.
pub proof fn law_final_failure_gives_up(
    s: StoreV,
    op: PendingOpV,
    msg: Seq<char>,
    sum: FlushSummaryV,
)
    ensures
        outcome_applied(s, op, ExecOutcomeV::Terminal(msg), sum) matches Ok(done) && {
            let t = done.0;
            &&& done.2
            &&& gives_up(s.ops, t.ops, op, 0, msg)
            &&& t.tasks == s.tasks && t.calendars == s.calendars && t.last_op_id == s.last_op_id
            &&& done.1.newly_errored == sum.newly_errored + 1
            &&& done.1.flushed == sum.flushed && done.1.retried == sum.retried
            &&& done.1.transient_failed == sum.transient_failed
        },
{
    let done = outcome_applied(s, op, ExecOutcomeV::Terminal(msg), sum)->Ok_0;
    assert forall|i: int| 0 <= i < s.ops.len() implies #[trigger] done.0.ops[i]
        == if s.ops[i].id == op.id {
        PendingOpV {
            errored: 1,
            last_error: Some(msg),
            error_count: s.ops[i].error_count + 0,
            ..s.ops[i]
        }
    } else if s.ops[i].target_uid == op.target_uid && s.ops[i].errored == 0 {
        PendingOpV {
            errored: 1,
            last_error: Some("blocked by failed "@ + op.op_type),
            ..s.ops[i]
        }
    } else {
        s.ops[i]
    } by {}
}

/// An operation that failed for now is struck, with the failure's words, and waits on; at the
/// fifth strike it is given up, and with it all that waits for its task. The pass ends. The
/// tasks and the lists stay.
pub proof fn law_passing_failure_strikes(
    s: StoreV,
    op: PendingOpV,
    msg: Seq<char>,
    sum: FlushSummaryV,
)
    requires
        s.wf(),
        s.ops.contains(op),
        op.error_count < i64::MAX,
    ensures
        outcome_applied(s, op, ExecOutcomeV::Transient(msg), sum) matches Ok(done) && {
            let t = done.0;
            &&& !done.2
            &&& t.tasks == s.tasks && t.calendars == s.calendars && t.last_op_id == s.last_op_id
            &&& done.1.flushed == sum.flushed && done.1.retried == sum.retried
            &&& op.error_count + 1 >= 5 ==> {
                &&& gives_up(s.ops, t.ops, op, 1, msg)
                &&& done.1.newly_errored == sum.newly_errored + 1
                &&& done.1.transient_failed == sum.transient_failed
            }
            &&& op.error_count + 1 < 5 ==> {
                &&& t.ops.len() == s.ops.len()
                &&& forall|i: int|
                    0 <= i < s.ops.len() ==> #[trigger] t.ops[i] == if s.ops[i].id == op.id {
                        PendingOpV {
                            last_error: Some(msg),
                            error_count: s.ops[i].error_count + 1,
                            ..s.ops[i]
                        }
                    } else {
                        s.ops[i]
                    }
                &&& done.1.newly_errored == sum.newly_errored
                &&& done.1.cascade_errored == sum.cascade_errored
                &&& done.1.transient_failed == sum.transient_failed + 1
            }
        },
{
    let k = choose|k: int| 0 <= k < s.ops.len() && s.ops[k] == op;
    assert forall|i: int| 0 <= i < k implies !op_with_id(op.id)(#[trigger] s.ops[i]) by {
        assert(s.ops[i].id < s.ops[k].id);
    }
    lemma_find_is(s.ops, op_with_id(op.id), k as nat);
}

// --- Clearing what was given up ---

/// An operation of this kind on `uid` was given up.
pub open spec fn gave_up(ops: Seq<PendingOpV>, op_type: Seq<char>, uid: Seq<char>) -> bool {
    exists|i: int|
        0 <= i < ops.len() && (#[trigger] ops[i]).errored == 1 && ops[i].op_type == op_type
            && ops[i].target_uid == uid
}

/// The row stands for a create that was given up, and has no address on the server.
pub open spec fn is_left_over(r: TaskRowV, ops: Seq<PendingOpV>) -> bool {
    &&& gave_up(ops, "create"@, r.uid)
    &&& r.href.len() >= 8 && ascii_lower(r.href.take(8)) == "pending:"@
}

/// Clearing takes what was given up off the queue. A row whose delete was given up is
/// visible again, and a row of a create that was given up goes. A list in which a toggle or
/// an edit was given up is pulled from the start.
pub proof fn law_clearing_the_tables(s: StoreV)
    ensures
        cleared(s).ops == s.ops.filter(|o: PendingOpV| o.errored != 1),
        cleared(s).last_op_id == s.last_op_id,
        forall|r: TaskRowV| #[trigger]
            s.tasks.contains(r) && !is_left_over(r, s.ops) ==> cleared(s).tasks.contains(
                TaskRowV {
                    pending_delete: r.pending_delete && !gave_up(s.ops, "delete"@, r.uid),
                    ..r
                },
            ),
        forall|i: int|
            0 <= i < cleared(s).tasks.len() ==> !is_left_over(
                #[trigger] cleared(s).tasks[i],
                s.ops,
            ) && exists|j: int|
                0 <= j < s.tasks.len() && cleared(s).tasks[i] == (TaskRowV {
                    pending_delete: cleared(s).tasks[i].pending_delete,
                    ..#[trigger] s.tasks[j]
                }),
        cleared(s).calendars.len() == s.calendars.len(),
        forall|i: int|
            0 <= i < s.calendars.len() ==> {
                let old = s.calendars[i];
                let lost = exists|j: int|
                    0 <= j < s.ops.len() && (#[trigger] s.ops[j]).errored == 1 && (
                    s.ops[j].op_type == "toggle"@ || s.ops[j].op_type == "edit"@)
                        && s.ops[j].target_calendar_href == old.href;
                #[trigger] cleared(s).calendars[i] == if lost {
                    CalendarRowV { sync_token: None, ..old }
                } else {
                    old
                }
            },
{
    assert(not_given_up() =~= (|o: PendingOpV| o.errored != 1));
    let raised = revived(s.tasks, s.ops);
    let p = not_abandoned(s.ops);
    let t = cleared(s);
    lemma_filter_mem(raised, p);
    assert forall|r: TaskRowV| is_left_over(r, s.ops) == !(#[trigger] p(r)) by {
        lemma_left_over(r, s.ops);
    }
    assert forall|r: TaskRowV| #[trigger]
        s.tasks.contains(r) && !is_left_over(r, s.ops) implies t.tasks.contains(
        TaskRowV {
            pending_delete: r.pending_delete && !gave_up(s.ops, "delete"@, r.uid),
            ..r
        },
    ) by {
        let i = choose|i: int| 0 <= i < s.tasks.len() && s.tasks[i] == r;
        let new = TaskRowV {
            pending_delete: r.pending_delete && !gave_up(s.ops, "delete"@, r.uid),
            ..r
        };
        assert(gave_up(s.ops, "delete"@, r.uid) == errored_kind(s.ops, "delete"@, r.uid));
        assert(raised[i] == new);
        assert(raised.contains(new));
        assert(p(r));
        assert(p(new)) by {
            assert(new.uid == r.uid && new.href == r.href);
        }
    }
    assert forall|i: int| 0 <= i < t.tasks.len() implies !is_left_over(
        #[trigger] t.tasks[i],
        s.ops,
    ) && exists|j: int|
        0 <= j < s.tasks.len() && t.tasks[i] == (TaskRowV {
            pending_delete: t.tasks[i].pending_delete,
            ..#[trigger] s.tasks[j]
        }) by {
        assert(p(t.tasks[i]) && raised.contains(t.tasks[i]));
        let j = choose|j: int| 0 <= j < raised.len() && raised[j] == t.tasks[i];
        assert(t.tasks[i] == (TaskRowV {
            pending_delete: t.tasks[i].pending_delete,
            ..s.tasks[j]
        }));
    }
    assert forall|i: int| 0 <= i < s.calendars.len() implies {
        let old = s.calendars[i];
        let lost = exists|j: int|
            0 <= j < s.ops.len() && (#[trigger] s.ops[j]).errored == 1 && (s.ops[j].op_type
                == "toggle"@ || s.ops[j].op_type == "edit"@) && s.ops[j].target_calendar_href
                == old.href;
        #[trigger] t.calendars[i] == if lost {
            CalendarRowV { sync_token: None, ..old }
        } else {
            old
        }
    } by {
        let q = lost_change_in(s.calendars[i].href);
        lemma_find(s.ops, q, 0);
        let f = find(s.ops, q, 0) as int;
        if f < s.ops.len() {
            assert(q(s.ops[f]));
            assert(s.ops[f].errored == 1);
        } else {
            assert forall|j: int| 0 <= j < s.ops.len() implies !(#[trigger] q(s.ops[j])) by {}
            assert forall|j: int| 0 <= j < s.ops.len() implies !((#[trigger] s.ops[j]).errored == 1
                && (s.ops[j].op_type == "toggle"@ || s.ops[j].op_type == "edit"@)
                && s.ops[j].target_calendar_href == s.calendars[i].href) by {
                assert(!q(s.ops[j]));
            }
        }
    }
}

proof fn lemma_left_over(r: TaskRowV, ops: Seq<PendingOpV>)
    ensures
        is_left_over(r, ops) == !not_abandoned(ops)(r),
{
    reveal_strlit("pending:");
    let low = ascii_lower(r.href);
    assert(gave_up(ops, "create"@, r.uid) == errored_kind(ops, "create"@, r.uid));
    if r.href.len() >= 8 {
        assert(low.subrange(0, 8) =~= ascii_lower(r.href.take(8)));
    }
    assert("pending:"@.len() == 8);
}

// --- The known lists ---

/// A list is made known under a name: a list that is known keeps its place and what is
/// remembered of it, a new one is added at the end, never synced. All others stay.
pub proof fn law_list_is_known(cals: Seq<CalendarRowV>, href: Seq<char>, name: Seq<char>)
    ensures
        ({
            let after = calendar_upserted(cals, href, name);
            ||| exists|k: int|
                {
                    &&& 0 <= k < cals.len()
                    &&& (#[trigger] cals[k]).href == href
                    &&& after.len() == cals.len()
                    &&& after[k].href == href && after[k].display_name == name
                        && after[k].sync_token == cals[k].sync_token && after[k].last_synced_at
                        == cals[k].last_synced_at
                    &&& forall|i: int|
                        0 <= i < cals.len() && i != k ==> #[trigger] after[i] == cals[i]
                }
            ||| {
                &&& forall|k: int| 0 <= k < cals.len() ==> (#[trigger] cals[k]).href != href
                &&& after.len() == cals.len() + 1
                &&& forall|i: int| 0 <= i < cals.len() ==> #[trigger] after[i] == cals[i]
                &&& after.last().href == href && after.last().display_name == name
                &&& after.last().sync_token is None && after.last().last_synced_at is None
            }
        }),
{
    let p = calendar_with_href(href);
    lemma_find(cals, p, 0);
    let k = find(cals, p, 0) as int;
    if k < cals.len() {
        assert(p(cals[k]));
        assert(cals[k].href == href);
    } else {
        assert forall|i: int| 0 <= i < cals.len() implies (#[trigger] cals[i]).href != href by {
            assert(!p(cals[i]));
        }
    }
}

/// What is remembered of a list is what was set of it last; what is remembered of another
/// stays. A list that is not known has no token and was never synced.
pub proof fn law_sync_state_reads_back(
    s: StoreV,
    href: Seq<char>,
    token: Option<Seq<char>>,
    at: Option<i64>,
    other: Seq<char>,
)
    ensures
        ({
            let t = StoreV { calendars: token_set(s.calendars, href, token, at), ..s };
            &&& knows_calendar(t, other) == knows_calendar(s, other)
            &&& knows_calendar(s, href) ==> token_of(t, href) == token && synced_at(t, href) == at
            &&& !knows_calendar(s, href) ==> token_of(t, href) is None && synced_at(t, href) is None
            &&& other != href ==> token_of(t, other) == token_of(s, other) && synced_at(t, other)
                == synced_at(s, other)
        }),
{
    let t = StoreV { calendars: token_set(s.calendars, href, token, at), ..s };
    let p = calendar_with_href(href);
    let q = calendar_with_href(other);
    lemma_find(s.calendars, p, 0);
    lemma_find(s.calendars, q, 0);
    assert forall|i: int| 0 <= i < s.calendars.len() implies (#[trigger] t.calendars[i]).href
        == s.calendars[i].href by {}
    let k = find(s.calendars, p, 0);
    let l = find(s.calendars, q, 0);
    assert forall|i: int| 0 <= i < k implies !p(#[trigger] t.calendars[i]) by {
        assert(!p(s.calendars[i]));
    }
    lemma_find_is(t.calendars, p, k);
    assert forall|i: int| 0 <= i < l implies !q(#[trigger] t.calendars[i]) by {
        assert(!q(s.calendars[i]));
    }
    lemma_find_is(t.calendars, q, l);
}

/// A list is known where some row has its address. The address under a name is that of the
/// first list that has the name.
pub proof fn law_lists_are_looked_up(s: StoreV, href: Seq<char>, name: Seq<char>)
    ensures
        knows_calendar(s, href) == exists|i: int|
            0 <= i < s.calendars.len() && (#[trigger] s.calendars[i]).href == href,
        match href_named(s, name) {
            Some(h) => exists|i: int|
                {
                    &&& 0 <= i < s.calendars.len()
                    &&& (#[trigger] s.calendars[i]).display_name == name && s.calendars[i].href == h
                    &&& forall|j: int|
                        0 <= j < i ==> (#[trigger] s.calendars[j]).display_name != name
                },
            None => forall|i: int|
                0 <= i < s.calendars.len() ==> (#[trigger] s.calendars[i]).display_name != name,
        },
{
    let p = calendar_with_href(href);
    lemma_find(s.calendars, p, 0);
    let k = find(s.calendars, p, 0) as int;
    if k < s.calendars.len() {
        assert(p(s.calendars[k]));
        assert(s.calendars[k].href == href);
    } else {
        assert forall|i: int| 0 <= i < s.calendars.len() implies (#[trigger] s.calendars[i]).href
            != href by {
            assert(!p(s.calendars[i]));
        }
    }
    let q = named(name);
    lemma_find(s.calendars, q, 0);
    let l = find(s.calendars, q, 0) as int;
    assert forall|j: int| 0 <= j < l implies (#[trigger] s.calendars[j]).display_name != name by {
        assert(!q(s.calendars[j]));
    }
    if l < s.calendars.len() {
        assert(q(s.calendars[l]));
        assert(s.calendars[l].display_name == name);
    }
}

/// Starting over keeps the device's own list with its tasks, and drops every other row, list
/// and operation.
pub proof fn law_starting_over(s: StoreV)
    ensures
        without_remote(s).ops.len() == 0,
        without_remote(s).last_op_id == s.last_op_id,
        without_remote(s).tasks == s.tasks.filter(
            |r: TaskRowV| r.calendar_href == "local://default"@,
        ),
        without_remote(s).calendars == s.calendars.filter(
            |c: CalendarRowV| c.href == "local://default"@,
        ),
{
    assert(crate::cache::local_row() =~= (|r: TaskRowV| r.calendar_href == "local://default"@));
    assert(crate::cache::local_calendar() =~= (|c: CalendarRowV| c.href == "local://default"@));
}

/// The device's own list is known, under its name where it was not known before; the other
/// lists, the tasks and the queue stay.
pub proof fn law_own_list_is_known(s: StoreV)
    ensures
        ({
            let t = with_local_list(s);
            &&& knows_calendar(t, "local://default"@)
            &&& t.tasks == s.tasks && t.ops == s.ops && t.last_op_id == s.last_op_id
            &&& t.calendars.len() >= s.calendars.len()
            &&& forall|i: int| 0 <= i < s.calendars.len() ==> #[trigger] t.calendars[i]
                == s.calendars[i]
            &&& t.calendars.len() > s.calendars.len() ==> t.calendars.len() == s.calendars.len() + 1
                && t.calendars.last().href == "local://default"@ && t.calendars.last().display_name
                == "On this reMarkable"@
            &&& knows_calendar(s, "local://default"@) ==> t == s
        }),
{
    let t = with_local_list(s);
    let p = calendar_with_href("local://default"@);
    lemma_find(s.calendars, p, 0);
    lemma_find(t.calendars, p, 0);
    if !(knows_calendar(s, "local://default"@)) {
        assert(p(t.calendars.last()));
    }
}

// --- Taking rows out ---

/// Taking a task out takes the row at its address in the list, or all rows of its identifier
/// there; taking out what is not listed takes the rows of the list at any other address. All
/// other rows stay, in order.
pub proof fn law_rows_taken_out(
    tasks: Seq<TaskRowV>,
    cal: Seq<char>,
    href: Seq<char>,
    uid: Seq<char>,
    kept: Seq<Seq<char>>,
)
    ensures
        tasks.filter(not_keyed(cal, href)) == tasks.filter(
            |r: TaskRowV| r.calendar_href != cal || r.href != href,
        ),
        tasks.filter(crate::cache::not_of_uid(cal, uid)) == tasks.filter(
            |r: TaskRowV| r.calendar_href != cal || r.uid != uid,
        ),
        tasks.filter(not_stale(cal, kept)) == tasks.filter(
            |r: TaskRowV| r.calendar_href != cal || kept.contains(r.href),
        ),
        tasks.filter(crate::cache::stale(cal, kept)) == tasks.filter(
            |r: TaskRowV| r.calendar_href == cal && !kept.contains(r.href),
        ),
{
    assert(not_keyed(cal, href) =~= (|r: TaskRowV| r.calendar_href != cal || r.href != href));
    assert(crate::cache::not_of_uid(cal, uid) =~= (|r: TaskRowV|
        r.calendar_href != cal || r.uid != uid));
    assert(not_stale(cal, kept) =~= (|r: TaskRowV|
        r.calendar_href != cal || kept.contains(r.href)));
    assert(crate::cache::stale(cal, kept) =~= (|r: TaskRowV|
        r.calendar_href == cal && !kept.contains(r.href)));
}

/// With an operation that is given up, all that waits for its task is counted besides: the
/// other operations on the identifier that were not given up before.
pub proof fn law_cascade_is_counted(
    s: StoreV,
    op: PendingOpV,
    msg: Seq<char>,
    sum: FlushSummaryV,
)
    ensures
        outcome_applied(s, op, ExecOutcomeV::Terminal(msg), sum) matches Ok(done)
            && done.1.cascade_errored == sum.cascade_errored + s.ops.filter(
            |o: PendingOpV| o.target_uid == op.target_uid && o.errored == 0 && o.id != op.id,
        ).len(),
{
    let f = |o: PendingOpV|
        if o.id == op.id {
            crate::pending::errored_op(o, msg)
        } else {
            o
        };
    let p = crate::pending::drainable_on(op.target_uid);
    let q = |o: PendingOpV| o.target_uid == op.target_uid && o.errored == 0 && o.id != op.id;
    let marked = crate::pending::op_errored(s.ops, op.id, msg);
    assert forall|i: int| 0 <= i < s.ops.len() implies p(marked[i]) == q(#[trigger] s.ops[i]) by {}
    lemma_filter_alike(marked, p, s.ops, q);
}

proof fn lemma_filter_alike<A, B>(
    a: Seq<A>,
    p: spec_fn(A) -> bool,
    b: Seq<B>,
    q: spec_fn(B) -> bool,
)
    requires
        a.len() == b.len(),
        forall|i: int| 0 <= i < b.len() ==> p(a[i]) == q(#[trigger] b[i]),
    ensures
        a.filter(p).len() == b.filter(q).len(),
    decreases a.len(),
{
    reveal(Seq::filter);
    if a.len() > 0 {
        let x = a.drop_last();
        let y = b.drop_last();
        assert forall|i: int| 0 <= i < y.len() implies p(x[i]) == q(#[trigger] y[i]) by {
            assert(y[i] == b[i]);
        }
        lemma_filter_alike(x, p, y, q);
        assert(p(a.last()) == q(b[b.len() - 1]));
    }
}

/// A create that succeeded is placed unless the address is taken in the list: it is owed
/// where the task has one row and no other row of the list has the address.
pub proof fn law_created_task_finds_its_place(
    s: StoreV,
    op: PendingOpV,
    url: Seq<char>,
    etag: Seq<char>,
    text: Seq<char>,
    sum: FlushSummaryV,
    k: int,
)
    requires
        s.wf(),
        0 <= k < s.tasks.len(),
        is_row_of(s.tasks[k], op),
        forall|i: int|
            0 <= i < s.tasks.len() && i != k ==> !is_row_of(#[trigger] s.tasks[i], op) && !(
            s.tasks[i].calendar_href == op.target_calendar_href && s.tasks[i].href == url),
    ensures
        outcome_applied(
            s,
            op,
            ExecOutcomeV::SuccessCreate { task_url: url, etag, ical_text: text },
            sum,
        ) is Ok,
{
    lemma_has_row(s, op);
    let cal = op.target_calendar_href;
    let t = crate::queue::rows_confirmed(s.tasks, cal, op.target_uid, url, etag, text);
    assert forall|i: int, j: int| 0 <= i < j < t.len() implies !((#[trigger] t[i]).calendar_href
        == (#[trigger] t[j]).calendar_href && t[i].href == t[j].href) by {
        assert(!(s.tasks[i].calendar_href == s.tasks[j].calendar_href && s.tasks[i].href
            == s.tasks[j].href));
        assert(i != k ==> t[i] == s.tasks[i]);
        assert(j != k ==> t[j] == s.tasks[j]);
    }
}

/// An operation that succeeded on a task which is no longer in the cache is given up, with
/// all that waits for the task; the pass goes on.
pub proof fn law_vanished_row_gives_up(
    s: StoreV,
    op: PendingOpV,
    a: Seq<char>,
    b: Seq<char>,
    c: Seq<char>,
    retried: bool,
    sum: FlushSummaryV,
)
    requires
        forall|i: int| 0 <= i < s.tasks.len() ==> !is_row_of(#[trigger] s.tasks[i], op),
    ensures
        outcome_applied(
            s,
            op,
            ExecOutcomeV::SuccessCreate { task_url: a, etag: b, ical_text: c },
            sum,
        ) matches Ok(done) && done.2 && done.0.tasks == s.tasks && gives_up(
            s.ops,
            done.0.ops,
            op,
            0,
            "cache row vanished mid-flush (create)"@,
        ),
        outcome_applied(
            s,
            op,
            ExecOutcomeV::SuccessUpdate { new_etag: b, new_ical: c, retried },
            sum,
        ) matches Ok(done) && done.2 && done.0.tasks == s.tasks && gives_up(
            s.ops,
            done.0.ops,
            op,
            0,
            "cache row vanished mid-flush"@,
        ),
{
    lemma_has_row(s, op);
    law_final_failure_gives_up(s, op, "cache row vanished mid-flush (create)"@, sum);
    law_final_failure_gives_up(s, op, "cache row vanished mid-flush"@, sum);
}

/// Once the operation in hand has had its answers, what became of it is entered in the
/// tables and the counters. Beyond that nothing changes but the text of its task's rows,
/// into which the changes that still wait are brought again.
pub proof fn law_hand_is_settled(
    s: StoreV,
    calendar_url: Seq<char>,
    h: HandV,
    sum: FlushSummaryV,
    replies: Seq<ReplyV>,
)
    ensures
        match asked_of(h, calendar_url, replies) {
            StepV::Send(r) => hand_next(s, calendar_url, h, sum, replies) == Ok::<
                (StoreV, FlushSummaryV, FlushActionV),
                FailureV,
            >((s, sum, FlushActionV::Send(r))),
            StepV::Done(o) => match outcome_applied(s, h.op, o, sum) {
                Err(e) => hand_next(s, calendar_url, h, sum, replies) == Err::<
                    (StoreV, FlushSummaryV, FlushActionV),
                    FailureV,
                >(e),
                Ok(done) => hand_next(s, calendar_url, h, sum, replies) matches Ok(next) && {
                    &&& next.0.ops == done.0.ops && next.0.calendars == done.0.calendars
                        && next.0.last_op_id == done.0.last_op_id
                    &&& next.1 == done.1
                    &&& next.2 == if done.2 {
                        FlushActionV::Continue
                    } else {
                        FlushActionV::Finished
                    }
                    &&& next.0.tasks.len() == done.0.tasks.len()
                    &&& forall|i: int|
                        0 <= i < done.0.tasks.len() ==> {
                            let old = done.0.tasks[i];
                            let new = #[trigger] next.0.tasks[i];
                            if is_row_of(old, h.op) {
                                new == (TaskRowV { ical_text: new.ical_text, ..old })
                            } else {
                                new == old
                            }
                        }
                },
            },
        },
        asked_of(h, calendar_url, replies) == crate::queue::dispatched_on(
            h.row,
            calendar_url,
            h.op,
            replies,
            h.stamp,
        ),
{
}

/// The row that an operation is about is the first one of its task in its list.
pub proof fn law_row_of_operation(s: StoreV, op: PendingOpV, k: int)
    requires
        is_first_row(s.tasks, k, op.target_calendar_href, op.target_uid),
    ensures
        row_of(s, op) == Some(s.tasks[k]),
{
    let p = of_uid(op.target_calendar_href, op.target_uid);
    assert forall|i: int| 0 <= i < k implies !p(#[trigger] s.tasks[i]) by {}
    lemma_find_is(s.tasks, p, k as nat);
}

/// A change of a task is open: a toggle or an edit that waits, or one that was given up over
/// a conflict that the user can resolve.
pub open spec fn is_open(o: PendingOpV) -> bool {
    &&& o.op_type == "toggle"@ || o.op_type == "edit"@
    &&& o.errored == 0 || (o.errored == 1 && (o.last_error matches Some(m) && holds(
        ascii_lower(m),
        "double-412"@,
    )))
}

/// A pull leaves a row alone whose task has an open change, unless the server no longer has
/// the task.
pub proof fn law_open_change_keeps_row(
    s: StoreV,
    cal: Seq<char>,
    d: SyncDeltaV,
    full: bool,
    at: i64,
    k: int,
    j: int,
)
    requires
        s.wf(),
        0 <= k < s.tasks.len(),
        s.tasks[k].calendar_href == cal,
        0 <= j < s.ops.len(),
        s.ops[j].target_calendar_href == cal,
        s.ops[j].target_uid == s.tasks[k].uid,
        is_open(s.ops[j]),
        full ==> exists|i: int|
            0 <= i < d.added_or_updated.len() && (#[trigger] d.added_or_updated[i]).href
                == s.tasks[k].href,
        !full ==> !d.deleted_hrefs.contains(s.tasks[k].href),
    ensures
        reconciled(s, cal, d, full, at).tasks.contains(s.tasks[k]),
{
    let p = open_change_on(cal, s.tasks[k].uid);
    let o = s.ops[j];
    if o.errored == 1 {
        let m = ascii_lower(o.last_error->Some_0);
        lemma_holds(m, "double-412"@);
    }
    assert(p(o));
    lemma_find(s.ops, p, 0);
    if full {
        let i = choose|i: int|
            0 <= i < d.added_or_updated.len() && (#[trigger] d.added_or_updated[i]).href
                == s.tasks[k].href;
        assert(record_hrefs(d.added_or_updated)[i] == s.tasks[k].href);
    }
    crate::list_laws::law_pull_keeps_users_version(s, cal, d, full, at, k);
}

proof fn lemma_put_leaves(
    s: StoreV,
    cal: Seq<char>,
    recs: Seq<TaskRecordV>,
    n: nat,
    r: TaskRowV,
)
    requires
        n <= recs.len(),
        s.tasks.contains(r),
        forall|i: int| 0 <= i < recs.len() ==> (#[trigger] recs[i]).href != r.href,
    ensures
        records_put(s.tasks, s.ops, cal, recs, n).contains(r),
    decreases n,
{
    if n > 0 {
        let m = (n - 1) as nat;
        lemma_put_leaves(s, cal, recs, m, r);
        let before = records_put(s.tasks, s.ops, cal, recs, m);
        let after = records_put(s.tasks, s.ops, cal, recs, n);
        let rec = recs[m as int];
        lemma_find(before, keyed(cal, rec.href), 0);
        let i = choose|i: int| 0 <= i < before.len() && before[i] == r;
        assert(after[i] == r);
    }
}

/// A pull of what changed leaves every row alone of which the server reports nothing.
pub proof fn law_unreported_row_stays(
    s: StoreV,
    cal: Seq<char>,
    d: SyncDeltaV,
    at: i64,
    r: TaskRowV,
)
    requires
        s.tasks.contains(r),
        forall|i: int|
            0 <= i < d.added_or_updated.len() ==> (#[trigger] d.added_or_updated[i]).href != r.href,
        !d.deleted_hrefs.contains(r.href),
    ensures
        reconciled(s, cal, d, false, at).tasks.contains(r),
{
    let recs = d.added_or_updated;
    lemma_put_leaves(s, cal, recs, recs.len(), r);
    let put = records_put(s.tasks, s.ops, cal, recs, recs.len());
    lemma_taken_stays(put, cal, d.deleted_hrefs, d.deleted_hrefs.len(), r);
}

} // verus!
