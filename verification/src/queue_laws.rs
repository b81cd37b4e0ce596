//! What holds of the queue and the cache for every state of the tables.
use vstd::prelude::*;
use crate::db::{
    create_queued, delete_queued, edit_queued, pending_href, queued, status_name, status_named,
    toggle_queued,
};
use crate::exchange::{delete_exchange, put_exchange, reapplied, ChangeV};
use crate::failure::FailureV;
use crate::http::{
    delete_meaning, get_meaning, put_meaning, DeleteOutcome, ReplyV, StepV, WriteOutcomeV,
};
use crate::pending::{
    blocked_by, cleared, drainable, errored_kind, given_up, lost_change_in, not_abandoned,
    not_given_up, op_other_than, op_struck, pulled_anew, resolvable, revived, uid_errored,
};
use crate::queue::{
    classified, completed, dispatched, flush_next, lemma_outcome_conserves, outcome_applied,
    workload, ExecOutcomeV, FlushSummaryV, MAX_STRIKES,
};
use crate::seqs::{count, find, first, lemma_filter_empty, lemma_filter_mem, lemma_find};
use crate::store::{live_of_uid, of_uid, op_with_id, PendingOpV, StoreV, TaskRowV};
use crate::task::{flipped, toggled, TaskStatus};
use crate::text::{ascii_lower, has_sub, stands_at};

verus! {

// --- The order of the queue ---

/// The queue is drained first in, first out: of the operations that wait, the one
/// with the lowest number is next.
pub proof fn law_fifo(s: StoreV)
    requires
        s.wf(),
    ensures
        match first(s.ops, drainable()) {
            Some(op) => op.errored == 0 && s.ops.contains(op) && forall|i: int|
                0 <= i < s.ops.len() && (#[trigger] s.ops[i]).errored == 0 ==> op.id
                    <= s.ops[i].id,
            None => forall|i: int| 0 <= i < s.ops.len() ==> (#[trigger] s.ops[i]).errored != 0,
        },
{
    lemma_find(s.ops, drainable(), 0);
    let k = find(s.ops, drainable(), 0) as int;
    if k < s.ops.len() {
        assert(s.ops.contains(s.ops[k]));
        assert forall|i: int| 0 <= i < s.ops.len() && (#[trigger] s.ops[i]).errored == 0 implies
            s.ops[k].id <= s.ops[i].id by {
            if i < k {
                assert(!drainable()(s.ops[i]));
            }
        }
    } else {
        assert forall|i: int| 0 <= i < s.ops.len() implies (#[trigger] s.ops[i]).errored != 0 by {
            assert(!drainable()(s.ops[i]));
        }
    }
}

/// A newly queued operation is behind every other one, under a number that none
/// has had.
pub proof fn law_queue_appends(
    s: StoreV,
    op_type: Seq<char>,
    uid: Seq<char>,
    cal: Seq<char>,
    payload: Option<Seq<char>>,
    at: int,
)
    requires
        s.wf(),
    ensures
        match queued(s, op_type, uid, cal, payload, at) {
            Ok(done) => {
                &&& done.0.wf()
                &&& done.0.ops.len() == s.ops.len() + 1
                &&& done.0.ops.drop_last() == s.ops
                &&& done.0.ops.last().id == done.1
                &&& done.0.ops.last().errored == 0
                &&& forall|i: int| 0 <= i < s.ops.len() ==> (#[trigger] s.ops[i]).id < done.1
                &&& done.0.tasks == s.tasks
            },
            Err(_) => s.last_op_id == i64::MAX,
        },
{
    if s.last_op_id < i64::MAX {
        let done = queued(s, op_type, uid, cal, payload, at)->Ok_0;
        assert(done.0.ops.drop_last() =~= s.ops);
    }
}

// --- Optimistic changes ---

/// A queued create shows at once: the list's cache has the task under its
/// identifier, visible, with its summary, and every other row as it was.
pub proof fn law_create_shows(
    s: StoreV,
    cal: Seq<char>,
    uid: Seq<char>,
    summary: Seq<char>,
    due: Option<Seq<char>>,
    now: Seq<char>,
    at: int,
)
    requires
        s.wf(),
        create_queued(s, cal, uid, summary, due, None, now, at) is Ok,
    ensures
        ({
            let t = create_queued(s, cal, uid, summary, due, None, now, at)->Ok_0.0;
            let row = t.tasks.last();
            &&& t.tasks.drop_last() == s.tasks
            &&& live_of_uid(cal, uid)(row)
            &&& row.href == pending_href(uid)
            &&& row.etag == ""@
            &&& row.summary == summary
            &&& row.due == due
            &&& row.status == Some("needs-action"@)
            &&& t.ops.last().op_type == "create"@
            &&& t.ops.last().target_uid == uid
            &&& t.ops.last().target_calendar_href == cal
        }),
{
    let t = create_queued(s, cal, uid, summary, due, None, now, at)->Ok_0.0;
    assert(t.tasks.drop_last() =~= s.tasks);
}

/// A queued toggle changes the text and the status of one visible row of the task
/// and nothing else in the cache.
pub proof fn law_toggle_changes_one_row(
    s: StoreV,
    cal: Seq<char>,
    uid: Seq<char>,
    now: Seq<char>,
    at: int,
)
    requires
        toggle_queued(s, cal, uid, now, at) is Ok,
    ensures
        ({
            let t = toggle_queued(s, cal, uid, now, at)->Ok_0.0;
            let k = find(s.tasks, live_of_uid(cal, uid), 0) as int;
            let old = s.tasks[k];
            let new = t.tasks[k];
            &&& 0 <= k < s.tasks.len()
            &&& t.tasks.len() == s.tasks.len()
            &&& forall|i: int| 0 <= i < s.tasks.len() && i != k ==> #[trigger] t.tasks[i]
                == s.tasks[i]
            &&& new == TaskRowV { ical_text: new.ical_text, status: new.status, ..old }
            &&& toggled(old.ical_text, now) is Ok
            &&& new.ical_text == toggled(old.ical_text, now)->Ok_0.0
            &&& new.status == Some(status_name(toggled(old.ical_text, now)->Ok_0.2))
        }),
{
    lemma_find(s.tasks, live_of_uid(cal, uid), 0);
}

/// A queued edit shows at once: one visible row of the task has the new summary,
/// and nothing else in the cache changes but its text and due date.
pub proof fn law_edit_changes_one_row(
    s: StoreV,
    cal: Seq<char>,
    uid: Seq<char>,
    summary: Seq<char>,
    due: Option<Seq<char>>,
    now: Seq<char>,
    at: int,
)
    requires
        edit_queued(s, cal, uid, summary, due, now, at) is Ok,
    ensures
        ({
            let t = edit_queued(s, cal, uid, summary, due, now, at)->Ok_0.0;
            let k = find(s.tasks, live_of_uid(cal, uid), 0) as int;
            let new = t.tasks[k];
            &&& 0 <= k < s.tasks.len()
            &&& t.tasks.len() == s.tasks.len()
            &&& forall|i: int| 0 <= i < s.tasks.len() && i != k ==> #[trigger] t.tasks[i]
                == s.tasks[i]
            &&& new == TaskRowV { ical_text: new.ical_text, summary, due: new.due, ..s.tasks[k] }
            &&& due is None ==> new.due == s.tasks[k].due
        }),
{
    lemma_find(s.tasks, live_of_uid(cal, uid), 0);
}

/// A queued delete hides the task: no visible row of the list has its identifier,
/// though the row is still there.
pub proof fn law_delete_hides(s: StoreV, cal: Seq<char>, uid: Seq<char>, at: int)
    requires
        delete_queued(s, cal, uid, at) is Ok,
    ensures
        ({
            let t = delete_queued(s, cal, uid, at)->Ok_0.0;
            &&& t.tasks.len() == s.tasks.len()
            &&& forall|i: int| 0 <= i < t.tasks.len() ==> !live_of_uid(cal, uid)(#[trigger] t.tasks[i])
            &&& find(t.tasks, of_uid(cal, uid), 0) < t.tasks.len()
        }),
{
    let p = live_of_uid(cal, uid);
    let t = delete_queued(s, cal, uid, at)->Ok_0.0;
    let k = find(s.tasks, p, 0) as int;
    lemma_find(s.tasks, p, 0);
    lemma_filter_empty(s.tasks, p);
    assert forall|i: int| 0 <= i < t.tasks.len() implies !p(#[trigger] t.tasks[i]) by {
        if i != k {
            assert(t.tasks[i] == s.tasks[i]);
            if p(s.tasks[i]) {
                lemma_two_satisfy(s.tasks, p, k, i);
            }
        }
    }
    lemma_find(t.tasks, of_uid(cal, uid), 0);
    assert(of_uid(cal, uid)(t.tasks[k]));
}

/// Two elements that satisfy `p` make a count of at least two.
proof fn lemma_two_satisfy<T>(s: Seq<T>, p: spec_fn(T) -> bool, i: int, j: int)
    requires
        0 <= i < s.len(),
        0 <= j < s.len(),
        i != j,
        p(s[i]),
        p(s[j]),
    ensures
        count(s, p) >= 2,
    decreases s.len(),
{
    reveal(Seq::filter);
    let d = s.drop_last();
    let last = s.len() - 1;
    if i == last {
        assert(d[j] == s[j]);
        lemma_filter_empty(d, p);
    } else if j == last {
        assert(d[i] == s[i]);
        lemma_filter_empty(d, p);
    } else {
        assert(d[i] == s[i] && d[j] == s[j]);
        lemma_two_satisfy(d, p, i, j);
    }
}

// --- Failures ---

/// A cascade gives up exactly what waits for the task: an operation on another
/// task, or one given up before, stays as it was.
pub proof fn law_cascade_scope(ops: Seq<PendingOpV>, uid: Seq<char>, op_type: Seq<char>)
    ensures
        ({
            let after = uid_errored(ops, uid, blocked_by(op_type));
            &&& after.len() == ops.len()
            &&& forall|i: int|
                0 <= i < ops.len() && (ops[i].target_uid != uid || ops[i].errored != 0)
                    ==> #[trigger] after[i] == ops[i]
            &&& forall|i: int|
                0 <= i < ops.len() && ops[i].target_uid == uid && ops[i].errored == 0
                    ==> (#[trigger] after[i]).errored == 1 && after[i].last_error == Some(
                    blocked_by(op_type),
                ) && after[i].id == ops[i].id
            &&& forall|i: int|
                0 <= i < ops.len() ==> !((#[trigger] after[i]).target_uid == uid
                    && after[i].errored == 0)
        }),
{
}

/// An operation that waits has failed fewer than five times.
pub open spec fn strikes_bounded(ops: Seq<PendingOpV>) -> bool {
    forall|i: int|
        0 <= i < ops.len() && (#[trigger] ops[i]).errored == 0 ==> ops[i].error_count < MAX_STRIKES
}

/// The five-strike rule: whatever becomes of an operation, what still waits has
/// failed fewer than five times.
pub proof fn law_five_strikes(s: StoreV, op: PendingOpV, o: ExecOutcomeV, sum: FlushSummaryV)
    requires
        s.wf(),
        strikes_bounded(s.ops),
        s.ops.contains(op),
    ensures
        outcome_applied(s, op, o, sum) matches Ok(done) ==> strikes_bounded(done.0.ops),
{
    let k = choose|k: int| 0 <= k < s.ops.len() && s.ops[k] == op;
    match outcome_applied(s, op, o, sum) {
        Ok(done) => {
            let after = done.0.ops;
            match o {
                ExecOutcomeV::SuccessCreate { task_url, etag, ical_text } => {
                    lemma_filter_keeps_bound(s.ops, op_other_than(op.id));
                },
                ExecOutcomeV::SuccessUpdate { new_etag, new_ical, retried } => {
                    lemma_filter_keeps_bound(s.ops, op_other_than(op.id));
                },
                ExecOutcomeV::SuccessDelete { retried } => {
                    lemma_filter_keeps_bound(s.ops, op_other_than(op.id));
                },
                ExecOutcomeV::Transient(msg) => {
                    let struck = op_struck(s.ops, op.id, msg);
                    lemma_find(s.ops, op_with_id(op.id), 0);
                    let f = find(s.ops, op_with_id(op.id), 0) as int;
                    assert(op_with_id(op.id)(s.ops[k]));
                    assert forall|i: int|
                        0 <= i < after.len() && (#[trigger] after[i]).errored == 0 implies after[i].error_count
                        < MAX_STRIKES by {
                        if s.ops[i].id == op.id {
                            // ids are distinct, so this is the operation that was struck
                            if i < f {
                                assert(s.ops[i].id < s.ops[f].id);
                            } else if f < i {
                                assert(s.ops[f].id < s.ops[i].id);
                            }
                        }
                    }
                },
                ExecOutcomeV::Terminal(msg) => {},
            }
        },
        Err(_) => {},
    }
}

proof fn lemma_filter_keeps_bound(ops: Seq<PendingOpV>, p: spec_fn(PendingOpV) -> bool)
    requires
        strikes_bounded(ops),
    ensures
        strikes_bounded(ops.filter(p)),
{
    lemma_filter_mem(ops, p);
    let f = ops.filter(p);
    assert forall|i: int| 0 <= i < f.len() && (#[trigger] f[i]).errored == 0 implies f[i].error_count
        < MAX_STRIKES by {
        assert(ops.contains(f[i]));
        let k = choose|k: int| 0 <= k < ops.len() && ops[k] == f[i];
        assert(ops[k].errored == 0);
    }
}

/// Queueing an operation keeps the five-strike rule: a new one has not failed yet.
pub proof fn law_queueing_keeps_strikes(
    s: StoreV,
    op_type: Seq<char>,
    uid: Seq<char>,
    cal: Seq<char>,
    payload: Option<Seq<char>>,
    at: int,
)
    requires
        strikes_bounded(s.ops),
    ensures
        queued(s, op_type, uid, cal, payload, at) matches Ok(done) ==> strikes_bounded(done.0.ops),
{
}

/// Clearing keeps the five-strike rule.
pub proof fn law_clearing_keeps_strikes(s: StoreV)
    requires
        strikes_bounded(s.ops),
    ensures
        strikes_bounded(cleared(s).ops),
{
    lemma_filter_keeps_bound(s.ops, not_given_up());
}

/// A failure that may pass ends the pass and leaves the operation in the queue;
/// before the fifth one it still waits.
pub proof fn law_transient_stops(s: StoreV, op: PendingOpV, msg: Seq<char>, sum: FlushSummaryV)
    requires
        s.wf(),
        s.ops.contains(op),
        op.error_count < i64::MAX,
    ensures
        ({
            let r = outcome_applied(s, op, ExecOutcomeV::Transient(msg), sum);
            &&& r is Ok
            &&& !r->Ok_0.2
            &&& r->Ok_0.0.tasks == s.tasks
            &&& r->Ok_0.0.ops.len() == s.ops.len()
            &&& op.error_count + 1 < MAX_STRIKES ==> forall|i: int|
                0 <= i < s.ops.len() ==> (#[trigger] r->Ok_0.0.ops[i]).errored == s.ops[i].errored
        }),
{
    let k = choose|k: int| 0 <= k < s.ops.len() && s.ops[k] == op;
    lemma_find(s.ops, op_with_id(op.id), 0);
    let f = find(s.ops, op_with_id(op.id), 0) as int;
    assert(op_with_id(op.id)(s.ops[k]));
    if f < k {
        assert(s.ops[f].id < s.ops[k].id);
    }
    assert(f == k);
}

/// A success removes the operation from the queue and no other one.
pub proof fn law_success_removes_one(s: StoreV, op: PendingOpV, retried: bool, sum: FlushSummaryV)
    requires
        s.wf(),
        s.ops.contains(op),
    ensures
        ({
            let r = outcome_applied(s, op, ExecOutcomeV::SuccessDelete { retried }, sum);
            &&& r is Ok
            &&& r->Ok_0.2
            &&& forall|o: PendingOpV|
                #[trigger] r->Ok_0.0.ops.contains(o) == (s.ops.contains(o) && o.id != op.id)
        }),
{
    let p = op_other_than(op.id);
    lemma_filter_mem(s.ops, p);
    let f = s.ops.filter(p);
    assert forall|o: PendingOpV| #[trigger] f.contains(o) == (s.ops.contains(o) && o.id != op.id) by {
        if f.contains(o) {
            let i = choose|i: int| 0 <= i < f.len() && f[i] == o;
            assert(p(f[i]) && s.ops.contains(f[i]));
        }
    }
}

/// Nothing is lost or counted twice in a pass: what an operation adds to the
/// counters of settled operations is what stops waiting.
pub proof fn law_pass_conserves(
    s: StoreV,
    calendar_url: Seq<char>,
    sum: FlushSummaryV,
    replies: Seq<ReplyV>,
    now: Seq<char>,
)
    requires
        s.wf(),
    ensures
        flush_next(s, calendar_url, sum, replies, now) matches Ok(next) ==> workload(
            next.1,
            next.0.ops,
        ) == workload(sum, s.ops),
{
    lemma_find(s.ops, drainable(), 0);
    match first(s.ops, drainable()) {
        None => {},
        Some(op) => match dispatched(s, calendar_url, op, replies, now) {
            StepV::Send(_) => {},
            StepV::Done(o) => {
                assert(s.ops.contains(op));
                lemma_outcome_conserves(s, op, o, sum);
            },
        },
    }
}

/// A pass ends: each time it goes on, fewer operations wait than before.
pub proof fn law_pass_ends(
    s: StoreV,
    calendar_url: Seq<char>,
    sum: FlushSummaryV,
    replies: Seq<ReplyV>,
    now: Seq<char>,
)
    requires
        s.wf(),
        flush_next(s, calendar_url, sum, replies, now) is Ok,
        flush_next(s, calendar_url, sum, replies, now)->Ok_0.2 is Continue,
    ensures
        count(flush_next(s, calendar_url, sum, replies, now)->Ok_0.0.ops, drainable()) < count(
            s.ops,
            drainable(),
        ),
{
    law_pass_conserves(s, calendar_url, sum, replies, now);
    lemma_find(s.ops, drainable(), 0);
    assert(first(s.ops, drainable()) matches Some(op) ==> s.ops.contains(op));
}

/// One outcome adds one to the operations that were flushed, that failed for now or that were
/// given up, takes nothing off any counter, and stops the pass just where the failure may
/// pass. A retry is counted with a flushed operation alone, a cascade with one given up
/// alone.
pub proof fn law_outcome_counts_once(
    s: StoreV,
    op: PendingOpV,
    o: ExecOutcomeV,
    sum: FlushSummaryV,
)
    ensures
        outcome_applied(s, op, o, sum) matches Ok(done) ==> {
            let after = done.1;
            &&& done.2 == !(o is Transient)
            &&& after.flushed + after.transient_failed + after.newly_errored == sum.flushed
                + sum.transient_failed + sum.newly_errored + 1
            &&& after.flushed >= sum.flushed
            &&& after.retried >= sum.retried
            &&& after.transient_failed >= sum.transient_failed
            &&& after.newly_errored >= sum.newly_errored
            &&& after.cascade_errored >= sum.cascade_errored
            &&& after.retried > sum.retried ==> after.flushed == sum.flushed + 1 && match o {
                ExecOutcomeV::SuccessUpdate { new_etag, new_ical, retried } => retried,
                ExecOutcomeV::SuccessDelete { retried } => retried,
                _ => false,
            }
            &&& after.cascade_errored > sum.cascade_errored ==> after.newly_errored
                == sum.newly_errored + 1
        },
{
}

/// An operation asks for at most three requests.
pub proof fn law_operation_ends(
    s: StoreV,
    calendar_url: Seq<char>,
    op: PendingOpV,
    replies: Seq<ReplyV>,
    now: Seq<char>,
)
    requires
        replies.len() >= 3,
    ensures
        dispatched(s, calendar_url, op, replies, now) is Done,
{
}

// --- Conflicts ---

/// A literal at the start of a text is found in it.
proof fn lemma_starts(s: Seq<char>, p: Seq<char>)
    requires
        p.len() <= s.len(),
        forall|i: int| 0 <= i < p.len() ==> s[i] == p[i],
    ensures
        has_sub(s, p),
{
    assert(s.subrange(0, p.len() as int) =~= p);
    assert(stands_at(s, p, 0));
}

/// A write that the server refuses, and refuses again over its newer version, is
/// given up as a conflict.
pub proof fn law_double_refusal_is_conflict(
    url: Seq<char>,
    etag: Seq<char>,
    ical: Seq<char>,
    change: ChangeV,
    replies: Seq<ReplyV>,
    now: Seq<char>,
)
    requires
        replies.len() >= 3,
        put_meaning(url, replies[0]) == Ok::<_, FailureV>(WriteOutcomeV::PreconditionFailed),
        get_meaning(url, replies[1]) is Ok,
        get_meaning(url, replies[1])->Ok_0 is Some,
        reapplied(change, get_meaning(url, replies[1])->Ok_0->Some_0.1, now) is Ok,
        put_meaning(url, replies[2]) == Ok::<_, FailureV>(WriteOutcomeV::PreconditionFailed),
    ensures
        put_exchange(url, etag, ical, change, replies, now) matches StepV::Done(Err(e))
            && classified(e) == ExecOutcomeV::Terminal("double-412 (server-side conflict)"@),
{
    let m =
        "412 Precondition Failed twice in a row -- task keeps being modified concurrently. Tap Sync, then try again."@;
    reveal_strlit(
        "412 Precondition Failed twice in a row -- task keeps being modified concurrently. Tap Sync, then try again.",
    );
    reveal_strlit("412 Precondition Failed twice in a row");
    lemma_starts(m, "412 Precondition Failed twice in a row"@);
}

/// A delete that the server refuses, and refuses again over its newer version, is
/// given up as a conflict.
pub proof fn law_double_refused_delete(url: Seq<char>, etag: Seq<char>, replies: Seq<ReplyV>)
    requires
        replies.len() >= 3,
        delete_meaning(url, replies[0]) == Ok::<_, FailureV>(DeleteOutcome::PreconditionFailed),
        get_meaning(url, replies[1]) is Ok,
        get_meaning(url, replies[1])->Ok_0 is Some,
        delete_meaning(url, replies[2]) == Ok::<_, FailureV>(DeleteOutcome::PreconditionFailed),
    ensures
        delete_exchange(url, etag, replies) matches StepV::Done(Err(e)) && classified(e)
            == ExecOutcomeV::Terminal("double-412 (server-side conflict)"@),
{
    let m =
        "412 Precondition Failed twice in a row on DELETE -- task keeps being modified concurrently. Tap Sync, then try again."@;
    reveal_strlit(
        "412 Precondition Failed twice in a row on DELETE -- task keeps being modified concurrently. Tap Sync, then try again.",
    );
    reveal_strlit("412 Precondition Failed twice in a row");
    lemma_starts(m, "412 Precondition Failed twice in a row"@);
}

/// The message of a conflict is the one that makes an operation resolvable.
proof fn lemma_conflict_message()
    ensures
        has_sub(ascii_lower("double-412 (server-side conflict)"@), "double-412"@),
{
    reveal_strlit("double-412 (server-side conflict)");
    reveal_strlit("double-412");
    let m = ascii_lower("double-412 (server-side conflict)"@);
    lemma_starts(m, "double-412"@);
}

/// A toggle or an edit that ends in a conflict is one that the user can resolve,
/// until it is resolved or cleared.
pub proof fn law_conflicts_are_resolvable(s: StoreV, k: int, sum: FlushSummaryV)
    requires
        s.wf(),
        0 <= k < s.ops.len(),
        s.ops[k].op_type == "toggle"@ || s.ops[k].op_type == "edit"@,
    ensures
        ({
            let o = ExecOutcomeV::Terminal("double-412 (server-side conflict)"@);
            let r = outcome_applied(s, s.ops[k], o, sum);
            r is Ok && resolvable()(r->Ok_0.0.ops[k]) && r->Ok_0.0.ops[k].id == s.ops[k].id
        }),
{
    lemma_conflict_message();
    let o = ExecOutcomeV::Terminal("double-412 (server-side conflict)"@);
    let r = outcome_applied(s, s.ops[k], o, sum);
    assert(r->Ok_0.0.ops[k].errored == 1);
}

/// A failure of the network is never held against an operation: it may pass.
pub proof fn law_network_may_pass(f: FailureV)
    requires
        f.network is Some,
    ensures
        classified(f) is Transient,
{
}

// --- Clearing ---

/// Clearing drops what was given up and keeps everything that waits, in order.
pub proof fn law_clear_keeps_waiting(s: StoreV)
    requires
        s.wf(),
    ensures
        forall|o: PendingOpV|
            #[trigger] cleared(s).ops.contains(o) == (s.ops.contains(o) && o.errored == 0),
        count(cleared(s).ops, given_up()) == 0,
{
    let f = s.ops.filter(not_given_up());
    lemma_filter_mem(s.ops, not_given_up());
    assert forall|o: PendingOpV| #[trigger] f.contains(o) == (s.ops.contains(o) && o.errored == 0) by {
        if f.contains(o) {
            let i = choose|i: int| 0 <= i < f.len() && f[i] == o;
            assert(not_given_up()(f[i]) && s.ops.contains(f[i]));
            let k = choose|k: int| 0 <= k < s.ops.len() && s.ops[k] == o;
            assert(s.ops[k].errored == 0 || s.ops[k].errored == 1);
        }
    }
    assert forall|i: int| 0 <= i < f.len() implies !given_up()(#[trigger] f[i]) by {
        assert(not_given_up()(f[i]));
    }
    lemma_filter_empty(f, given_up());
}

/// Filtering by a predicate that everything satisfies changes nothing.
proof fn lemma_filter_all<T>(s: Seq<T>, p: spec_fn(T) -> bool)
    requires
        forall|i: int| 0 <= i < s.len() ==> p(#[trigger] s[i]),
    ensures
        s.filter(p) == s,
    decreases s.len(),
{
    reveal(Seq::filter);
    if s.len() > 0 {
        let d = s.drop_last();
        assert forall|i: int| 0 <= i < d.len() implies p(#[trigger] d[i]) by {
            assert(d[i] == s[i]);
        }
        lemma_filter_all(d, p);
        assert(p(s[s.len() - 1]));
        assert(d.push(s.last()) =~= s);
    } else {
        assert(s.filter(p) =~= s);
    }
}

/// Clearing twice is clearing once.
pub proof fn law_clear_idempotent(s: StoreV)
    ensures
        cleared(cleared(s)) == cleared(s),
{
    let t = cleared(s);
    lemma_filter_mem(s.ops, not_given_up());
    assert forall|i: int| 0 <= i < t.ops.len() implies not_given_up()(#[trigger] t.ops[i]) by {}
    lemma_filter_all(t.ops, not_given_up());
    let raised = revived(t.tasks, t.ops);
    assert(raised =~= t.tasks) by {
        assert forall|i: int| 0 <= i < t.tasks.len() implies #[trigger] raised[i] == t.tasks[i] by {
            assert(!errored_kind(t.ops, "delete"@, t.tasks[i].uid)) by {
                assert forall|j: int| 0 <= j < t.ops.len() implies (#[trigger] t.ops[j]).errored
                    != 1 by {
                    assert(not_given_up()(t.ops[j]));
                }
            }
        }
    }
    assert forall|i: int| 0 <= i < t.tasks.len() implies not_abandoned(t.ops)(
        #[trigger] t.tasks[i],
    ) by {
        assert forall|j: int| 0 <= j < t.ops.len() implies (#[trigger] t.ops[j]).errored != 1 by {
            assert(not_given_up()(t.ops[j]));
        }
    }
    lemma_filter_all(t.tasks, not_abandoned(t.ops));
    assert(pulled_anew(t.calendars, t.ops) =~= t.calendars) by {
        assert forall|i: int| 0 <= i < t.calendars.len() implies find(
            t.ops,
            lost_change_in((#[trigger] t.calendars[i]).href),
            0,
        ) >= t.ops.len() by {
            let q = lost_change_in(t.calendars[i].href);
            lemma_find(t.ops, q, 0);
            let f = find(t.ops, q, 0) as int;
            if f < t.ops.len() {
                assert(not_given_up()(t.ops[f]));
            }
        }
    }
}

// --- Toggling ---

/// A toggle leads to a completed task exactly where the task was not completed.
pub proof fn law_toggle_flips(text: Seq<char>, now: Seq<char>)
    ensures
        toggled(text, now) matches Ok(t) ==> (t.2 == TaskStatus::Completed) == (t.1
            != TaskStatus::Completed),
{
}

/// Toggling back and forth between the two states that a toggle leads to.
pub proof fn law_toggle_twice(s: TaskStatus)
    ensures
        flipped(flipped(flipped(s))) == flipped(s),
        s == TaskStatus::Completed || s == TaskStatus::NeedsAction ==> flipped(flipped(s)) == s,
{
}

/// The name of a status in the tables reads back as that status.
pub proof fn law_status_reads_back(s: TaskStatus)
    ensures
        status_named(Some(status_name(s))) == s,
{
    reveal_strlit("needs-action");
    reveal_strlit("in-process");
    reveal_strlit("completed");
    reveal_strlit("cancelled");
    reveal_strlit("unknown");
    let a = "needs-action"@;
    let b = "in-process"@;
    let c = "completed"@;
    let d = "cancelled"@;
    let e = "unknown"@;
    assert(a[0] == 'n' && b[0] == 'i' && c[0] == 'c' && d[0] == 'c' && e[0] == 'u');
    assert(c[1] == 'o' && d[1] == 'a');
}

} // verus!
