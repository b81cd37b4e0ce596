//! What the user wants of a task is what the cache holds of it: the text of a task holds
//! every change of it that waits for the server, from the moment that the change is queued,
//! whatever else is queued or settled before its turn.
use vstd::prelude::*;
use crate::cache::not_of_uid;
use crate::db::{edit_queued, payload_of, payload_reads, toggle_queued};
use crate::exchange::ChangeV;
use crate::http::{ReplyV, StepV};
use crate::list_laws::lemma_pulled_rows;
use crate::multistatus::SyncDeltaV;
use crate::pending::{
    lemma_filter_ops, op_errored, op_flagged, op_other_than, op_struck, open_change_on,
};
use crate::queue::{
    abandoned, asked_of, change_of, hand_next, has_row, toggle_goal, waits, waits_on, ExecOutcomeV,
    FlushSummaryV, HandV,
};
use crate::reconcile::reconciled;
use crate::rewrite_laws::{one_line, whole_lines};
use crate::seqs::{find, lemma_filter_mem, lemma_find};
use crate::store::{live_of_uid, of_uid, PendingOpV, StoreV};
use crate::task::toggled;
use crate::task_laws::{
    law_edited_has_edit, law_edited_keeps_toggle, law_toggled_has_toggle, law_toggled_keeps_edit,
    no_return,
};
use crate::write_laws::{
    fits_a_line, holds_change, lemma_waiting_held, stands_till, waiting_fit, written_text,
};

verus! {

/// An operation that waits for a task with a change that no later one replaces. A toggle is
/// not replaced: all toggles of a task lead to the same status.
pub open spec fn last_word(s: StoreV, cal: Seq<char>, uid: Seq<char>, op: PendingOpV) -> bool {
    &&& s.ops.contains(op)
    &&& waits_on(cal, uid)(op)
    &&& change_of(op) is Some
    &&& change_of(op)->Some_0 is Edit ==> forall|o: PendingOpV|
        #![trigger s.ops.contains(o)]
        s.ops.contains(o) && waits_on(cal, uid)(o) && o.id > op.id ==> !(change_of(o) matches Some(
            ChangeV::Edit { .. },
        ))
}

/// The text of a task holds every change that waits for it, but for an edit that a later
/// one replaces.
pub open spec fn intent_kept(s: StoreV, cal: Seq<char>, uid: Seq<char>) -> bool {
    forall|i: int, op: PendingOpV|
        #![trigger s.tasks[i], last_word(s, cal, uid, op)]
        0 <= i < s.tasks.len() && of_uid(cal, uid)(s.tasks[i]) && last_word(s, cal, uid, op)
            ==> holds_change(
            s.tasks[i].ical_text,
            s.tasks[i].status,
            change_of(op)->Some_0,
        )
}

/// The row that a change of the task is queued on is its only one.
pub open spec fn one_live_row(s: StoreV, cal: Seq<char>, uid: Seq<char>) -> bool {
    forall|i: int|
        0 <= i < s.tasks.len() && of_uid(cal, uid)(#[trigger] s.tasks[i]) ==> i == find(
            s.tasks,
            live_of_uid(cal, uid),
            0,
        )
}

proof fn lemma_kinds_differ()
    ensures
        "edit"@ != "toggle"@,
{
    reveal_strlit("edit");
    reveal_strlit("toggle");
    assert("edit"@.len() != "toggle"@.len());
}

/// Queueing an edit keeps what the user wants: the edit is in the text, and so are the
/// toggles that wait.
pub proof fn law_queued_edit_keeps_intent(
    s: StoreV,
    cal: Seq<char>,
    uid: Seq<char>,
    summary: Seq<char>,
    due: Option<Seq<char>>,
    now: Seq<char>,
    at: int,
)
    requires
        s.wf(),
        intent_kept(s, cal, uid),
        one_live_row(s, cal, uid),
        edit_queued(s, cal, uid, summary, due, now, at) is Ok,
        payload_reads(Some(payload_of(summary, due)), summary, due),
        whole_lines(s.tasks[find(s.tasks, live_of_uid(cal, uid), 0) as int].ical_text),
        no_return(summary),
        due is Some ==> no_return(due->Some_0),
        one_line(now),
    ensures
        intent_kept(edit_queued(s, cal, uid, summary, due, now, at)->Ok_0.0, cal, uid),
{
    let t = edit_queued(s, cal, uid, summary, due, now, at)->Ok_0.0;
    let k = find(s.tasks, live_of_uid(cal, uid), 0) as int;
    let new = t.ops.last();
    lemma_find(s.tasks, live_of_uid(cal, uid), 0);
    lemma_kinds_differ();
    law_edited_has_edit(s.tasks[k].ical_text, summary, due, now);
    assert(t.ops[s.ops.len() as int] == new);
    assert(t.ops.contains(new));
    assert(change_of(new) == Some(ChangeV::Edit { summary, due }));
    assert forall|i: int, op: PendingOpV|
        #![trigger t.tasks[i], last_word(t, cal, uid, op)]
        0 <= i < t.tasks.len() && of_uid(cal, uid)(t.tasks[i]) && last_word(
            t,
            cal,
            uid,
            op,
        ) implies holds_change(
        t.tasks[i].ical_text,
        t.tasks[i].status,
        change_of(op)->Some_0,
    ) by {
        assert(of_uid(cal, uid)(s.tasks[i]));
        assert(i == k);
        if op != new {
            let j = choose|j: int| 0 <= j < t.ops.len() && t.ops[j] == op;
            assert(s.ops[j] == op);
            assert(s.ops.contains(op));
            assert(op.id < new.id);
            assert(change_of(op)->Some_0 is Toggle);
            assert(last_word(s, cal, uid, op));
            assert(holds_change(
                s.tasks[k].ical_text,
                s.tasks[k].status,
                change_of(op)->Some_0,
            ));
            law_edited_keeps_toggle(
                s.tasks[k].ical_text,
                summary,
                due,
                now,
                toggle_goal(s.tasks[k].status),
            );
        }
    }
}

/// Queueing a toggle keeps what the user wants: the toggle is in the text, and so is the
/// edit that waits.
pub proof fn law_queued_toggle_keeps_intent(
    s: StoreV,
    cal: Seq<char>,
    uid: Seq<char>,
    now: Seq<char>,
    at: int,
)
    requires
        s.wf(),
        intent_kept(s, cal, uid),
        one_live_row(s, cal, uid),
        toggle_queued(s, cal, uid, now, at) is Ok,
        whole_lines(s.tasks[find(s.tasks, live_of_uid(cal, uid), 0) as int].ical_text),
        waiting_fit(s.ops, cal, uid),
        one_line(now),
    ensures
        intent_kept(toggle_queued(s, cal, uid, now, at)->Ok_0.0, cal, uid),
{
    let t = toggle_queued(s, cal, uid, now, at)->Ok_0.0;
    let k = find(s.tasks, live_of_uid(cal, uid), 0) as int;
    let new = t.ops.last();
    let to = toggled(s.tasks[k].ical_text, now)->Ok_0.2;
    lemma_find(s.tasks, live_of_uid(cal, uid), 0);
    lemma_kinds_differ();
    law_toggled_has_toggle(s.tasks[k].ical_text, now);
    reveal_strlit("needs-action");
    reveal_strlit("completed");
    assert("needs-action"@.len() != "completed"@.len());
    assert(toggle_goal(t.tasks[k].status) == to);
    assert(t.ops[s.ops.len() as int] == new);
    assert forall|i: int, op: PendingOpV|
        #![trigger t.tasks[i], last_word(t, cal, uid, op)]
        0 <= i < t.tasks.len() && of_uid(cal, uid)(t.tasks[i]) && last_word(
            t,
            cal,
            uid,
            op,
        ) implies holds_change(
        t.tasks[i].ical_text,
        t.tasks[i].status,
        change_of(op)->Some_0,
    ) by {
        assert(of_uid(cal, uid)(s.tasks[i]));
        assert(i == k);
        match change_of(op)->Some_0 {
            ChangeV::Toggle => {},
            ChangeV::Edit { summary, due } => {
                let j = choose|j: int| 0 <= j < t.ops.len() && t.ops[j] == op;
                assert(op != new);
                assert(s.ops[j] == op);
                assert(s.ops.contains(op));
                assert forall|o: PendingOpV|
                    #![trigger s.ops.contains(o)]
                    s.ops.contains(o) && waits_on(cal, uid)(o) && o.id > op.id implies !(change_of(
                    o,
                ) matches Some(ChangeV::Edit { .. })) by {
                    let b = choose|b: int| 0 <= b < s.ops.len() && s.ops[b] == o;
                    assert(t.ops[b] == o);
                    assert(t.ops.contains(o));
                }
                assert(last_word(s, cal, uid, op));
                assert(waits_on(cal, uid)(s.ops[j]));
                assert(holds_change(
                    s.tasks[k].ical_text,
                    s.tasks[k].status,
                    change_of(op)->Some_0,
                ));
                law_toggled_keeps_edit(s.tasks[k].ical_text, now, summary, due);
            },
        }
    }
}

/// The last words in the second queue are last words in the first.
spec fn words_stay(s: StoreV, t: StoreV, cal: Seq<char>, uid: Seq<char>) -> bool {
    forall|op: PendingOpV| #[trigger]
        last_word(t, cal, uid, op) ==> exists|was: PendingOpV| #[trigger]
            last_word(s, cal, uid, was) && change_of(was) == change_of(op)
}

/// The rows of a task in the second cache are rows in the first.
spec fn rows_stay(s: StoreV, t: StoreV, cal: Seq<char>, uid: Seq<char>) -> bool {
    forall|i: int|
        0 <= i < t.tasks.len() && of_uid(cal, uid)(#[trigger] t.tasks[i]) ==> s.tasks.contains(
            t.tasks[i],
        )
}

proof fn lemma_intent_stays(s: StoreV, t: StoreV, cal: Seq<char>, uid: Seq<char>)
    requires
        intent_kept(s, cal, uid),
        words_stay(s, t, cal, uid),
        rows_stay(s, t, cal, uid),
    ensures
        intent_kept(t, cal, uid),
{
    assert forall|i: int, op: PendingOpV|
        #![trigger t.tasks[i], last_word(t, cal, uid, op)]
        0 <= i < t.tasks.len() && of_uid(cal, uid)(t.tasks[i]) && last_word(
            t,
            cal,
            uid,
            op,
        ) implies holds_change(
        t.tasks[i].ical_text,
        t.tasks[i].status,
        change_of(op)->Some_0,
    ) by {
        let was = choose|was: PendingOpV| #[trigger]
            last_word(s, cal, uid, was) && change_of(was) == change_of(op);
        let j = choose|j: int| 0 <= j < s.tasks.len() && s.tasks[j] == t.tasks[i];
        assert(of_uid(cal, uid)(s.tasks[j]));
    }
}

/// The operations, marked: each keeps its number, its task and its change, and none waits
/// that did not. Of the task, all that waited wait, or none does.
spec fn marked(s: StoreV, t: StoreV, cal: Seq<char>, uid: Seq<char>) -> bool {
    &&& t.ops.len() == s.ops.len()
    &&& forall|i: int| #![trigger t.ops[i]] #![trigger s.ops[i]]
        0 <= i < s.ops.len() ==> t.ops[i].id == s.ops[i].id && change_of(t.ops[i]) == change_of(
            s.ops[i],
        ) && (waits_on(cal, uid)(t.ops[i]) ==> waits_on(cal, uid)(s.ops[i]))
    &&& (forall|i: int| 0 <= i < s.ops.len() ==> !waits_on(cal, uid)(#[trigger] t.ops[i])) || (
    forall|i: int|
        0 <= i < s.ops.len() && waits_on(cal, uid)(#[trigger] s.ops[i]) ==> waits_on(cal, uid)(
            t.ops[i],
        ))
}

proof fn lemma_marked_words(s: StoreV, t: StoreV, cal: Seq<char>, uid: Seq<char>)
    requires
        marked(s, t, cal, uid),
    ensures
        words_stay(s, t, cal, uid),
{
    assert forall|op: PendingOpV| #[trigger] last_word(t, cal, uid, op) implies exists|
        was: PendingOpV,
    | #[trigger] last_word(s, cal, uid, was) && change_of(was) == change_of(op) by {
        let i = choose|i: int| 0 <= i < t.ops.len() && t.ops[i] == op;
        let was = s.ops[i];
        assert(waits_on(cal, uid)(t.ops[i]));
        assert(s.ops.contains(was));
        assert forall|o: PendingOpV|
            #![trigger s.ops.contains(o)]
            change_of(was)->Some_0 is Edit && s.ops.contains(o) && waits_on(cal, uid)(o) && o.id
                > was.id implies !(change_of(o) matches Some(ChangeV::Edit { .. })) by {
            let j = choose|j: int| 0 <= j < s.ops.len() && s.ops[j] == o;
            assert(waits_on(cal, uid)(t.ops[j]));
            assert(t.ops.contains(t.ops[j]));
        }
        assert(last_word(s, cal, uid, was));
    }
}

/// One operation less: the last words of other tasks stay.
proof fn lemma_removed_words(s: StoreV, t: StoreV, h: PendingOpV, cal: Seq<char>, uid: Seq<char>)
    requires
        s.wf(),
        waits(s, h),
        t.ops == s.ops.filter(op_other_than(h.id)),
        !(cal == h.target_calendar_href && uid == h.target_uid),
    ensures
        words_stay(s, t, cal, uid),
{
    lemma_filter_mem(s.ops, op_other_than(h.id));
    let a = choose|a: int| 0 <= a < s.ops.len() && s.ops[a] == h;
    assert forall|op: PendingOpV| #[trigger] last_word(t, cal, uid, op) implies exists|
        was: PendingOpV,
    | #[trigger] last_word(s, cal, uid, was) && change_of(was) == change_of(op) by {
        let i = choose|i: int| 0 <= i < t.ops.len() && t.ops[i] == op;
        assert(s.ops.contains(t.ops[i]));
        assert forall|o: PendingOpV|
            #![trigger s.ops.contains(o)]
            change_of(op)->Some_0 is Edit && s.ops.contains(o) && waits_on(cal, uid)(o) && o.id
                > op.id implies !(change_of(o) matches Some(ChangeV::Edit { .. })) by {
            let b = choose|b: int| 0 <= b < s.ops.len() && s.ops[b] == o;
            if o.id == h.id {
                if a < b {
                    assert(s.ops[a].id < s.ops[b].id);
                } else if b < a {
                    assert(s.ops[b].id < s.ops[a].id);
                }
            }
            assert(op_other_than(h.id)(o));
            assert(t.ops.contains(o));
        }
        assert(last_word(s, cal, uid, op));
    }
}

/// Giving up an operation and what waits for its task marks the queue.
proof fn lemma_abandoned_marked(
    s: StoreV,
    h: PendingOpV,
    ops: Seq<PendingOpV>,
    sum: FlushSummaryV,
    cal: Seq<char>,
    uid: Seq<char>,
)
    requires
        s.wf(),
        waits(s, h),
        ops.len() == s.ops.len(),
        forall|i: int| #![trigger ops[i]] #![trigger s.ops[i]]
            0 <= i < s.ops.len() ==> ops[i].id == s.ops[i].id && ops[i].op_type
                == s.ops[i].op_type && ops[i].payload == s.ops[i].payload && ops[i].target_uid
                == s.ops[i].target_uid && ops[i].target_calendar_href
                == s.ops[i].target_calendar_href && (s.ops[i].id != h.id ==> ops[i] == s.ops[i])
                && (ops[i].errored == 0 ==> s.ops[i].errored == 0),
    ensures
        marked(s, abandoned(s, h, ops, sum).0, cal, uid),
{
    let t = abandoned(s, h, ops, sum).0;
    let a = choose|a: int| 0 <= a < s.ops.len() && s.ops[a] == h;
    assert forall|i: int| 0 <= i < s.ops.len() && i != a implies (#[trigger] s.ops[i]).id
        != h.id by {
        if i < a {
            assert(s.ops[i].id < s.ops[a].id);
        } else {
            assert(s.ops[a].id < s.ops[i].id);
        }
    }
    assert forall|i: int| #![trigger t.ops[i]] #![trigger s.ops[i]]
        0 <= i < s.ops.len() implies t.ops[i].id == s.ops[i].id && change_of(t.ops[i])
        == change_of(s.ops[i]) && (waits_on(cal, uid)(t.ops[i]) ==> waits_on(cal, uid)(
        s.ops[i],
    )) by {
        assert(ops[i].id == s.ops[i].id);
    }
    if uid == h.target_uid {
        assert forall|i: int| 0 <= i < s.ops.len() implies !waits_on(cal, uid)(
            #[trigger] t.ops[i],
        ) by {
            assert(ops[i].target_uid == s.ops[i].target_uid);
        }
    } else {
        assert forall|i: int|
            0 <= i < s.ops.len() && waits_on(cal, uid)(#[trigger] s.ops[i]) implies waits_on(
            cal,
            uid,
        )(t.ops[i]) by {
            assert(i != a);
            assert(ops[i] == s.ops[i]);
        }
    }
}

/// Whatever becomes of an operation, what the user wants of every task stays in its text:
/// of the other tasks, and of its own with all that still waits for it. The conditions on
/// the text that was written are those of its own task.
pub proof fn law_settling_keeps_intent(
    s: StoreV,
    url: Seq<char>,
    h: HandV,
    sum: FlushSummaryV,
    replies: Seq<ReplyV>,
    cal: Seq<char>,
    uid: Seq<char>,
)
    requires
        s.wf(),
        waits(s, h.op),
        intent_kept(s, cal, uid),
        hand_next(s, url, h, sum, replies) is Ok,
        one_line(h.stamp),
        waiting_fit(s.ops, cal, uid),
        asked_of(h, url, replies) matches StepV::Done(o) && written_text(o) is Some
            ==> whole_lines(
            written_text(asked_of(h, url, replies)->Done_0)->Some_0,
        ),
    ensures
        intent_kept(hand_next(s, url, h, sum, replies)->Ok_0.0, cal, uid),
{
    let t = hand_next(s, url, h, sum, replies)->Ok_0.0;
    let own = cal == h.op.target_calendar_href && uid == h.op.target_uid;
    match asked_of(h, url, replies) {
        StepV::Send(r) => {},
        StepV::Done(o) => {
            match o {
                ExecOutcomeV::SuccessDelete { retried } => {
                    lemma_filter_mem(
                        s.tasks,
                        not_of_uid(h.op.target_calendar_href, h.op.target_uid),
                    );
                    if !own {
                        lemma_removed_words(s, t, h.op, cal, uid);
                        lemma_intent_stays(s, t, cal, uid);
                    }
                },
                ExecOutcomeV::Transient(msg) => {
                    let struck = op_struck(s.ops, h.op.id, msg);
                    let flagged = op_flagged(struck, h.op.id);
                    lemma_abandoned_marked(s, h.op, flagged, sum, cal, uid);
                    assert(marked(s, t, cal, uid));
                    lemma_marked_words(s, t, cal, uid);
                    assert(rows_stay(s, t, cal, uid));
                    lemma_intent_stays(s, t, cal, uid);
                },
                ExecOutcomeV::Terminal(msg) => {
                    lemma_abandoned_marked(
                        s,
                        h.op,
                        op_errored(s.ops, h.op.id, msg),
                        sum,
                        cal,
                        uid,
                    );
                    lemma_marked_words(s, t, cal, uid);
                    assert(rows_stay(s, t, cal, uid));
                    lemma_intent_stays(s, t, cal, uid);
                },
                _ => {
                    lemma_write_keeps_intent(s, url, h, sum, replies, cal, uid);
                },
            }
        },
    }
}

/// The same where the operation wrote a text.
proof fn lemma_write_keeps_intent(
    s: StoreV,
    url: Seq<char>,
    h: HandV,
    sum: FlushSummaryV,
    replies: Seq<ReplyV>,
    cal: Seq<char>,
    uid: Seq<char>,
)
    requires
        s.wf(),
        waits(s, h.op),
        intent_kept(s, cal, uid),
        hand_next(s, url, h, sum, replies) is Ok,
        one_line(h.stamp),
        waiting_fit(s.ops, cal, uid),
        asked_of(h, url, replies) is Done,
        written_text(asked_of(h, url, replies)->Done_0) is Some,
        whole_lines(written_text(asked_of(h, url, replies)->Done_0)->Some_0),
    ensures
        intent_kept(hand_next(s, url, h, sum, replies)->Ok_0.0, cal, uid),
{
    let t = hand_next(s, url, h, sum, replies)->Ok_0.0;
    let o = asked_of(h, url, replies)->Done_0;
    let text = written_text(o)->Some_0;
    let own = cal == h.op.target_calendar_href && uid == h.op.target_uid;
    if !has_row(s, h.op.target_calendar_href, h.op.target_uid) {
        let msg = if o is SuccessCreate {
            "cache row vanished mid-flush (create)"@
        } else {
            "cache row vanished mid-flush"@
        };
        lemma_find(s.tasks, of_uid(h.op.target_calendar_href, h.op.target_uid), 0);
        lemma_abandoned_marked(s, h.op, op_errored(s.ops, h.op.id, msg), sum, cal, uid);
        assert(t.tasks =~= s.tasks);
        lemma_marked_words(s, t, cal, uid);
        assert(rows_stay(s, t, cal, uid));
        lemma_intent_stays(s, t, cal, uid);
    } else if own {
        lemma_filter_ops(s.ops, op_other_than(h.op.id), s.last_op_id);
        assert(t.ops == s.ops.filter(op_other_than(h.op.id)));
        assert forall|j: int|
            0 <= j < t.ops.len() && waits_on(cal, uid)(#[trigger] t.ops[j]) && change_of(
                t.ops[j],
            ) is Some implies fits_a_line(change_of(t.ops[j])->Some_0) by {
            assert(t.ops.contains(t.ops[j]));
            let b = choose|b: int| 0 <= b < s.ops.len() && s.ops[b] == t.ops[j];
            assert(waits_on(cal, uid)(s.ops[b]));
        }
        assert forall|i: int, op: PendingOpV|
            #![trigger t.tasks[i], last_word(t, cal, uid, op)]
            0 <= i < t.tasks.len() && of_uid(cal, uid)(t.tasks[i]) && last_word(
                t,
                cal,
                uid,
                op,
            ) implies holds_change(
            t.tasks[i].ical_text,
            t.tasks[i].status,
            change_of(op)->Some_0,
        ) by {
            let k = choose|k: int| 0 <= k < t.ops.len() && t.ops[k] == op;
            assert forall|j: int|
                k < j < t.ops.len() && waits_on(cal, uid)(#[trigger] t.ops[j]) && change_of(
                    op,
                )->Some_0 is Edit implies !(change_of(t.ops[j]) matches Some(
                ChangeV::Edit { .. },
            )) by {
                assert(t.ops[k].id < t.ops[j].id);
                assert(t.ops.contains(t.ops[j]));
            }
            assert(stands_till(t.ops, cal, uid, k, t.ops.len() as int));
            lemma_waiting_held(text, t.tasks[i].status, t.ops, cal, uid, h.stamp, t.ops.len());
        }
    } else {
        lemma_removed_words(s, t, h.op, cal, uid);
        assert forall|i: int|
            0 <= i < t.tasks.len() && of_uid(cal, uid)(#[trigger] t.tasks[i]) implies
            s.tasks.contains(t.tasks[i]) by {
            assert(t.tasks[i] == s.tasks[i]);
        }
        lemma_intent_stays(s, t, cal, uid);
    }
}

/// A pull keeps what the user wants of a task with one row, where the server has the task in
/// one place.
pub proof fn law_pull_keeps_intent(
    s: StoreV,
    cal: Seq<char>,
    d: SyncDeltaV,
    full: bool,
    at: i64,
    k: int,
)
    requires
        s.wf(),
        0 <= k < s.tasks.len(),
        s.tasks[k].calendar_href == cal,
        intent_kept(s, cal, s.tasks[k].uid),
        forall|j: int| 0 <= j < s.tasks.len() && j != k ==> !of_uid(cal, s.tasks[k].uid)(
            #[trigger] s.tasks[j],
        ),
        forall|i: int|
            0 <= i < d.added_or_updated.len() && (#[trigger] d.added_or_updated[i]).task.uid
                == s.tasks[k].uid ==> d.added_or_updated[i].href == s.tasks[k].href,
    ensures
        intent_kept(reconciled(s, cal, d, full, at), cal, s.tasks[k].uid),
{
    let t = reconciled(s, cal, d, full, at);
    let uid = s.tasks[k].uid;
    assert forall|i: int, op: PendingOpV|
        #![trigger t.tasks[i], last_word(t, cal, uid, op)]
        0 <= i < t.tasks.len() && of_uid(cal, uid)(t.tasks[i]) && last_word(
            t,
            cal,
            uid,
            op,
        ) implies holds_change(
        t.tasks[i].ical_text,
        t.tasks[i].status,
        change_of(op)->Some_0,
    ) by {
        let b = choose|b: int| 0 <= b < s.ops.len() && s.ops[b] == op;
        lemma_find(s.ops, open_change_on(cal, uid), 0);
        assert(open_change_on(cal, uid)(s.ops[b]));
        lemma_pulled_rows(s, cal, d, full, at, k);
        assert(last_word(s, cal, uid, op));
        assert(t.tasks[i] == s.tasks[k]);
    }
}

} // verus!
