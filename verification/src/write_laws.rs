//! What holds of the writes that the queue sends, for every operation: what is kept is
//! what was sent, every queued change is sent, and what waits for a task stays in its
//! text.
use vstd::prelude::*;
use crate::cache::not_of_uid;
use crate::clock::MomentV;
use crate::config::ConfigV;
use crate::db::{create_queued, edit_queued, payload_of, payload_reads, toggle_queued};
use crate::exchange::ChangeV;
use crate::failure::FailureV;
use crate::http::{
    create_request_of, get_meaning, put_meaning, put_request_of, ReplyV, RequestV, StepV,
    WriteOutcomeV,
};
use crate::pending::op_other_than;
use crate::queue::{
    asked_of, change_of, dispatched, dispatched_on, hand_next, has_row, payload_due,
    payload_summary, row_of, toggle_goal, waits, waits_on, with_change, with_waiting, ExecOutcomeV,
    FlushSummaryV, HandV,
};
use crate::rewrite_laws::{one_line, whole_lines};
use crate::seqs::{
    count, find, lemma_filter_empty, lemma_filter_mem, lemma_find, lemma_first_filter,
    lemma_first_same,
};
use crate::session::{sync_next, SyncActionV, SyncStageV};
use crate::store::{live_of_uid, of_uid, AnchorV, PendingOpV, StoreV, TaskRowV};
use crate::task::{edited, has_edit, has_toggle, new_todo, toggled};
use crate::task_laws::{
    law_changes_keep_crlf, law_edit_keeps_toggle, law_edited_has_edit, law_edited_reads_edit,
    law_held_edit_is_read, law_held_toggle_is_read, law_toggle_keeps_edit, law_toggled_has_toggle,
    law_with_edit_has_edit, law_with_toggle_has_toggle, no_return, reads_edit, reads_toggle,
};
use crate::weburl::{create_url, task_url};

verus! {

// --- What is kept is what was sent ---

/// A request that writes `text`.
pub open spec fn writes(r: RequestV, text: Seq<char>) -> bool {
    r.method == "PUT"@ && r.body == Some(text)
}

/// The text that the server holds after an operation, where it wrote one.
pub open spec fn written_text(o: ExecOutcomeV) -> Option<Seq<char>> {
    match o {
        ExecOutcomeV::SuccessCreate { task_url, etag, ical_text } => Some(ical_text),
        ExecOutcomeV::SuccessUpdate { new_etag, new_ical, retried } => Some(new_ical),
        _ => None,
    }
}

/// After `k` replies the operation in hand asked to write `text`, and after that it asked
/// for nothing more.
pub open spec fn last_wrote(
    h: HandV,
    url: Seq<char>,
    replies: Seq<ReplyV>,
    k: int,
    text: Seq<char>,
) -> bool {
    &&& 0 <= k < replies.len()
    &&& asked_of(h, url, replies.take(k)) matches StepV::Send(r) && writes(r, text)
    &&& forall|j: int|
        k < j <= replies.len() ==> asked_of(h, url, #[trigger] replies.take(j)) is Done
}

/// The text that an operation ends with is the body of the last write that it asked for.
pub proof fn law_outcome_is_last_write(h: HandV, url: Seq<char>, replies: Seq<ReplyV>)
    requires
        asked_of(h, url, replies) is Done,
        written_text(asked_of(h, url, replies)->Done_0) is Some,
    ensures
        exists|k: int|
            last_wrote(
                h,
                url,
                replies,
                k,
                written_text(asked_of(h, url, replies)->Done_0)->Some_0,
            ),
{
    let o = asked_of(h, url, replies)->Done_0;
    let text = written_text(o)->Some_0;
    assert(replies.len() > 0);
    let k: int = match o {
        ExecOutcomeV::SuccessUpdate { new_etag, new_ical, retried } => if retried {
            2
        } else {
            0
        },
        _ => 0,
    };
    assert(replies.take(0).len() == 0);
    assert forall|j: int| k < j <= replies.len() implies asked_of(
        h,
        url,
        #[trigger] replies.take(j),
    ) is Done by {
        assert(replies.take(j)[0] == replies[0]);
        if k == 2 {
            assert(replies.take(j)[1] == replies[1]);
            assert(replies.take(j)[2] == replies[2]);
        }
    }
    if k == 2 {
        assert(replies.take(2)[0] == replies[0]);
        assert(replies.take(2)[1] == replies[1]);
    }
    assert(last_wrote(h, url, replies, k, text));
}

/// The text kept is the text sent: once an operation that wrote is settled, every row of
/// its task holds the body of the last write that it asked for, with what still waits for
/// the task brought into it. Where nothing waits, it is that body.
pub proof fn law_kept_text_is_sent_text(
    s: StoreV,
    url: Seq<char>,
    h: HandV,
    sum: FlushSummaryV,
    replies: Seq<ReplyV>,
)
    requires
        asked_of(h, url, replies) is Done,
        written_text(asked_of(h, url, replies)->Done_0) is Some,
        has_row(s, h.op.target_calendar_href, h.op.target_uid),
        hand_next(s, url, h, sum, replies) is Ok,
    ensures
        exists|k: int, text: Seq<char>|
            #![trigger last_wrote(h, url, replies, k, text)]
            last_wrote(h, url, replies, k, text) && rows_hold(
                hand_next(s, url, h, sum, replies)->Ok_0.0,
                h,
                text,
            ),
        count(
            hand_next(s, url, h, sum, replies)->Ok_0.0.ops,
            waits_on(h.op.target_calendar_href, h.op.target_uid),
        ) == 0 ==> exists|k: int, text: Seq<char>|
            #![trigger last_wrote(h, url, replies, k, text)]
            last_wrote(h, url, replies, k, text) && rows_are(
                hand_next(s, url, h, sum, replies)->Ok_0.0,
                h,
                text,
            ),
{
    let o = asked_of(h, url, replies)->Done_0;
    let text = written_text(o)->Some_0;
    let cal = h.op.target_calendar_href;
    let uid = h.op.target_uid;
    let t = hand_next(s, url, h, sum, replies)->Ok_0.0;
    law_outcome_is_last_write(h, url, replies);
    let k = choose|k: int| last_wrote(h, url, replies, k, text);
    assert(last_wrote(h, url, replies, k, text));
    assert(rows_hold(t, h, text));
    if count(t.ops, waits_on(cal, uid)) == 0 {
        lemma_filter_empty(t.ops, waits_on(cal, uid));
        assert forall|i: int| 0 <= i < t.tasks.len() && of_uid(cal, uid)(
            #[trigger] t.tasks[i],
        ) implies t.tasks[i].ical_text == text by {
            lemma_none_waits(text, t.tasks[i].status, t.ops, cal, uid, h.stamp, t.ops.len());
        }
        assert(rows_are(t, h, text));
    }
}

/// Every row of the task in hand has the text `text`.
pub open spec fn rows_are(t: StoreV, h: HandV, text: Seq<char>) -> bool {
    forall|i: int|
        0 <= i < t.tasks.len() && of_uid(h.op.target_calendar_href, h.op.target_uid)(
            #[trigger] t.tasks[i],
        ) ==> t.tasks[i].ical_text == text
}

/// Every row of the task in hand has the text `text`, with what waits for the task.
pub open spec fn rows_hold(t: StoreV, h: HandV, text: Seq<char>) -> bool {
    forall|i: int|
        0 <= i < t.tasks.len() && of_uid(h.op.target_calendar_href, h.op.target_uid)(
            #[trigger] t.tasks[i],
        ) ==> t.tasks[i].ical_text == with_waiting(
            text,
            t.tasks[i].status,
            t.ops,
            h.op.target_calendar_href,
            h.op.target_uid,
            h.stamp,
            t.ops.len(),
        )
}

/// Where nothing waits, nothing is brought in.
proof fn lemma_none_waits(
    text: Seq<char>,
    status: Option<Seq<char>>,
    ops: Seq<PendingOpV>,
    cal: Seq<char>,
    uid: Seq<char>,
    now: Seq<char>,
    n: nat,
)
    requires
        n <= ops.len(),
        forall|i: int| 0 <= i < ops.len() ==> !waits_on(cal, uid)(#[trigger] ops[i]),
    ensures
        with_waiting(text, status, ops, cal, uid, now, n) == text,
    decreases n,
{
    if n > 0 {
        lemma_none_waits(text, status, ops, cal, uid, now, (n - 1) as nat);
    }
}

/// What an operation in hand asks for depends on nothing that happens meanwhile: neither
/// the tables, the settings nor the time.
pub proof fn law_hand_asks_the_same(
    s1: StoreV,
    s2: StoreV,
    cfg1: ConfigV,
    cfg2: ConfigV,
    href: Seq<char>,
    url: Seq<char>,
    sum: FlushSummaryV,
    h: HandV,
    replies: Seq<ReplyV>,
    m1: MomentV,
    m2: MomentV,
)
    ensures
        ({
            let g = SyncStageV::Flushing { href, url, summary: sum, hand: Some(h) };
            let a = sync_next(s1, cfg1, g, replies, m1).1;
            let b = sync_next(s2, cfg2, g, replies, m2).1;
            &&& a is Send == b is Send
            &&& a is Send ==> a == b
            &&& asked_of(h, url, replies) matches StepV::Send(r) ==> a == SyncActionV::Send(r)
        }),
{
}

// --- Every queued change is sent ---

/// A change without a carriage return.
pub open spec fn fits_a_line(c: ChangeV) -> bool {
    match c {
        ChangeV::Toggle => true,
        ChangeV::Edit { summary, due } => no_return(summary) && (due is Some ==> no_return(
            due->Some_0,
        )),
    }
}

/// A text holds a change.
pub open spec fn holds_change(text: Seq<char>, status: Option<Seq<char>>, c: ChangeV) -> bool {
    match c {
        ChangeV::Toggle => has_toggle(text, toggle_goal(status)),
        ChangeV::Edit { summary, due } => has_edit(text, summary, due),
    }
}

/// A text reads as changed: its to-dos have the summary and the due date of an edit, or the
/// status that a toggle leads to.
pub open spec fn reads_change(text: Seq<char>, status: Option<Seq<char>>, c: ChangeV) -> bool {
    match c {
        ChangeV::Toggle => reads_toggle(text, toggle_goal(status)),
        ChangeV::Edit { summary, due } => reads_edit(text, summary, due),
    }
}

/// A text that a change is brought into holds it and reads as changed.
pub proof fn law_brought_change_is_read(
    text: Seq<char>,
    status: Option<Seq<char>>,
    c: ChangeV,
    now: Seq<char>,
)
    requires
        fits_a_line(c),
        one_line(now),
    ensures
        holds_change(with_change(text, status, c, now), status, c),
        reads_change(with_change(text, status, c, now), status, c),
{
    match c {
        ChangeV::Toggle => law_with_toggle_has_toggle(text, toggle_goal(status), now),
        ChangeV::Edit { summary, due } => law_with_edit_has_edit(text, summary, due, now),
    }
}

/// The first write of every edit and every toggle that waits holds its change, whatever
/// else was queued or settled before: an edit sends its summary and its due date, a toggle
/// the status that the cache shows.
pub proof fn law_first_write_holds_change(
    s: StoreV,
    calendar_url: Seq<char>,
    op: PendingOpV,
    now: Seq<char>,
)
    requires
        s.wf(),
        waits(s, op),
        change_of(op) is Some,
        fits_a_line(change_of(op)->Some_0),
        one_line(now),
        row_of(s, op) is Some,
        task_url(calendar_url, row_of(s, op)->Some_0.href) is Ok,
    ensures
        ({
            let row = row_of(s, op)->Some_0;
            let url = task_url(calendar_url, row.href)->Ok_0;
            let text = with_change(row.ical_text, row.status, change_of(op)->Some_0, now);
            &&& dispatched(s, calendar_url, op, Seq::empty(), now) == StepV::<
                ExecOutcomeV,
            >::Send(put_request_of(url, text, row.etag))
            &&& put_request_of(url, text, row.etag).body == Some(text)
            &&& reads_change(text, row.status, change_of(op)->Some_0)
            &&& match change_of(op)->Some_0 {
                ChangeV::Edit { summary, due } => reads_edit(text, summary, due),
                ChangeV::Toggle => reads_toggle(text, toggle_goal(row.status)),
            }
        }),
{
    let row = row_of(s, op)->Some_0;
    lemma_kinds_differ();
    law_brought_change_is_read(row.ical_text, row.status, change_of(op)->Some_0, now);
}

/// A cached text that holds the change is sent as it is: nothing is changed twice.
pub proof fn law_held_change_is_sent_as_it_is(
    row: TaskRowV,
    calendar_url: Seq<char>,
    op: PendingOpV,
    now: Seq<char>,
)
    requires
        change_of(op) is Some,
        holds_change(row.ical_text, row.status, change_of(op)->Some_0),
        task_url(calendar_url, row.href) is Ok,
    ensures
        dispatched_on(Some(row), calendar_url, op, Seq::empty(), now) == StepV::<
            ExecOutcomeV,
        >::Send(
            put_request_of(
                task_url(calendar_url, row.href)->Ok_0,
                row.ical_text,
                row.etag,
            ),
        ),
{
    lemma_kinds_differ();
}

/// The first write leaves the other changes in the cached text: an edit sends the toggle
/// that it holds, and a toggle the edit.
pub proof fn law_first_write_keeps_others(
    row: TaskRowV,
    calendar_url: Seq<char>,
    op: PendingOpV,
    now: Seq<char>,
    other: ChangeV,
)
    requires
        change_of(op) is Some,
        fits_a_line(change_of(op)->Some_0),
        fits_a_line(other),
        other is Edit != change_of(op)->Some_0 is Edit,
        one_line(now),
        whole_lines(row.ical_text),
        holds_change(row.ical_text, row.status, other),
        task_url(calendar_url, row.href) is Ok,
    ensures
        ({
            let url = task_url(calendar_url, row.href)->Ok_0;
            let text = with_change(row.ical_text, row.status, change_of(op)->Some_0, now);
            &&& dispatched_on(Some(row), calendar_url, op, Seq::empty(), now) == StepV::<
                ExecOutcomeV,
            >::Send(put_request_of(url, text, row.etag))
            &&& holds_change(text, row.status, other)
        }),
{
    lemma_kinds_differ();
    let to = toggle_goal(row.status);
    match (other, change_of(op)->Some_0) {
        (ChangeV::Toggle, ChangeV::Edit { summary, due }) => {
            law_edit_keeps_toggle(row.ical_text, summary, due, now, to);
        },
        (ChangeV::Edit { summary, due }, ChangeV::Toggle) => {
            law_toggle_keeps_edit(row.ical_text, to, now, summary, due);
        },
        _ => {},
    }
}

/// The second write, on the server's newer text, holds an edit too.
pub proof fn law_second_write_holds_edit(
    row: TaskRowV,
    calendar_url: Seq<char>,
    op: PendingOpV,
    now: Seq<char>,
    refused: ReplyV,
    fresh: ReplyV,
)
    requires
        op.op_type == "edit"@,
        change_of(op) is Some,
        fits_a_line(change_of(op)->Some_0),
        one_line(now),
        task_url(calendar_url, row.href) is Ok,
        put_meaning(task_url(calendar_url, row.href)->Ok_0, refused) == Ok::<
            WriteOutcomeV,
            FailureV,
        >(WriteOutcomeV::PreconditionFailed),
        get_meaning(task_url(calendar_url, row.href)->Ok_0, fresh) matches Ok(Some(_)),
    ensures
        ({
            let url = task_url(calendar_url, row.href)->Ok_0;
            let f = get_meaning(url, fresh)->Ok_0->Some_0;
            let summary = payload_summary(op.payload)->Some_0;
            let due = payload_due(op.payload);
            let body = edited(f.1, summary, due, now);
            &&& reads_edit(body, summary, due)
            &&& dispatched_on(Some(row), calendar_url, op, seq![refused, fresh], now) == StepV::<
                ExecOutcomeV,
            >::Send(put_request_of(url, body, f.0))
        }),
{
    lemma_kinds_differ();
    let url = task_url(calendar_url, row.href)->Ok_0;
    let f = get_meaning(url, fresh)->Ok_0->Some_0;
    let two = seq![refused, fresh];
    assert(two[0] == refused && two[1] == fresh && two.len() == 2);
    law_edited_reads_edit(f.1, payload_summary(op.payload)->Some_0, payload_due(op.payload), now);
}

// --- What waits for a task stays in its text ---

/// The edits that wait for a task have no carriage return.
pub open spec fn waiting_fit(ops: Seq<PendingOpV>, cal: Seq<char>, uid: Seq<char>) -> bool {
    forall|i: int|
        0 <= i < ops.len() && waits_on(cal, uid)(#[trigger] ops[i]) && change_of(ops[i]) is Some
            ==> fits_a_line(change_of(ops[i])->Some_0)
}

/// Operation `k` of the first `n` waits for a task with a change that no later one of them
/// replaces. A toggle is not replaced: all toggles of a task lead to the same status.
pub open spec fn stands_till(
    ops: Seq<PendingOpV>,
    cal: Seq<char>,
    uid: Seq<char>,
    k: int,
    n: int,
) -> bool {
    &&& 0 <= k < n
    &&& waits_on(cal, uid)(ops[k])
    &&& change_of(ops[k]) is Some
    &&& change_of(ops[k])->Some_0 is Edit ==> forall|j: int|
        k < j < n && waits_on(cal, uid)(#[trigger] ops[j]) ==> !(change_of(ops[j]) matches Some(
            ChangeV::Edit { .. },
        ))
}

/// The first `n` operations brought in: each change that no later one replaces is there.
pub proof fn lemma_waiting_held(
    text: Seq<char>,
    status: Option<Seq<char>>,
    ops: Seq<PendingOpV>,
    cal: Seq<char>,
    uid: Seq<char>,
    now: Seq<char>,
    n: nat,
)
    requires
        n <= ops.len(),
        whole_lines(text),
        one_line(now),
        waiting_fit(ops, cal, uid),
    ensures
        whole_lines(with_waiting(text, status, ops, cal, uid, now, n)),
        forall|k: int| #[trigger]
            stands_till(ops, cal, uid, k, n as int) ==> holds_change(
                with_waiting(text, status, ops, cal, uid, now, n),
                status,
                change_of(ops[k])->Some_0,
            ),
    decreases n,
{
    if n > 0 {
        let m = (n - 1) as nat;
        lemma_waiting_held(text, status, ops, cal, uid, now, m);
        let before = with_waiting(text, status, ops, cal, uid, now, m);
        let after = with_waiting(text, status, ops, cal, uid, now, n);
        let last = ops[m as int];
        if waits_on(cal, uid)(last) && change_of(last) is Some {
            let c = change_of(last)->Some_0;
            assert(fits_a_line(c));
            law_brought_change_is_read(before, status, c, now);
            match c {
                ChangeV::Toggle => {
                    law_changes_keep_crlf(before, Seq::empty(), None, toggle_goal(status), now);
                },
                ChangeV::Edit { summary, due } => {
                    law_changes_keep_crlf(before, summary, due, toggle_goal(status), now);
                },
            }
            assert forall|k: int| #[trigger] stands_till(ops, cal, uid, k, n as int) implies
                holds_change(after, status, change_of(ops[k])->Some_0) by {
                if k < m {
                    assert(stands_till(ops, cal, uid, k, m as int));
                    assert(holds_change(before, status, change_of(ops[k])->Some_0));
                    assert(fits_a_line(change_of(ops[k])->Some_0));
                    match (change_of(ops[k])->Some_0, c) {
                        (ChangeV::Toggle, ChangeV::Edit { summary, due }) => {
                            law_edit_keeps_toggle(before, summary, due, now, toggle_goal(status));
                        },
                        (ChangeV::Edit { summary, due }, ChangeV::Toggle) => {
                            law_toggle_keeps_edit(before, toggle_goal(status), now, summary, due);
                        },
                        (ChangeV::Toggle, ChangeV::Toggle) => {},
                        (ChangeV::Edit { .. }, ChangeV::Edit { .. }) => {
                            assert(waits_on(cal, uid)(ops[m as int]));
                        },
                    }
                }
            }
        } else {
            assert forall|k: int| #[trigger] stands_till(ops, cal, uid, k, n as int) implies
                holds_change(after, status, change_of(ops[k])->Some_0) by {
                assert(k < m);
                assert(stands_till(ops, cal, uid, k, m as int));
            }
        }
    }
}

/// What the user changed while an operation was under way stays: once the operation is
/// settled, the text of its task holds every change that still waits for the task, but for
/// an edit that a later one replaces.
pub proof fn law_settling_keeps_waiting_changes(
    s: StoreV,
    url: Seq<char>,
    h: HandV,
    sum: FlushSummaryV,
    replies: Seq<ReplyV>,
    i: int,
    k: int,
)
    requires
        asked_of(h, url, replies) is Done,
        written_text(asked_of(h, url, replies)->Done_0) is Some,
        whole_lines(written_text(asked_of(h, url, replies)->Done_0)->Some_0),
        has_row(s, h.op.target_calendar_href, h.op.target_uid),
        hand_next(s, url, h, sum, replies) is Ok,
        one_line(h.stamp),
        waiting_fit(s.ops, h.op.target_calendar_href, h.op.target_uid),
        0 <= i < hand_next(s, url, h, sum, replies)->Ok_0.0.tasks.len(),
        of_uid(h.op.target_calendar_href, h.op.target_uid)(
            hand_next(s, url, h, sum, replies)->Ok_0.0.tasks[i],
        ),
        stands_till(
            hand_next(s, url, h, sum, replies)->Ok_0.0.ops,
            h.op.target_calendar_href,
            h.op.target_uid,
            k,
            hand_next(s, url, h, sum, replies)->Ok_0.0.ops.len() as int,
        ),
    ensures
        ({
            let t = hand_next(s, url, h, sum, replies)->Ok_0.0;
            let c = change_of(t.ops[k])->Some_0;
            &&& holds_change(t.tasks[i].ical_text, t.tasks[i].status, c)
            &&& reads_change(t.tasks[i].ical_text, t.tasks[i].status, c)
        }),
{
    let o = asked_of(h, url, replies)->Done_0;
    let text = written_text(o)->Some_0;
    let cal = h.op.target_calendar_href;
    let uid = h.op.target_uid;
    let t = hand_next(s, url, h, sum, replies)->Ok_0.0;
    assert(t.ops == s.ops.filter(op_other_than(h.op.id)));
    assert forall|j: int|
        0 <= j < t.ops.len() && waits_on(cal, uid)(#[trigger] t.ops[j]) && change_of(
            t.ops[j],
        ) is Some implies fits_a_line(change_of(t.ops[j])->Some_0) by {
        lemma_filter_mem(s.ops, op_other_than(h.op.id));
        let b = choose|b: int| 0 <= b < s.ops.len() && s.ops[b] == t.ops[j];
        assert(waits_on(cal, uid)(s.ops[b]));
    }
    lemma_waiting_held(text, t.tasks[i].status, t.ops, cal, uid, h.stamp, t.ops.len());
    let c = change_of(t.ops[k])->Some_0;
    match c {
        ChangeV::Toggle => law_held_toggle_is_read(
            t.tasks[i].ical_text,
            toggle_goal(t.tasks[i].status),
        ),
        ChangeV::Edit { summary, due } => law_held_edit_is_read(
            t.tasks[i].ical_text,
            summary,
            due,
        ),
    }
}

/// What becomes of an operation leaves the rows of other tasks alone, and so what their
/// operations send.
pub proof fn law_other_tasks_left_alone(
    s: StoreV,
    url: Seq<char>,
    h: HandV,
    sum: FlushSummaryV,
    replies: Seq<ReplyV>,
    other: PendingOpV,
    more: Seq<ReplyV>,
    now: Seq<char>,
)
    requires
        hand_next(s, url, h, sum, replies) is Ok,
        !(other.target_calendar_href == h.op.target_calendar_href && other.target_uid
            == h.op.target_uid),
    ensures
        ({
            let t = hand_next(s, url, h, sum, replies)->Ok_0.0;
            &&& row_of(t, other) == row_of(s, other)
            &&& dispatched(t, url, other, more, now) == dispatched(s, url, other, more, now)
        }),
{
    let p = of_uid(other.target_calendar_href, other.target_uid);
    let cal = h.op.target_calendar_href;
    let uid = h.op.target_uid;
    let t = hand_next(s, url, h, sum, replies)->Ok_0.0;
    match asked_of(h, url, replies) {
        StepV::Done(ExecOutcomeV::SuccessDelete { retried }) => {
            lemma_first_filter(s.tasks, not_of_uid(cal, uid), p);
        },
        _ => {
            assert forall|i: int| 0 <= i < s.tasks.len() implies p(#[trigger] s.tasks[i]) == p(
                t.tasks[i],
            ) && (p(s.tasks[i]) ==> t.tasks[i] == s.tasks[i]) by {}
            lemma_first_same(s.tasks, t.tasks, p);
        },
    }
}

// --- A due date is sent with its task ---

/// A queued edit sends a text with its summary and its due date, which is the text that the
/// cache shows at once.
pub proof fn law_edit_sends_due(
    s: StoreV,
    calendar_url: Seq<char>,
    cal: Seq<char>,
    uid: Seq<char>,
    summary: Seq<char>,
    due: Option<Seq<char>>,
    now: Seq<char>,
    at: int,
    later: Seq<char>,
)
    requires
        edit_queued(s, cal, uid, summary, due, now, at) is Ok,
        payload_reads(Some(payload_of(summary, due)), summary, due),
        // the task has one row
        find(s.tasks, of_uid(cal, uid), 0) == find(s.tasks, live_of_uid(cal, uid), 0),
        task_url(calendar_url, s.tasks[find(s.tasks, of_uid(cal, uid), 0) as int].href) is Ok,
        no_return(summary),
        due is Some ==> no_return(due->Some_0),
        one_line(now),
    ensures
        ({
            let t = edit_queued(s, cal, uid, summary, due, now, at)->Ok_0.0;
            let row = t.tasks[find(s.tasks, of_uid(cal, uid), 0) as int];
            let url = task_url(calendar_url, row.href)->Ok_0;
            &&& reads_edit(row.ical_text, summary, due)
            &&& dispatched(t, calendar_url, t.ops.last(), Seq::empty(), later) == StepV::<
                ExecOutcomeV,
            >::Send(put_request_of(url, row.ical_text, row.etag))
        }),
{
    let p = of_uid(cal, uid);
    let k = find(s.tasks, p, 0) as int;
    lemma_find(s.tasks, p, 0);
    lemma_find(s.tasks, live_of_uid(cal, uid), 0);
    let t = edit_queued(s, cal, uid, summary, due, now, at)->Ok_0.0;
    law_edited_reads_edit(s.tasks[k].ical_text, summary, due, now);
    law_edited_has_edit(s.tasks[k].ical_text, summary, due, now);
    lemma_find(t.tasks, p, 0);
    assert(p(t.tasks[k]));
    assert forall|i: int| 0 <= i < k implies !p(#[trigger] t.tasks[i]) by {
        assert(t.tasks[i] == s.tasks[i]);
    }
    assert(find(t.tasks, p, 0) == k);
    lemma_kinds_differ();
}

/// A queued toggle sends the text that the cache shows at once, with the new status.
pub proof fn law_toggle_sends_status(
    s: StoreV,
    calendar_url: Seq<char>,
    cal: Seq<char>,
    uid: Seq<char>,
    now: Seq<char>,
    at: int,
    later: Seq<char>,
)
    requires
        toggle_queued(s, cal, uid, now, at) is Ok,
        // the task has one row
        find(s.tasks, of_uid(cal, uid), 0) == find(s.tasks, live_of_uid(cal, uid), 0),
        task_url(calendar_url, s.tasks[find(s.tasks, of_uid(cal, uid), 0) as int].href) is Ok,
        one_line(now),
    ensures
        ({
            let t = toggle_queued(s, cal, uid, now, at)->Ok_0.0;
            let k = find(s.tasks, of_uid(cal, uid), 0) as int;
            let row = t.tasks[k];
            let url = task_url(calendar_url, row.href)->Ok_0;
            let to = toggled(s.tasks[k].ical_text, now)->Ok_0.2;
            &&& toggle_goal(row.status) == to
            &&& reads_toggle(row.ical_text, to)
            &&& dispatched(t, calendar_url, t.ops.last(), Seq::empty(), later) == StepV::<
                ExecOutcomeV,
            >::Send(put_request_of(url, row.ical_text, row.etag))
        }),
{
    let p = of_uid(cal, uid);
    let k = find(s.tasks, p, 0) as int;
    lemma_find(s.tasks, p, 0);
    lemma_find(s.tasks, live_of_uid(cal, uid), 0);
    let t = toggle_queued(s, cal, uid, now, at)->Ok_0.0;
    let to = toggled(s.tasks[k].ical_text, now)->Ok_0.2;
    law_toggled_has_toggle(s.tasks[k].ical_text, now);
    law_held_toggle_is_read(t.tasks[k].ical_text, to);
    lemma_find(t.tasks, p, 0);
    assert(p(t.tasks[k]));
    assert forall|i: int| 0 <= i < k implies !p(#[trigger] t.tasks[i]) by {
        assert(t.tasks[i] == s.tasks[i]);
    }
    assert(find(t.tasks, p, 0) == k);
    lemma_kinds_differ();
    reveal_strlit("needs-action");
    reveal_strlit("completed");
    assert("needs-action"@.len() != "completed"@.len());
}

/// A create sends the text that the cache holds of its task, with all that was changed in
/// it since the create was queued.
pub proof fn law_create_sends_cached_text(
    row: TaskRowV,
    calendar_url: Seq<char>,
    op: PendingOpV,
    now: Seq<char>,
)
    requires
        op.op_type == "create"@,
        create_url(calendar_url, op.target_uid) is Ok,
    ensures
        dispatched_on(Some(row), calendar_url, op, Seq::empty(), now) == StepV::<
            ExecOutcomeV,
        >::Send(
            create_request_of(create_url(calendar_url, op.target_uid)->Ok_0, row.ical_text),
        ),
{
}

/// A queued create sends a to-do with its due date, which is the text that the cache shows
/// at once.
pub proof fn law_create_sends_due(
    s: StoreV,
    calendar_url: Seq<char>,
    cal: Seq<char>,
    uid: Seq<char>,
    summary: Seq<char>,
    due: Option<Seq<char>>,
    anchor: Option<AnchorV>,
    now: Seq<char>,
    at: int,
    later: Seq<char>,
)
    requires
        create_queued(s, cal, uid, summary, due, anchor, now, at) is Ok,
        // the identifier is new
        find(s.tasks, of_uid(cal, uid), 0) == s.tasks.len(),
        create_url(calendar_url, uid) is Ok,
    ensures
        ({
            let t = create_queued(s, cal, uid, summary, due, anchor, now, at)->Ok_0.0;
            let url = create_url(calendar_url, uid)->Ok_0;
            &&& t.tasks.last().ical_text == new_todo(uid, summary, due, now)
            &&& dispatched(t, calendar_url, t.ops.last(), Seq::empty(), later) == StepV::<
                ExecOutcomeV,
            >::Send(create_request_of(url, new_todo(uid, summary, due, now)))
        }),
{
    let p = of_uid(cal, uid);
    let t = create_queued(s, cal, uid, summary, due, anchor, now, at)->Ok_0.0;
    lemma_find(s.tasks, p, 0);
    lemma_find(t.tasks, p, 0);
    let n = s.tasks.len() as int;
    assert(t.tasks[n] == t.tasks.last());
    assert(p(t.tasks[n]));
    assert forall|i: int| 0 <= i < n implies !p(#[trigger] t.tasks[i]) by {
        assert(t.tasks[i] == s.tasks[i]);
    }
    assert(find(t.tasks, p, 0) == n);
}

proof fn lemma_kinds_differ()
    ensures
        "edit"@ != "create"@,
        "edit"@ != "toggle"@,
        "toggle"@ != "create"@,
{
    reveal_strlit("edit");
    reveal_strlit("create");
    reveal_strlit("toggle");
    assert("edit"@.len() != "create"@.len());
    assert("edit"@.len() != "toggle"@.len());
    assert("toggle"@[0] == 't');
    assert("create"@[0] == 'c');
}

} // verus!
