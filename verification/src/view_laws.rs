//! What the screen shows of the tables: each row of a list and each line of the queue, by
//! the columns that it comes from.
use vstd::prelude::*;
use crate::cache::synced_at;
use crate::change_laws::is_first_row;
use crate::conflict_laws::reads_as;
use crate::display::{age_words, marked_line, row_mark, shown, task_line, task_order, ListRowV};
use crate::list_laws::{law_list_order, law_list_shows_visible};
use crate::listing::{
    display_order, display_rows, due_text, first_listed, marks_of, matches_shown, op_on, op_shown,
    ops_shown, row_task, task_list, PendingOpViewV,
};
use crate::pending::resolvable;
use crate::screen::{has_error, known_lists, screen_list, screen_queue, PendingErrorV};
use crate::seqs::{
    find, lemma_filter_mem, lemma_find, lemma_ordered, lemma_ordered_members, ordered, orders,
};
use crate::store::{of_uid, CalendarRowV, PendingOpV, StoreV, TaskRowV};
use crate::task::{TaskStatus, TaskV};
use crate::text::{ascii_lower, decimal, has_sub, stands_at, text_less};
use crate::text_laws::{law_text_order_strict, law_text_order_total, law_text_order_transitive};
use crate::wire_laws::holds;

verus! {

// --- Order ---

/// The texts agree up to `k`; there `a` ends and `b` does not, or `a` has the lower
/// character.
pub open spec fn comes_first_at(a: Seq<char>, b: Seq<char>, k: int) -> bool {
    &&& 0 <= k <= a.len() && k < b.len()
    &&& a.take(k) == b.take(k)
    &&& k < a.len() ==> a[k] < b[k]
}

/// A text comes before another one by the first character in which they differ, and before
/// all that it begins.
pub proof fn law_text_order(a: Seq<char>, b: Seq<char>)
    ensures
        text_less(a, b) == exists|k: int| comes_first_at(a, b, k),
    decreases a.len(),
{
    if a.len() > 0 && b.len() > 0 && a[0] == b[0] {
        let x = a.skip(1);
        let y = b.skip(1);
        law_text_order(x, y);
        if text_less(x, y) {
            let k = choose|k: int| comes_first_at(x, y, k);
            assert(a.take(k + 1) =~= seq![a[0]] + x.take(k));
            assert(b.take(k + 1) =~= seq![b[0]] + y.take(k));
            assert(comes_first_at(a, b, k + 1));
        }
        if exists|k: int| comes_first_at(a, b, k) {
            let k = choose|k: int| comes_first_at(a, b, k);
            assert(k > 0);
            assert(x.take(k - 1) =~= a.take(k).skip(1));
            assert(y.take(k - 1) =~= b.take(k).skip(1));
            assert(comes_first_at(x, y, k - 1));
        }
    } else {
        if text_less(a, b) {
            assert(a.take(0) =~= b.take(0));
            assert(comes_first_at(a, b, 0));
        }
        if exists|k: int| comes_first_at(a, b, k) {
            let k = choose|k: int| comes_first_at(a, b, k);
            if k > 0 {
                assert(a.take(k)[0] == b.take(k)[0]);
            }
        }
    }
}

/// A row may stand before another one in a list: an open task before a completed one, then
/// one with a due date before one without, then the earlier date, then the lower address.
pub open spec fn may_precede(a: TaskRowV, b: TaskRowV) -> bool {
    let x = a.status == Some("completed"@);
    let y = b.status == Some("completed"@);
    ||| !x && y
    ||| x == y && a.due is Some && b.due is None
    ||| x == y && a.due is Some && b.due is Some && (text_less(a.due->Some_0, b.due->Some_0) || (
    a.due == b.due && !text_less(b.href, a.href)))
    ||| x == y && a.due is None && b.due is None && !text_less(b.href, a.href)
}

/// The rows of a list stand in order: any of them may stand before those behind it.
pub proof fn law_rows_stand_in_order(s: StoreV, cal: Seq<char>, i: int, j: int)
    requires
        0 <= i < j < display_rows(s, cal).len(),
    ensures
        may_precede(display_rows(s, cal)[i], display_rows(s, cal)[j]),
{
    law_list_order(s, cal);
    let a = display_rows(s, cal)[i];
    let b = display_rows(s, cal)[j];
    assert(!display_order()(b, a));
    law_text_order_total(due_text(a.due), due_text(b.due));
    law_text_order_strict(""@);
}

/// The list has a task for each visible row, in order, with the identifier, the summary, the
/// due date and the status of the row.
pub proof fn law_list_shows_columns(s: StoreV, cal: Seq<char>, i: int)
    requires
        0 <= i < task_list(s, cal).len(),
    ensures
        task_list(s, cal).len() == display_rows(s, cal).len(),
        ({
            let t = task_list(s, cal)[i];
            let r = display_rows(s, cal)[i];
            &&& s.tasks.contains(r)
            &&& r.calendar_href == cal && !r.pending_delete
            &&& t.uid == r.uid && t.summary == r.summary && t.due == r.due
            &&& reads_as(r.status, t.status)
        }),
{
    let r = display_rows(s, cal)[i];
    assert(display_rows(s, cal).contains(r));
    law_list_shows_visible(s, cal, r);
}

/// The task at the top of a list is its first row.
pub proof fn law_top_is_first_row(s: StoreV, cal: Seq<char>)
    ensures
        match first_listed(s, cal) {
            Some(t) => display_rows(s, cal).len() > 0 && {
                let r = display_rows(s, cal)[0];
                &&& t.href == r.href && t.etag == r.etag && t.ical_text == r.ical_text
                &&& t.summary == r.summary && t.uid == r.uid
                &&& r.status matches Some(w) ==> t.status == w
                &&& r.status is None ==> t.status.len() == 0
            },
            None => display_rows(s, cal).len() == 0,
        },
{
    reveal_strlit("");
}

// --- Marks ---

/// Some operation on the task of the list was given up.
pub open spec fn is_given_up(ops: Seq<PendingOpV>, cal: Seq<char>, uid: Seq<char>) -> bool {
    exists|i: int|
        0 <= i < ops.len() && (#[trigger] ops[i]).target_calendar_href == cal && ops[i].target_uid
            == uid && ops[i].errored != 0
}

/// Some operation on the task of the list is in the queue.
pub open spec fn is_queued(ops: Seq<PendingOpV>, cal: Seq<char>, uid: Seq<char>) -> bool {
    exists|i: int|
        0 <= i < ops.len() && (#[trigger] ops[i]).target_calendar_href == cal && ops[i].target_uid
            == uid
}

/// The mark of a task: `!` where an operation on it was given up, `*` where operations on it
/// merely wait, and none where the queue has none.
pub proof fn law_marks(ops: Seq<PendingOpV>, cal: Seq<char>, uid: Seq<char>)
    ensures
        row_mark(uid, marks_of(ops, cal, ops.len() as int)) == if is_given_up(ops, cal, uid) {
            "!"@
        } else if is_queued(ops, cal, uid) {
            "*"@
        } else {
            ""@
        },
{
    let n = ops.len() as int;
    if is_queued(ops, cal, uid) {
        let i = choose|i: int|
            0 <= i < ops.len() && (#[trigger] ops[i]).target_calendar_href == cal
                && ops[i].target_uid == uid;
        assert(op_on(ops[i], cal, uid));
    }
    if is_given_up(ops, cal, uid) {
        let i = choose|i: int|
            0 <= i < ops.len() && (#[trigger] ops[i]).target_calendar_href == cal
                && ops[i].target_uid == uid && ops[i].errored != 0;
        assert(op_on(ops[i], cal, uid));
        assert(is_queued(ops, cal, uid));
    }
}

// --- The list on the screen ---

/// The line on the screen shows the row.
pub open spec fn shows_row(line: ListRowV, r: TaskRowV, ops: Seq<PendingOpV>) -> bool {
    &&& line.uid == r.uid && line.summary == r.summary && line.due == r.due
    &&& line.completed == (r.status == Some("completed"@))
    &&& line.mark == if is_given_up(ops, r.calendar_href, r.uid) {
        "!"@
    } else if is_queued(ops, r.calendar_href, r.uid) {
        "*"@
    } else {
        ""@
    }
}

/// The row is to be shown: it is visible in its list, and not finished unless finished ones
/// are asked for too.
pub open spec fn is_shown(r: TaskRowV, cal: Seq<char>, include_completed: bool) -> bool {
    &&& r.calendar_href == cal && !r.pending_delete
    &&& include_completed || (r.status != Some("completed"@) && r.status != Some("cancelled"@))
}

proof fn lemma_words()
    ensures
        "completed"@ != "needs-action"@ && "completed"@ != "in-process"@ && "completed"@
            != "cancelled"@,
        "cancelled"@ != "needs-action"@ && "cancelled"@ != "in-process"@,
{
    reveal_strlit("needs-action");
    reveal_strlit("in-process");
    reveal_strlit("completed");
    reveal_strlit("cancelled");
    assert("needs-action"@.len() == 12 && "in-process"@.len() == 10);
    assert("completed"@.len() == 9 && "cancelled"@.len() == 9);
    assert("completed"@[1] == 'o' && "cancelled"@[1] == 'a');
}

/// Sorting drops nothing.
proof fn lemma_ordered_keeps<T>(s: Seq<T>, less: spec_fn(T, T) -> bool, x: T)
    requires
        s.contains(x),
    ensures
        ordered(s, less).contains(x),
    decreases s.len(),
{
    let d = s.drop_last();
    let y = s.last();
    let o = ordered(d, less);
    let p = |z: T| less(y, z);
    let k = find(o, p, 0) as int;
    lemma_find(o, p, 0);
    let r = ordered(s, less);
    assert(r == o.insert(k, y));
    let i = choose|i: int| 0 <= i < s.len() && s[i] == x;
    if i == s.len() - 1 {
        assert(r[k] == x);
    } else {
        assert(d[i] == x);
        lemma_ordered_keeps(d, less, x);
        let j = choose|j: int| 0 <= j < o.len() && o[j] == x;
        assert(r[if j < k {
            j
        } else {
            j + 1
        }] == x);
    }
}

/// Each line on the screen shows a row of the list that is to be shown, with its columns and
/// its mark.
pub proof fn law_screen_shows_rows(
    s: StoreV,
    cal: Seq<char>,
    include_completed: bool,
    now: int,
    i: int,
)
    requires
        0 <= i < screen_list(s, cal, include_completed, now).tasks.len(),
    ensures
        exists|r: TaskRowV| #[trigger]
            s.tasks.contains(r) && is_shown(r, cal, include_completed) && shows_row(
                screen_list(s, cal, include_completed, now).tasks[i],
                r,
                s.ops,
            ),
{
    let marks = marks_of(s.ops, cal, s.ops.len() as int);
    let all = task_list(s, cal);
    let kept = all.filter(shown(include_completed));
    let sorted = ordered(kept, task_order());
    lemma_ordered_members(kept, task_order());
    assert(kept.contains(sorted[i]));
    let j = choose|j: int| 0 <= j < kept.len() && kept[j] == sorted[i];
    lemma_filter_mem(all, shown(include_completed));
    assert(shown(include_completed)(kept[j]) && all.contains(kept[j]));
    let k = choose|k: int| 0 <= k < all.len() && all[k] == kept[j];
    law_list_shows_columns(s, cal, k);
    let r = display_rows(s, cal)[k];
    lemma_words();
    law_marks(s.ops, cal, r.uid);
    assert(s.tasks.contains(r));
}

/// Each row that is to be shown has a line on the screen.
pub proof fn law_screen_misses_no_row(
    s: StoreV,
    cal: Seq<char>,
    include_completed: bool,
    now: int,
    r: TaskRowV,
)
    requires
        s.tasks.contains(r),
        is_shown(r, cal, include_completed),
    ensures
        exists|i: int|
            0 <= i < screen_list(s, cal, include_completed, now).tasks.len() && shows_row(
                #[trigger] screen_list(s, cal, include_completed, now).tasks[i],
                r,
                s.ops,
            ),
{
    let marks = marks_of(s.ops, cal, s.ops.len() as int);
    law_list_shows_visible(s, cal, r);
    let rows = display_rows(s, cal);
    let k = choose|k: int| 0 <= k < rows.len() && rows[k] == r;
    let all = task_list(s, cal);
    let t = all[k];
    assert(t == row_task(r));
    lemma_words();
    let p = shown(include_completed);
    assert(p(t));
    lemma_filter_mem(all, p);
    assert(all.contains(t));
    let kept = all.filter(p);
    assert(kept.contains(t));
    lemma_ordered_keeps(kept, task_order(), t);
    let sorted = ordered(kept, task_order());
    let i = choose|i: int| 0 <= i < sorted.len() && sorted[i] == t;
    law_marks(s.ops, cal, r.uid);
    assert(shows_row(screen_list(s, cal, include_completed, now).tasks[i], r, s.ops));
}

/// A line may stand before another one on the screen.
pub open spec fn line_may_precede(a: ListRowV, b: ListRowV) -> bool {
    ||| !a.completed && b.completed
    ||| a.completed == b.completed && a.due is Some && b.due is None
    ||| a.completed == b.completed && a.due is Some && b.due is Some && !text_less(
        b.due->Some_0,
        a.due->Some_0,
    )
    ||| a.completed == b.completed && a.due is None && b.due is None
}

proof fn lemma_task_order()
    ensures
        orders(task_order()),
{
    let less = task_order();
    assert forall|a: TaskV| !(#[trigger] less(a, a)) by {
        law_text_order_strict(due_text(a.due));
    }
    assert forall|a: TaskV, b: TaskV, c: TaskV|
        #![trigger less(a, b), less(b, c)]
        less(a, b) && less(b, c) implies less(a, c) by {
        let (x, y, z) = (due_text(a.due), due_text(b.due), due_text(c.due));
        if text_less(x, y) && text_less(y, z) {
            law_text_order_transitive(x, y, z);
        }
    }
    assert forall|a: TaskV, b: TaskV, c: TaskV|
        #![trigger less(a, b), less(b, c)]
        !less(a, b) && !less(b, c) implies !less(a, c) by {
        let (x, y, z) = (due_text(a.due), due_text(b.due), due_text(c.due));
        law_text_order_total(x, y);
        law_text_order_total(y, z);
        law_text_order_strict(x);
        if text_less(y, x) && text_less(z, y) {
            law_text_order_transitive(z, y, x);
        }
        if text_less(x, z) && text_less(z, x) {
            law_text_order_transitive(x, z, x);
        }
    }
}

/// The lines on the screen stand in order: open tasks first, then those with a due date, the
/// earlier date first.
pub proof fn law_screen_order(
    s: StoreV,
    cal: Seq<char>,
    include_completed: bool,
    now: int,
    i: int,
    j: int,
)
    requires
        0 <= i < j < screen_list(s, cal, include_completed, now).tasks.len(),
    ensures
        line_may_precede(
            screen_list(s, cal, include_completed, now).tasks[i],
            screen_list(s, cal, include_completed, now).tasks[j],
        ),
{
    let kept = task_list(s, cal).filter(shown(include_completed));
    lemma_task_order();
    lemma_ordered(kept, task_order());
    let sorted = ordered(kept, task_order());
    assert(!task_order()(sorted[j], sorted[i]));
}

/// Beside each line stands where its task was captured: the label, and the document and the
/// page with a comma between them; nothing where the task was not captured. It is what the
/// first row of the task has.
pub proof fn law_sources_stand_beside(
    s: StoreV,
    cal: Seq<char>,
    include_completed: bool,
    now: int,
    i: int,
    k: int,
)
    requires
        0 <= i < screen_list(s, cal, include_completed, now).tasks.len(),
        is_first_row(
            s.tasks,
            k,
            cal,
            screen_list(s, cal, include_completed, now).tasks[i].uid,
        ),
    ensures
        ({
            let shown_list = screen_list(s, cal, include_completed, now);
            let source = shown_list.sources[i];
            &&& shown_list.sources.len() == shown_list.tasks.len()
            &&& match s.tasks[k].anchor {
                Some(a) => source.0 == a.label && source.1 == a.doc_uuid + ","@ + a.page_key,
                None => source.0.len() == 0 && source.1.len() == 0,
            }
        }),
{
    let uid = screen_list(s, cal, include_completed, now).tasks[i].uid;
    let p = of_uid(cal, uid);
    assert forall|j: int| 0 <= j < k implies !p(#[trigger] s.tasks[j]) by {}
    crate::seqs::lemma_find_is(s.tasks, p, k as nat);
    reveal_strlit("");
}

/// Above the list stands how long ago it was synced, if ever; the device's own list says
/// that it is stored there.
pub proof fn law_last_sync_is_told(
    s: StoreV,
    cal: Seq<char>,
    include_completed: bool,
    now: int,
)
    ensures
        ({
            let line = screen_list(s, cal, include_completed, now).last_synced;
            &&& cal == "local://default"@ ==> line == Some("Stored on this reMarkable."@)
            &&& cal != "local://default"@ && synced_at(s, cal) is None ==> line is None
            &&& cal != "local://default"@ && synced_at(s, cal) is Some ==> line == Some(
                "Last synced "@ + age_words(
                    if now >= synced_at(s, cal)->Some_0 {
                        (now - synced_at(s, cal)->Some_0) as nat
                    } else {
                        0
                    },
                ) + " ago."@,
            )
        }),
{
}

/// An age is told in the largest unit that fits into it, as often as it fits, with an `s`
/// behind the unit unless it fits once.
pub proof fn law_age_in_words(secs: nat, n: nat)
    ensures
        secs < 60 ==> age_words(secs) == "<1 minute"@,
        1 <= n < 60 && 60 * n <= secs < 60 * (n + 1) ==> age_words(secs) == decimal(n) + (if n
            == 1 {
            " minute"@
        } else {
            " minutes"@
        }),
        1 <= n < 24 && 3600 * n <= secs < 3600 * (n + 1) ==> age_words(secs) == decimal(n) + (if n
            == 1 {
            " hour"@
        } else {
            " hours"@
        }),
        1 <= n && 86400 * n <= secs < 86400 * (n + 1) ==> age_words(secs) == decimal(n) + (if n
            == 1 {
            " day"@
        } else {
            " days"@
        }),
{
    reveal_strlit("");
    reveal_strlit("s");
    reveal_strlit(" ");
    reveal_strlit("minute");
    reveal_strlit("hour");
    reveal_strlit("day");
    reveal_strlit(" minute");
    reveal_strlit(" hour");
    reveal_strlit(" day");
    reveal_strlit(" minutes");
    reveal_strlit(" hours");
    reveal_strlit(" days");
    let d = decimal(n);
    assert(d + " "@ + "minute"@ + ""@ =~= d + " minute"@);
    assert(d + " "@ + "minute"@ + "s"@ =~= d + " minutes"@);
    assert(d + " "@ + "hour"@ + ""@ =~= d + " hour"@);
    assert(d + " "@ + "hour"@ + "s"@ =~= d + " hours"@);
    assert(d + " "@ + "day"@ + ""@ =~= d + " day"@);
    assert(d + " "@ + "day"@ + "s"@ =~= d + " days"@);
    if 1 <= n < 60 && 60 * n <= secs < 60 * (n + 1) {
        assert(secs / 60 == n);
    }
    if 1 <= n < 24 && 3600 * n <= secs < 3600 * (n + 1) {
        assert(secs / 3600 == n);
    }
    if 1 <= n && 86400 * n <= secs < 86400 * (n + 1) {
        assert(secs / 86400 == n);
    }
}

/// A line of the list as text: the box, which is ticked where the task is completed, the
/// summary, and the due date in brackets if there is one.
pub proof fn law_task_in_words(t: TaskV)
    ensures
        task_line(t) == (if t.status == TaskStatus::Completed {
            "✓ "@
        } else {
            "☐ "@
        }) + t.summary + (match t.due {
            Some(d) => " (due "@ + d + ")"@,
            None => Seq::<char>::empty(),
        }),
{
    reveal_strlit("✓");
    reveal_strlit("☐");
    reveal_strlit(" ");
    reveal_strlit("✓ ");
    reveal_strlit("☐ ");
    assert("✓"@ + " "@ =~= "✓ "@);
    assert("☐"@ + " "@ =~= "☐ "@);
    match t.due {
        Some(d) => {
            let g = if t.status == TaskStatus::Completed {
                "✓ "@
            } else {
                "☐ "@
            };
            assert(g + t.summary + " (due "@ + d + ")"@ =~= g + t.summary + (" (due "@ + d
                + ")"@));
        },
        None => {
            assert(task_line(t) =~= (if t.status == TaskStatus::Completed {
                "✓ "@
            } else {
                "☐ "@
            }) + t.summary + Seq::<char>::empty());
        },
    }
}

/// The screen lists every known list by its address and its name, in order.
pub proof fn law_known_lists(cals: Seq<CalendarRowV>)
    ensures
        known_lists(cals).len() == cals.len(),
        forall|i: int|
            0 <= i < cals.len() ==> (#[trigger] known_lists(cals)[i]).0 == cals[i].href
                && known_lists(cals)[i].1 == cals[i].display_name,
{
}

// --- The queue on the screen ---

/// The line shows the operation, under a summary.
pub open spec fn shows_op(line: PendingOpViewV, op: PendingOpV, summary: Seq<char>) -> bool {
    &&& line.id == op.id && line.op_type == op.op_type && line.summary == summary
    &&& line.enqueued_at == op.enqueued_at && line.error_count == op.error_count
    &&& line.last_error == op.last_error && line.errored == op.errored
}

/// A row of the task that the operation is about has this summary; where there is no such
/// row, the summary is unknown.
pub open spec fn is_summary_for(s: StoreV, op: PendingOpV, summary: Seq<char>) -> bool {
    ||| exists|k: int|
        0 <= k < s.tasks.len() && (#[trigger] s.tasks[k]).calendar_href == op.target_calendar_href
            && s.tasks[k].uid == op.target_uid && s.tasks[k].summary == summary
    ||| summary == "(unknown)"@ && forall|k: int|
        0 <= k < s.tasks.len() ==> !((#[trigger] s.tasks[k]).calendar_href
            == op.target_calendar_href && s.tasks[k].uid == op.target_uid)
}

/// The line shows the operation under the summary of one of the first `n` rows.
spec fn is_hit(line: PendingOpViewV, op: PendingOpV, tasks: Seq<TaskRowV>, n: int) -> bool {
    exists|k: int|
        0 <= k < n && (#[trigger] tasks[k]).calendar_href == op.target_calendar_href
            && tasks[k].uid == op.target_uid && shows_op(line, op, tasks[k].summary)
}

proof fn lemma_matches(op: PendingOpV, tasks: Seq<TaskRowV>, n: nat)
    requires
        n <= tasks.len(),
    ensures
        forall|i: int|
            0 <= i < matches_shown(op, tasks, n).len() ==> is_hit(
                #[trigger] matches_shown(op, tasks, n)[i],
                op,
                tasks,
                n as int,
            ),
        forall|k: int|
            0 <= k < n && (#[trigger] tasks[k]).calendar_href == op.target_calendar_href
                && tasks[k].uid == op.target_uid ==> exists|i: int|
                0 <= i < matches_shown(op, tasks, n).len() && shows_op(
                    #[trigger] matches_shown(op, tasks, n)[i],
                    op,
                    tasks[k].summary,
                ),
    decreases n,
{
    if n > 0 {
        let m = (n - 1) as nat;
        lemma_matches(op, tasks, m);
        let before = matches_shown(op, tasks, m);
        let after = matches_shown(op, tasks, n);
        let hit = of_uid(op.target_calendar_href, op.target_uid)(tasks[m as int]);
        assert forall|i: int| 0 <= i < after.len() implies is_hit(
            #[trigger] after[i],
            op,
            tasks,
            n as int,
        ) by {
            if i < before.len() {
                assert(after[i] == before[i]);
                assert(is_hit(before[i], op, tasks, m as int));
                let k = choose|k: int|
                    0 <= k < m && (#[trigger] tasks[k]).calendar_href == op.target_calendar_href
                        && tasks[k].uid == op.target_uid && shows_op(
                        before[i],
                        op,
                        tasks[k].summary,
                    );
                assert(tasks[k].uid == op.target_uid);
            } else {
                assert(tasks[m as int].uid == op.target_uid);
            }
        }
        assert forall|k: int|
            0 <= k < n && (#[trigger] tasks[k]).calendar_href == op.target_calendar_href
                && tasks[k].uid == op.target_uid implies exists|i: int|
            0 <= i < after.len() && shows_op(#[trigger] after[i], op, tasks[k].summary) by {
            if k < m {
                let i = choose|i: int|
                    0 <= i < before.len() && shows_op(#[trigger] before[i], op, tasks[k].summary);
                assert(after[i] == before[i]);
            } else {
                assert(hit);
                assert(shows_op(after[before.len() as int], op, tasks[k].summary));
            }
        }
    }
}

proof fn lemma_op_shown(s: StoreV, op: PendingOpV)
    ensures
        op_shown(op, s.tasks).len() > 0,
        forall|i: int|
            0 <= i < op_shown(op, s.tasks).len() ==> is_summary_for(
                s,
                op,
                (#[trigger] op_shown(op, s.tasks)[i]).summary,
            ) && shows_op(op_shown(op, s.tasks)[i], op, op_shown(op, s.tasks)[i].summary),
        forall|m: Seq<char>| #[trigger]
            is_summary_for(s, op, m) ==> exists|i: int|
                0 <= i < op_shown(op, s.tasks).len() && shows_op(
                    #[trigger] op_shown(op, s.tasks)[i],
                    op,
                    m,
                ),
{
    lemma_matches(op, s.tasks, s.tasks.len());
    let hits = matches_shown(op, s.tasks, s.tasks.len());
    let out = op_shown(op, s.tasks);
    if hits.len() == 0 {
        assert(shows_op(out[0], op, "(unknown)"@));
        assert forall|k: int| 0 <= k < s.tasks.len() implies !((
        #[trigger] s.tasks[k]).calendar_href == op.target_calendar_href && s.tasks[k].uid
            == op.target_uid) by {}
    } else {
        assert(is_hit(hits[0], op, s.tasks, s.tasks.len() as int));
        assert forall|i: int| 0 <= i < out.len() implies is_summary_for(
            s,
            op,
            (#[trigger] out[i]).summary,
        ) && shows_op(out[i], op, out[i].summary) by {
            assert(is_hit(hits[i], op, s.tasks, s.tasks.len() as int));
        }
    }
    assert forall|m: Seq<char>| #[trigger] is_summary_for(s, op, m) implies exists|i: int|
        0 <= i < out.len() && shows_op(#[trigger] out[i], op, m) by {
        if exists|k: int|
            0 <= k < s.tasks.len() && (#[trigger] s.tasks[k]).calendar_href
                == op.target_calendar_href && s.tasks[k].uid == op.target_uid
                && s.tasks[k].summary == m {
            let k = choose|k: int|
                0 <= k < s.tasks.len() && (#[trigger] s.tasks[k]).calendar_href
                    == op.target_calendar_href && s.tasks[k].uid == op.target_uid
                    && s.tasks[k].summary == m;
            assert(s.tasks[k].uid == op.target_uid);
            let i = choose|i: int|
                0 <= i < hits.len() && shows_op(#[trigger] hits[i], op, s.tasks[k].summary);
            assert(out[i] == hits[i]);
        } else {
            assert(hits.len() == 0);
            assert(shows_op(out[0], op, m));
        }
    }
}

/// The line shows one of the first `n` operations, under a summary for it.
pub open spec fn shows_some_op(s: StoreV, line: PendingOpViewV, n: int) -> bool {
    exists|k: int|
        0 <= k < n && is_summary_for(s, #[trigger] s.ops[k], line.summary) && shows_op(
            line,
            s.ops[k],
            line.summary,
        )
}

proof fn lemma_ops_shown(s: StoreV, n: nat)
    requires
        n <= s.ops.len(),
    ensures
        forall|i: int|
            0 <= i < ops_shown(s, n).len() ==> shows_some_op(
                s,
                #[trigger] ops_shown(s, n)[i],
                n as int,
            ),
        forall|k: int, m: Seq<char>|
            0 <= k < n && #[trigger] is_summary_for(s, s.ops[k], m) ==> exists|i: int|
                0 <= i < ops_shown(s, n).len() && shows_op(
                    #[trigger] ops_shown(s, n)[i],
                    s.ops[k],
                    m,
                ),
    decreases n,
{
    if n > 0 {
        let m = (n - 1) as nat;
        lemma_ops_shown(s, m);
        let before = ops_shown(s, m);
        let op = s.ops[m as int];
        let more = op_shown(op, s.tasks);
        let after = ops_shown(s, n);
        lemma_op_shown(s, op);
        assert forall|i: int| 0 <= i < after.len() implies shows_some_op(
            s,
            #[trigger] after[i],
            n as int,
        ) by {
            if i < before.len() {
                assert(after[i] == before[i]);
                assert(shows_some_op(s, before[i], m as int));
                let k = choose|k: int|
                    0 <= k < m && is_summary_for(s, #[trigger] s.ops[k], before[i].summary)
                        && shows_op(before[i], s.ops[k], before[i].summary);
                assert(is_summary_for(s, s.ops[k], after[i].summary));
            } else {
                assert(after[i] == more[i - before.len()]);
                assert(is_summary_for(s, s.ops[m as int], after[i].summary));
            }
        }
        assert forall|k: int, w: Seq<char>|
            0 <= k < n && #[trigger] is_summary_for(s, s.ops[k], w) implies exists|i: int|
            0 <= i < after.len() && shows_op(#[trigger] after[i], s.ops[k], w) by {
            if k < m {
                let i = choose|i: int|
                    0 <= i < before.len() && shows_op(#[trigger] before[i], s.ops[k], w);
                assert(after[i] == before[i]);
            } else {
                let i = choose|i: int| 0 <= i < more.len() && shows_op(#[trigger] more[i], op, w);
                assert(after[before.len() + i] == more[i]);
            }
        }
    }
}

/// The queue has a line for each operation, under the summary of each row of its task, or
/// one under an unknown summary; and no other lines.
pub proof fn law_queue_lines(s: StoreV, now: int)
    ensures
        forall|i: int|
            0 <= i < ops_shown(s, s.ops.len()).len() ==> shows_some_op(
                s,
                #[trigger] ops_shown(s, s.ops.len())[i],
                s.ops.len() as int,
            ),
        forall|k: int, m: Seq<char>|
            0 <= k < s.ops.len() && #[trigger] is_summary_for(s, s.ops[k], m) ==> exists|i: int|
                0 <= i < ops_shown(s, s.ops.len()).len() && shows_op(
                    #[trigger] ops_shown(s, s.ops.len())[i],
                    s.ops[k],
                    m,
                ),
        screen_queue(s, now).pending_count == ops_shown(s, s.ops.len()).len(),
{
    lemma_ops_shown(s, s.ops.len());
}

/// The line on the screen tells of a failed operation: when it was queued, how often it
/// failed, at least once, whether it was given up, and the words of the last failure.
pub open spec fn tells_failure(e: PendingErrorV, line: PendingOpViewV, now: int) -> bool {
    &&& e.id == line.id && e.op_type == line.op_type && e.summary == line.summary
    &&& e.errored == (line.errored == 1)
    &&& e.error_count == if line.error_count < 1 {
        1
    } else {
        line.error_count
    }
    &&& e.last_error == match line.last_error {
        Some(m) => m,
        None => ""@,
    }
    &&& line.enqueued_at >= 0 && now >= line.enqueued_at ==> e.age == age_words(
        (now - line.enqueued_at) as nat,
    )
    &&& line.enqueued_at >= 0 && now < line.enqueued_at ==> e.age == "<1 minute"@
}

/// The error is that of one of the lines, which was given up or has failed before.
pub open spec fn tells_of_line(e: PendingErrorV, lines: Seq<PendingOpViewV>, now: int) -> bool {
    exists|k: int|
        {
            &&& 0 <= k < lines.len()
            &&& (#[trigger] lines[k]).errored == 1 || lines[k].error_count != 0
            &&& tells_failure(e, lines[k], now)
        }
}

/// The errors on the screen are those of the lines that were given up or have failed before,
/// and all of them.
pub proof fn law_queue_errors(s: StoreV, now: int)
    ensures
        forall|i: int|
            0 <= i < screen_queue(s, now).errors.len() ==> tells_of_line(
                #[trigger] screen_queue(s, now).errors[i],
                ops_shown(s, s.ops.len()),
                now,
            ),
        forall|k: int|
            0 <= k < ops_shown(s, s.ops.len()).len() && ((#[trigger] ops_shown(
                s,
                s.ops.len(),
            )[k]).errored == 1 || ops_shown(s, s.ops.len())[k].error_count != 0) ==> exists|i: int|
                0 <= i < screen_queue(s, now).errors.len() && tells_failure(
                    #[trigger] screen_queue(s, now).errors[i],
                    ops_shown(s, s.ops.len())[k],
                    now,
                ),
{
    let lines = ops_shown(s, s.ops.len());
    let p = has_error();
    let f = lines.filter(p);
    lemma_filter_mem(lines, p);
    let out = screen_queue(s, now).errors;
    assert forall|i: int| 0 <= i < out.len() implies tells_of_line(
        #[trigger] out[i],
        lines,
        now,
    ) by {
        assert(p(f[i]) && lines.contains(f[i]));
        let k = choose|k: int| 0 <= k < lines.len() && lines[k] == f[i];
        assert(tells_failure(out[i], lines[k], now));
    }
    assert forall|k: int|
        0 <= k < lines.len() && ((#[trigger] lines[k]).errored == 1 || lines[k].error_count
            != 0) implies exists|i: int|
        0 <= i < out.len() && tells_failure(#[trigger] out[i], lines[k], now) by {
        assert(p(lines[k]));
        assert(lines.contains(lines[k]));
        assert(f.contains(lines[k]));
        let i = choose|i: int| 0 <= i < f.len() && f[i] == lines[k];
        assert(tells_failure(out[i], lines[k], now));
    }
}

/// Each task of a list has one row at most.
pub open spec fn one_row_each(tasks: Seq<TaskRowV>) -> bool {
    forall|i: int, j: int|
        0 <= i < j < tasks.len() ==> !((#[trigger] tasks[i]).calendar_href == (
        #[trigger] tasks[j]).calendar_href && tasks[i].uid == tasks[j].uid)
}

proof fn lemma_one_match(op: PendingOpV, tasks: Seq<TaskRowV>, n: nat)
    requires
        n <= tasks.len(),
        one_row_each(tasks),
    ensures
        matches_shown(op, tasks, n).len() <= 1,
        matches_shown(op, tasks, n).len() == 1 ==> exists|k: int|
            0 <= k < n && (#[trigger] tasks[k]).calendar_href == op.target_calendar_href
                && tasks[k].uid == op.target_uid,
    decreases n,
{
    if n > 0 {
        let m = (n - 1) as nat;
        lemma_one_match(op, tasks, m);
        if of_uid(op.target_calendar_href, op.target_uid)(tasks[m as int]) {
            if matches_shown(op, tasks, m).len() == 1 {
                let k = choose|k: int|
                    0 <= k < m && (#[trigger] tasks[k]).calendar_href == op.target_calendar_href
                        && tasks[k].uid == op.target_uid;
                assert(!(tasks[k].calendar_href == tasks[m as int].calendar_href && tasks[k].uid
                    == tasks[m as int].uid));
            }
            assert(tasks[m as int].uid == op.target_uid);
        }
    }
}

proof fn lemma_line_per_op(s: StoreV, n: nat)
    requires
        n <= s.ops.len(),
        one_row_each(s.tasks),
    ensures
        ops_shown(s, n).len() == n,
        forall|i: int|
            0 <= i < n ==> shows_op(
                #[trigger] ops_shown(s, n)[i],
                s.ops[i],
                ops_shown(s, n)[i].summary,
            ) && is_summary_for(s, s.ops[i], ops_shown(s, n)[i].summary),
    decreases n,
{
    if n > 0 {
        let m = (n - 1) as nat;
        let op = s.ops[m as int];
        lemma_line_per_op(s, m);
        lemma_one_match(op, s.tasks, s.tasks.len());
        lemma_op_shown(s, op);
        let before = ops_shown(s, m);
        let after = ops_shown(s, n);
        let more = op_shown(op, s.tasks);
        assert(more.len() == 1);
        assert forall|i: int| 0 <= i < n implies shows_op(
            #[trigger] after[i],
            s.ops[i],
            after[i].summary,
        ) && is_summary_for(s, s.ops[i], after[i].summary) by {
            if i < m {
                assert(after[i] == before[i]);
            } else {
                assert(after[i] == more[0]);
            }
        }
    }
}

/// Where each task has one row at most, the queue has one line for each operation, in order,
/// and the screen counts the operations.
pub proof fn law_queue_is_counted(s: StoreV, now: int)
    requires
        one_row_each(s.tasks),
    ensures
        screen_queue(s, now).pending_count == s.ops.len(),
        ops_shown(s, s.ops.len()).len() == s.ops.len(),
        forall|i: int|
            0 <= i < s.ops.len() ==> shows_op(
                #[trigger] ops_shown(s, s.ops.len())[i],
                s.ops[i],
                ops_shown(s, s.ops.len())[i].summary,
            ) && is_summary_for(s, s.ops[i], ops_shown(s, s.ops.len())[i].summary),
{
    lemma_line_per_op(s, s.ops.len());
}

// --- Conflicts ---

/// Above the list stands how many conflicts there are to resolve: toggles and edits that
/// were given up because the server refused them twice.
pub proof fn law_conflicts_are_counted(
    s: StoreV,
    cal: Seq<char>,
    include_completed: bool,
    now: int,
)
    ensures
        screen_list(s, cal, include_completed, now).conflicts == s.ops.filter(
            |o: PendingOpV|
                o.errored == 1 && (o.op_type == "toggle"@ || o.op_type == "edit"@) && (
                o.last_error matches Some(m) && holds(ascii_lower(m), "double-412"@)),
        ).len(),
{
    let p = resolvable();
    let q = |o: PendingOpV|
        o.errored == 1 && (o.op_type == "toggle"@ || o.op_type == "edit"@) && (
        o.last_error matches Some(m) && holds(ascii_lower(m), "double-412"@));
    assert forall|o: PendingOpV| #[trigger] p(o) == q(o) by {
        if o.last_error is Some {
            let m = ascii_lower(o.last_error->Some_0);
            let words = "double-412"@;
            if has_sub(m, words) {
                let i = choose|i: int| stands_at(m, words, i);
                assert(m.subrange(i, i + words.len()) == words);
            }
            if holds(m, words) {
                let i = choose|i: int|
                    0 <= i && i + words.len() <= m.len() && #[trigger] m.subrange(
                        i,
                        i + words.len(),
                    ) == words;
                assert(stands_at(m, words, i));
            }
        }
    }
    assert(p =~= q);
}

/// In the list as text, the mark stands in front of the line where any task has one: `! `
/// for one with an operation that was given up, `* ` for one whose operations wait, and
/// blanks for any other.
pub proof fn law_marks_in_text(ops: Seq<PendingOpV>, cal: Seq<char>, t: TaskV)
    ensures
        ({
            let marks = marks_of(ops, cal, ops.len() as int);
            let any = exists|uid: Seq<char>| is_queued(ops, cal, uid);
            &&& !any ==> marked_line(t, marks) == task_line(t)
            &&& any ==> marked_line(t, marks) == (if is_given_up(ops, cal, t.uid) {
                "! "@
            } else if is_queued(ops, cal, t.uid) {
                "* "@
            } else {
                "  "@
            }) + task_line(t)
        }),
{
    let n = ops.len() as int;
    let marks = marks_of(ops, cal, n);
    assert forall|uid: Seq<char>|
        #![trigger marks.dom().contains(uid)]
        #![trigger is_queued(ops, cal, uid)]
        marks.dom().contains(uid) == is_queued(ops, cal, uid) by {
        if is_queued(ops, cal, uid) {
            let i = choose|i: int|
                0 <= i < ops.len() && (#[trigger] ops[i]).target_calendar_href == cal
                    && ops[i].target_uid == uid;
            assert(op_on(ops[i], cal, uid));
        }
    }
    if is_given_up(ops, cal, t.uid) {
        let i = choose|i: int|
            0 <= i < ops.len() && (#[trigger] ops[i]).target_calendar_href == cal
                && ops[i].target_uid == t.uid && ops[i].errored != 0;
        assert(op_on(ops[i], cal, t.uid));
        assert(is_queued(ops, cal, t.uid));
    }
    if exists|uid: Seq<char>| is_queued(ops, cal, uid) {
        let uid = choose|uid: Seq<char>| is_queued(ops, cal, uid);
        assert(marks.dom().contains(uid));
        assert(!Map::<Seq<char>, bool>::empty().dom().contains(uid));
    } else {
        assert(marks =~= Map::<Seq<char>, bool>::empty());
    }
}

} // verus!
