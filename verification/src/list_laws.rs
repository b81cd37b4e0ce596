//! What holds of the lists on the screen and of a sync for every state of the
//! tables.
use vstd::prelude::*;
use crate::cache::{
    knows_calendar, local_row, not_keyed, not_stale, synced_at, task_upserted, token_of, token_set,
    with_local_list, without_remote,
};
use crate::clock::MomentV;
use crate::config::{account_set_up, merged_password, CaldavConfigV, ConfigV, LOCAL_LIST_ID};
use crate::conflict::{
    decision_in, first_preview, keep_mine, mine_kept, resolvable_op, still_resolvable, take_theirs,
    DecisionKind,
};
use crate::display::{
    glyph, mark_prefix, marked_line, marked_lines, marked_list, row_mark, task_line, task_order,
};
use crate::failure::FailureV;
use crate::handlers::active_href;
use crate::http::{get_meaning, put_request_of, ReplyV, StepV};
use crate::ical::lemma_joined_one;
use crate::listing::{
    display_order, display_rows, due_text, first_listed, marks_of, op_on, row_before, row_completed,
    row_task, task_list, visible,
};
use crate::multistatus::{SyncDeltaV, TaskRecordV};
use crate::pending::{
    changes_text, cleared, has_open_change, lost_change_in, not_errored_on, not_given_up,
    open_change_on, resolvable,
};
use crate::queue::{hand_next, no_activity, FlushActionV, FlushSummaryV, HandV};
use crate::reconcile::{hrefs_taken, reconciled, record_hrefs, records_put, sync_line, sync_report};
use crate::rewrite_laws::{ended_line, law_lines_cut_again, line_like};
use crate::seqs::{
    count, find, in_order, lemma_filter_mem, lemma_find, lemma_ordered, lemma_ordered_already,
    lemma_ordered_members, ordered, orders,
};
use crate::session::{sync_next, SyncActionV, SyncStageV};
use crate::store::{
    calendar_with_href, keyed, of_uid, op_with_id, task_keys_unique, PendingOpV, StoreV, TaskRowV,
};
use crate::sync::{discovery, probing, pull};
use crate::task::{TaskStatus, TaskV};
use crate::text::{
    ascii_lower, joined, lemma_index_before_at, lines_inclusive, signed_decimal, stands_at,
    text_less,
};
use crate::text_laws::{
    law_number_reads_back, law_text_order_strict, law_text_order_total, law_text_order_transitive,
};
use crate::weburl::task_url;

verus! {

// --- The list with its marks ---

/// The lines of a text: each but the last with its line feed.
pub open spec fn with_ends(lines: Seq<Seq<char>>) -> Seq<Seq<char>> {
    Seq::new(
        lines.len(),
        |i: int|
            if i < lines.len() - 1 {
                lines[i] + "\n"@
            } else {
                lines[i]
            },
    )
}

proof fn lemma_joined_with_ends(lines: Seq<Seq<char>>)
    requires
        lines.len() > 0,
    ensures
        joined(lines, "\n"@) == crate::ical::joined(with_ends(lines)),
    decreases lines.len(),
{
    let all = with_ends(lines);
    if lines.len() == 1 {
        assert(all =~= seq![lines[0]]);
        lemma_joined_one(lines[0]);
    } else {
        let front = lines.drop_last();
        let n = front.len() - 1;
        lemma_joined_with_ends(front);
        // all but the last two lines, then the two
        let head = with_ends(front).drop_last();
        assert(with_ends(front).last() == front[n]);
        assert(all.drop_last().drop_last() =~= head);
        assert(all.drop_last().last() == front[n] + "\n"@);
        assert(all.last() == lines.last());
        assert(crate::ical::joined(all.drop_last()) == crate::ical::joined(head) + (front[n]
            + "\n"@));
        assert(crate::ical::joined(all) =~= crate::ical::joined(head) + front[n] + "\n"@
            + lines.last());
        assert(crate::ical::joined(with_ends(front)) == crate::ical::joined(head) + front[n]);
        assert(joined(lines, "\n"@) =~= crate::ical::joined(head) + front[n] + "\n"@
            + lines.last());
    }
}

/// A task whose line is one line.
pub open spec fn on_one_line(t: TaskV) -> bool {
    &&& no_line_feed(t.summary)
    &&& t.due matches Some(d) ==> no_line_feed(d)
}

pub open spec fn no_line_feed(s: Seq<char>) -> bool {
    forall|i: int| 0 <= i < s.len() ==> #[trigger] s[i] != '\n'
}

proof fn lemma_line_of_task(t: TaskV, marks: Map<Seq<char>, bool>)
    requires
        on_one_line(t),
    ensures
        marked_line(t, marks).len() > 0,
        no_line_feed(marked_line(t, marks)),
{
    reveal_strlit("✓");
    reveal_strlit("☐");
    reveal_strlit(" ");
    reveal_strlit(" (due ");
    reveal_strlit(")");
    reveal_strlit("  ");
    reveal_strlit("! ");
    reveal_strlit("* ");
    let g = glyph(t.status);
    assert(no_line_feed(g) && g.len() == 1);
    let body = task_line(t);
    assert(no_line_feed(body)) by {
        let a = g + " "@;
        assert(no_line_feed(a));
        let b = a + t.summary;
        assert(no_line_feed(b)) by {
            assert forall|i: int| 0 <= i < b.len() implies #[trigger] b[i] != '\n' by {
                if i >= a.len() {
                    assert(b[i] == t.summary[i - a.len()]);
                } else {
                    assert(b[i] == a[i]);
                }
            }
        }
        match t.due {
            Some(d) => {
                let c = b + " (due "@;
                assert forall|i: int| 0 <= i < body.len() implies #[trigger] body[i] != '\n' by {
                    if i < b.len() {
                        assert(body[i] == b[i]);
                    } else if i >= c.len() && i < c.len() + d.len() {
                        assert(body[i] == d[i - c.len()]);
                    }
                }
            },
            None => {
                assert(body =~= b);
            },
        }
    }
    let l = marked_line(t, marks);
    if marks != Map::<Seq<char>, bool>::empty() {
        let p = mark_prefix(t.uid, marks);
        assert(p.len() == 2 && no_line_feed(p));
        assert forall|i: int| 0 <= i < l.len() implies #[trigger] l[i] != '\n' by {
            if i < p.len() {
                assert(l[i] == p[i]);
            } else {
                assert(l[i] == body[i - p.len()]);
            }
        }
    }
}

/// The lines of the list are the tasks in display order, each on its line.
pub proof fn law_list_has_a_line_per_task(tasks: Seq<TaskV>, marks: Map<Seq<char>, bool>)
    requires
        forall|i: int| 0 <= i < tasks.len() ==> on_one_line(#[trigger] tasks[i]),
    ensures
        tasks.len() == 0 ==> marked_list(tasks, marks) == "(no tasks)"@,
        tasks.len() > 0 ==> lines_inclusive(marked_list(tasks, marks)) == with_ends(
            marked_lines(ordered(tasks, task_order()), marks),
        ),
{
    if tasks.len() > 0 {
        let ts = ordered(tasks, task_order());
        lemma_ordered_members(tasks, task_order());
        let lines = marked_lines(ts, marks);
        let all = with_ends(lines);
        lemma_joined_with_ends(lines);
        reveal_strlit("\n");
        assert forall|i: int| 0 <= i < all.len() implies line_like(#[trigger] all[i]) && (i
            < all.len() - 1 ==> ended_line(all[i])) by {
            assert(tasks.contains(ts[i]));
            let k = choose|k: int| 0 <= k < tasks.len() && tasks[k] == ts[i];
            assert(on_one_line(tasks[k]));
            lemma_line_of_task(ts[i], marks);
            assert(lines[i] == marked_line(ts[i], marks));
            let l = lines[i];
            assert forall|j: int| 0 <= j < all[i].len() - 1 implies #[trigger] all[i][j] != '\n' by {
                assert(all[i][j] == l[j]);
            }
        }
        law_lines_cut_again(all);
    }
}

/// With marks, each line of the list is the mark of its task in front of the line without
/// marks: `! ` for one given up, `* ` for one that waits, blanks for any other.
pub proof fn law_marks_stand_in_front(tasks: Seq<TaskV>, marks: Map<Seq<char>, bool>, i: int)
    requires
        marks != Map::<Seq<char>, bool>::empty(),
        0 <= i < tasks.len(),
    ensures
        marked_lines(tasks, marks).len() == marked_lines(tasks, Map::empty()).len(),
        marked_lines(tasks, marks)[i] == mark_prefix(tasks[i].uid, marks) + marked_lines(
            tasks,
            Map::empty(),
        )[i],
{
}

// --- Order ---

/// What is not less, and not greater, is the same.
proof fn lemma_text_not_less(a: Seq<char>, b: Seq<char>, c: Seq<char>)
    requires
        !text_less(a, b),
        !text_less(b, c),
    ensures
        !text_less(a, c),
{
    law_text_order_total(a, b);
    law_text_order_total(b, c);
    if text_less(a, c) {
        if a == b {
        } else if b == c {
        } else {
            law_text_order_transitive(c, b, a);
            law_text_order_transitive(a, c, a);
            law_text_order_strict(a);
        }
    }
}

/// The order of the list orders: it is strict and transitive, and so is not
/// coming before.
pub proof fn law_display_order_orders()
    ensures
        orders(display_order()),
{
    let less = display_order();
    assert forall|a: TaskRowV| !(#[trigger] less(a, a)) by {
        law_text_order_strict(due_text(a.due));
        law_text_order_strict(a.href);
    }
    assert forall|a: TaskRowV, b: TaskRowV, c: TaskRowV|
        #![trigger less(a, b), less(b, c)]
        less(a, b) && less(b, c) implies less(a, c) by {
        lemma_rows_transitive(a, b, c);
    }
    assert forall|a: TaskRowV, b: TaskRowV, c: TaskRowV|
        #![trigger less(a, b), less(b, c)]
        !less(a, b) && !less(b, c) implies !less(a, c) by {
        lemma_rows_not_less(a, b, c);
    }
}

proof fn lemma_rows_transitive(a: TaskRowV, b: TaskRowV, c: TaskRowV)
    requires
        row_before(a, b),
        row_before(b, c),
    ensures
        row_before(a, c),
{
    let (x, y, z) = (due_text(a.due), due_text(b.due), due_text(c.due));
    if text_less(x, y) && text_less(y, z) {
        law_text_order_transitive(x, y, z);
    }
    if text_less(a.href, b.href) && text_less(b.href, c.href) {
        law_text_order_transitive(a.href, b.href, c.href);
    }
}

proof fn lemma_rows_not_less(a: TaskRowV, b: TaskRowV, c: TaskRowV)
    requires
        !row_before(a, b),
        !row_before(b, c),
    ensures
        !row_before(a, c),
{
    let (x, y, z) = (due_text(a.due), due_text(b.due), due_text(c.due));
    law_text_order_total(x, y);
    law_text_order_total(y, z);
    law_text_order_total(x, z);
    law_text_order_strict(x);
    law_text_order_strict(y);
    law_text_order_strict(z);
    if !text_less(x, y) && !text_less(y, z) {
        lemma_text_not_less(x, y, z);
    }
    if !text_less(a.href, b.href) && !text_less(b.href, c.href) {
        lemma_text_not_less(a.href, b.href, c.href);
    }
    if text_less(y, x) && text_less(z, y) {
        law_text_order_transitive(z, y, x);
    }
    if text_less(x, z) && text_less(z, x) {
        law_text_order_transitive(x, z, x);
    }
}

/// The list shows every visible row of its calendar once, open tasks before
/// completed ones, dated before undated ones, earlier dates first, and then by
/// href.
pub proof fn law_list_order(s: StoreV, cal: Seq<char>)
    ensures
        display_rows(s, cal).to_multiset() == s.tasks.filter(visible(cal)).to_multiset(),
        display_rows(s, cal).len() == s.tasks.filter(visible(cal)).len(),
        in_order(display_rows(s, cal), display_order()),
{
    law_display_order_orders();
    lemma_ordered(s.tasks.filter(visible(cal)), display_order());
}

/// A hidden row, or one of another calendar, is not in the list; every visible
/// one is.
pub proof fn law_list_shows_visible(s: StoreV, cal: Seq<char>, r: TaskRowV)
    ensures
        display_rows(s, cal).contains(r) == (s.tasks.contains(r) && visible(cal)(r)),
{
    law_list_order(s, cal);
    let v = s.tasks.filter(visible(cal));
    lemma_filter_mem(s.tasks, visible(cal));
    broadcast use vstd::seq_lib::group_to_multiset_ensures;

    let rows = display_rows(s, cal);
    assert(rows.contains(r) == (rows.to_multiset().count(r) > 0));
    assert(v.contains(r) == (v.to_multiset().count(r) > 0));
    if v.contains(r) {
        let i = choose|i: int| 0 <= i < v.len() && v[i] == r;
        assert(visible(cal)(v[i]) && s.tasks.contains(v[i]));
    }
}

/// The first task of the list is the one that the buttons for the first task act
/// on.
pub proof fn law_first_is_first(s: StoreV, cal: Seq<char>)
    ensures
        match first_listed(s, cal) {
            Some(t) => task_list(s, cal).len() > 0 && task_list(s, cal)[0].uid == t.uid
                && task_list(s, cal)[0].summary == t.summary,
            None => task_list(s, cal).len() == 0,
        },
{
}

/// Is the row completed in the eyes of the screen?
proof fn lemma_completed_named(r: TaskRowV)
    ensures
        (row_task(r).status == TaskStatus::Completed) == row_completed(r),
{
    reveal_strlit("needs-action");
    reveal_strlit("in-process");
    reveal_strlit("completed");
    let a = "needs-action"@;
    let b = "in-process"@;
    let c = "completed"@;
    assert(a[0] == 'n' && b[0] == 'i' && c[0] == 'c');
}

/// The screen lists the tasks in the order of the tables: laying them out does not
/// reorder them.
pub proof fn law_screen_keeps_order(s: StoreV, cal: Seq<char>)
    ensures
        ordered(task_list(s, cal), task_order()) == task_list(s, cal),
{
    law_list_order(s, cal);
    let rows = display_rows(s, cal);
    let ts = task_list(s, cal);
    assert forall|i: int, j: int| 0 <= i < j < ts.len() implies !task_order()(
        #[trigger] ts[j],
        #[trigger] ts[i],
    ) by {
        lemma_completed_named(rows[i]);
        lemma_completed_named(rows[j]);
        assert(!display_order()(rows[j], rows[i]));
    }
    lemma_ordered_already(ts, task_order());
}

// --- Marks ---

/// Without pending writes the list looks as if there were no marks at all.
pub proof fn law_no_marks_no_column(t: TaskV)
    ensures
        marked_line(t, Map::<Seq<char>, bool>::empty()) == task_line(t),
{
}

/// An errored operation wins over one that merely waits.
pub proof fn law_errored_wins(ops: Seq<PendingOpV>, cal: Seq<char>, i: int)
    requires
        0 <= i < ops.len(),
        ops[i].target_calendar_href == cal,
        ops[i].errored != 0,
    ensures
        ({
            let m = marks_of(ops, cal, ops.len() as int);
            m.dom().contains(ops[i].target_uid) && m[ops[i].target_uid] && row_mark(
                ops[i].target_uid,
                m,
            ) == "!"@
        }),
{
    assert(op_on(ops[i], cal, ops[i].target_uid));
}

/// A task without pending writes has no mark.
pub proof fn law_clean_task_unmarked(ops: Seq<PendingOpV>, cal: Seq<char>, uid: Seq<char>)
    requires
        forall|i: int| 0 <= i < ops.len() ==> !op_on(#[trigger] ops[i], cal, uid),
    ensures
        row_mark(uid, marks_of(ops, cal, ops.len() as int)) == ""@,
{
}

// --- Sync ---

/// A row that waits to be deleted stays hidden when the server reports it again,
/// and its source note is kept.
pub proof fn law_sync_keeps_tombstones(
    tasks: Seq<TaskRowV>,
    cal: Seq<char>,
    href: Seq<char>,
    etag: Seq<char>,
    ical: Seq<char>,
    uid: Seq<char>,
    t: TaskV,
)
    ensures
        ({
            let after = task_upserted(tasks, cal, href, etag, ical, uid, t);
            &&& forall|i: int|
                0 <= i < tasks.len() ==> (#[trigger] after[i]).pending_delete
                    == tasks[i].pending_delete && after[i].anchor == tasks[i].anchor
            &&& after.len() >= tasks.len()
        }),
{
    lemma_find(tasks, keyed(cal, href), 0);
}

/// What the server reports of a task is in the cache afterwards.
pub proof fn law_upsert_is_there(
    tasks: Seq<TaskRowV>,
    cal: Seq<char>,
    href: Seq<char>,
    etag: Seq<char>,
    ical: Seq<char>,
    uid: Seq<char>,
    t: TaskV,
)
    ensures
        ({
            let after = task_upserted(tasks, cal, href, etag, ical, uid, t);
            exists|i: int|
                0 <= i < after.len() && keyed(cal, href)(#[trigger] after[i]) && after[i].etag
                    == etag && after[i].ical_text == ical && after[i].summary == t.summary
                    && after[i].uid == uid
        }),
{
    let after = task_upserted(tasks, cal, href, etag, ical, uid, t);
    let k = find(tasks, keyed(cal, href), 0) as int;
    lemma_find(tasks, keyed(cal, href), 0);
    if k < tasks.len() {
        assert(keyed(cal, href)(after[k]));
    } else {
        assert(keyed(cal, href)(after[tasks.len() as int]));
    }
}

/// After a full sync the calendar's cache holds only what the server listed.
pub proof fn law_full_sync_drops_the_rest(s: StoreV, cal: Seq<char>, d: SyncDeltaV, at: i64)
    ensures
        forall|r: TaskRowV|
            #[trigger] reconciled(s, cal, d, true, at).tasks.contains(r) && r.calendar_href == cal
                ==> record_hrefs(d.added_or_updated).contains(r.href),
{
    let put = records_put(s.tasks, s.ops, cal, d.added_or_updated, d.added_or_updated.len());
    let p = not_stale(cal, record_hrefs(d.added_or_updated));
    lemma_filter_mem(put, p);
    let f = put.filter(p);
    assert forall|r: TaskRowV|
        #[trigger] reconciled(s, cal, d, true, at).tasks.contains(r) && r.calendar_href
            == cal implies record_hrefs(d.added_or_updated).contains(r.href) by {
        assert(f.contains(r));
        let i = choose|i: int| 0 <= i < f.len() && f[i] == r;
        assert(p(f[i]));
    }
}

/// After a full sync the calendar's cache holds all that the server listed.
pub proof fn law_full_sync_holds_the_list(s: StoreV, cal: Seq<char>, d: SyncDeltaV, at: i64, k: int)
    requires
        0 <= k < d.added_or_updated.len(),
    ensures
        exists|i: int|
            0 <= i < reconciled(s, cal, d, true, at).tasks.len() && keyed(
                cal,
                d.added_or_updated[k].href,
            )(#[trigger] reconciled(s, cal, d, true, at).tasks[i]),
{
    let recs = d.added_or_updated;
    let href = recs[k].href;
    let put = records_put(s.tasks, s.ops, cal, recs, recs.len());
    let p = not_stale(cal, record_hrefs(recs));
    lemma_put_is_there(s.tasks, s.ops, cal, recs, recs.len(), k);
    let j = choose|j: int| 0 <= j < put.len() && keyed(cal, href)(#[trigger] put[j]);
    lemma_filter_mem(put, p);
    assert(record_hrefs(recs)[k] == href);
    assert(put.contains(put[j]) && p(put[j]));
    let f = put.filter(p);
    assert(f.contains(put[j]));
    let i = choose|i: int| 0 <= i < f.len() && f[i] == put[j];
    assert(reconciled(s, cal, d, true, at).tasks == f);
    assert(keyed(cal, href)(f[i]));
}

proof fn lemma_put_is_there(
    tasks: Seq<TaskRowV>,
    ops: Seq<PendingOpV>,
    cal: Seq<char>,
    recs: Seq<TaskRecordV>,
    n: nat,
    k: int,
)
    requires
        0 <= k < n <= recs.len(),
    ensures
        exists|j: int|
            0 <= j < records_put(tasks, ops, cal, recs, n).len() && keyed(cal, recs[k].href)(
                #[trigger] records_put(tasks, ops, cal, recs, n)[j],
            ),
    decreases n,
{
    let before = records_put(tasks, ops, cal, recs, (n - 1) as nat);
    let r = recs[n - 1];
    let after = records_put(tasks, ops, cal, recs, n);
    lemma_find(before, keyed(cal, r.href), 0);
    let at = find(before, keyed(cal, r.href), 0) as int;
    if k == n - 1 {
        assert(keyed(cal, r.href)(after[if at < before.len() {
            at
        } else {
            before.len() as int
        }]));
    } else {
        lemma_put_is_there(tasks, ops, cal, recs, (n - 1) as nat, k);
        let j = choose|j: int| 0 <= j < before.len() && keyed(cal, recs[k].href)(#[trigger] before[j]);
        assert(keyed(cal, recs[k].href)(after[j]));
    }
}

/// After an incremental sync nothing that the server reported deleted is in the
/// cache.
pub proof fn law_incremental_sync_deletes(s: StoreV, cal: Seq<char>, d: SyncDeltaV, at: i64, k: int)
    requires
        0 <= k < d.deleted_hrefs.len(),
    ensures
        forall|r: TaskRowV|
            #[trigger] reconciled(s, cal, d, false, at).tasks.contains(r) ==> !keyed(
                cal,
                d.deleted_hrefs[k],
            )(r),
{
    let put = records_put(s.tasks, s.ops, cal, d.added_or_updated, d.added_or_updated.len());
    lemma_taken(put, cal, d.deleted_hrefs, d.deleted_hrefs.len(), k);
    assert(reconciled(s, cal, d, false, at).tasks == hrefs_taken(
        put,
        cal,
        d.deleted_hrefs,
        d.deleted_hrefs.len(),
    ));
}

proof fn lemma_taken(
    tasks: Seq<TaskRowV>,
    cal: Seq<char>,
    hrefs: Seq<Seq<char>>,
    n: nat,
    k: int,
)
    requires
        0 <= k < n <= hrefs.len(),
    ensures
        forall|r: TaskRowV|
            #[trigger] hrefs_taken(tasks, cal, hrefs, n).contains(r) ==> !keyed(cal, hrefs[k])(r),
    decreases n,
{
    let before = hrefs_taken(tasks, cal, hrefs, (n - 1) as nat);
    let p = not_keyed(cal, hrefs[n - 1]);
    let f = before.filter(p);
    lemma_filter_mem(before, p);
    if k < n - 1 {
        lemma_taken(tasks, cal, hrefs, (n - 1) as nat, k);
    }
    assert forall|r: TaskRowV| #[trigger] hrefs_taken(tasks, cal, hrefs, n).contains(r) implies
        !keyed(cal, hrefs[k])(r) by {
        assert(f.contains(r));
        let i = choose|i: int| 0 <= i < f.len() && f[i] == r;
        assert(p(f[i]) && before.contains(f[i]));
    }
}

proof fn lemma_put_elsewhere(
    tasks: Seq<TaskRowV>,
    ops: Seq<PendingOpV>,
    cal: Seq<char>,
    recs: Seq<TaskRecordV>,
    n: nat,
    r: TaskRowV,
)
    requires
        n <= recs.len(),
        r.calendar_href != cal,
    ensures
        records_put(tasks, ops, cal, recs, n).contains(r) == tasks.contains(r),
    decreases n,
{
    if n > 0 {
        lemma_put_elsewhere(tasks, ops, cal, recs, (n - 1) as nat, r);
        let before = records_put(tasks, ops, cal, recs, (n - 1) as nat);
        let after = records_put(tasks, ops, cal, recs, n);
        let p = keyed(cal, recs[n - 1].href);
        lemma_find(before, p, 0);
        if before.contains(r) {
            let j = choose|j: int| 0 <= j < before.len() && before[j] == r;
            assert(after[j] == r);
        }
        if after.contains(r) {
            let j = choose|j: int| 0 <= j < after.len() && after[j] == r;
            assert(before[j] == r);
        }
    }
}

proof fn lemma_taken_elsewhere(
    tasks: Seq<TaskRowV>,
    cal: Seq<char>,
    hrefs: Seq<Seq<char>>,
    n: nat,
    r: TaskRowV,
)
    requires
        n <= hrefs.len(),
        r.calendar_href != cal,
    ensures
        hrefs_taken(tasks, cal, hrefs, n).contains(r) == tasks.contains(r),
    decreases n,
{
    if n > 0 {
        lemma_taken_elsewhere(tasks, cal, hrefs, (n - 1) as nat, r);
        lemma_filter_keeps(
            hrefs_taken(tasks, cal, hrefs, (n - 1) as nat),
            not_keyed(cal, hrefs[n - 1]),
            r,
        );
    }
}

proof fn lemma_filter_keeps(tasks: Seq<TaskRowV>, p: spec_fn(TaskRowV) -> bool, r: TaskRowV)
    requires
        p(r),
    ensures
        tasks.filter(p).contains(r) == tasks.contains(r),
{
    lemma_filter_mem(tasks, p);
    if tasks.filter(p).contains(r) {
        let j = choose|j: int| 0 <= j < tasks.filter(p).len() && tasks.filter(p)[j] == r;
        assert(tasks.contains(tasks.filter(p)[j]));
    }
}

/// Putting records in leaves a row with an open change where it was and as it was.
proof fn lemma_put_keeps_change(
    tasks: Seq<TaskRowV>,
    ops: Seq<PendingOpV>,
    cal: Seq<char>,
    recs: Seq<TaskRecordV>,
    n: nat,
    k: int,
)
    requires
        n <= recs.len(),
        task_keys_unique(tasks),
        0 <= k < tasks.len(),
        tasks[k].calendar_href == cal,
        has_open_change(ops, cal, tasks[k].uid),
    ensures
        k < records_put(tasks, ops, cal, recs, n).len(),
        records_put(tasks, ops, cal, recs, n)[k] == tasks[k],
        task_keys_unique(records_put(tasks, ops, cal, recs, n)),
    decreases n,
{
    if n > 0 {
        lemma_put_keeps_change(tasks, ops, cal, recs, (n - 1) as nat, k);
        let before = records_put(tasks, ops, cal, recs, (n - 1) as nat);
        let after = records_put(tasks, ops, cal, recs, n);
        let p = keyed(cal, recs[n - 1].href);
        let at = find(before, p, 0) as int;
        lemma_find(before, p, 0);
        assert forall|a: int, b: int| 0 <= a < b < after.len() implies !((
        #[trigger] after[a]).calendar_href == (#[trigger] after[b]).calendar_href && after[a].href
            == after[b].href) by {
            assert(after[a].calendar_href == before[a].calendar_href && after[a].href
                == before[a].href);
            if b < before.len() {
                assert(after[b].calendar_href == before[b].calendar_href && after[b].href
                    == before[b].href);
            } else {
                assert(!p(before[a]));
            }
        }
    }
}

/// A pull leaves the user's version alone while a change of the task waits or is a conflict
/// to resolve: its row is there afterwards as it was, unless the server no longer has the
/// task.
pub proof fn law_pull_keeps_users_version(
    s: StoreV,
    cal: Seq<char>,
    d: SyncDeltaV,
    full: bool,
    at: i64,
    k: int,
)
    requires
        s.wf(),
        0 <= k < s.tasks.len(),
        s.tasks[k].calendar_href == cal,
        has_open_change(s.ops, cal, s.tasks[k].uid),
        full ==> record_hrefs(d.added_or_updated).contains(s.tasks[k].href),
        !full ==> !d.deleted_hrefs.contains(s.tasks[k].href),
    ensures
        reconciled(s, cal, d, full, at).tasks.contains(s.tasks[k]),
{
    let recs = d.added_or_updated;
    let put = records_put(s.tasks, s.ops, cal, recs, recs.len());
    let row = s.tasks[k];
    lemma_put_keeps_change(s.tasks, s.ops, cal, recs, recs.len(), k);
    assert(put.contains(row));
    if full {
        lemma_filter_keeps(put, not_stale(cal, record_hrefs(recs)), row);
    } else {
        lemma_taken_keeps(put, cal, d.deleted_hrefs, d.deleted_hrefs.len(), row);
    }
}

proof fn lemma_taken_keeps(
    tasks: Seq<TaskRowV>,
    cal: Seq<char>,
    hrefs: Seq<Seq<char>>,
    n: nat,
    r: TaskRowV,
)
    requires
        n <= hrefs.len(),
        tasks.contains(r),
        !hrefs.contains(r.href),
    ensures
        hrefs_taken(tasks, cal, hrefs, n).contains(r),
    decreases n,
{
    if n > 0 {
        lemma_taken_keeps(tasks, cal, hrefs, (n - 1) as nat, r);
        assert(hrefs.contains(hrefs[n - 1]));
        lemma_filter_keeps(
            hrefs_taken(tasks, cal, hrefs, (n - 1) as nat),
            not_keyed(cal, hrefs[n - 1]),
            r,
        );
    }
}

/// Once a change that was given up is cleared, the next pull of its list starts over, and
/// nothing of what waited with it keeps what the server has of the task out.
pub proof fn law_cleared_change_is_pulled(s: StoreV, cal: Seq<char>, k: int)
    requires
        0 <= k < s.ops.len(),
        s.ops[k].errored == 1,
        changes_text(s.ops[k]),
        s.ops[k].target_calendar_href == cal,
    ensures
        token_of(cleared(s), cal) is None,
        forall|uid: Seq<char>| #[trigger]
            has_open_change(cleared(s).ops, cal, uid) ==> exists|j: int|
                0 <= j < s.ops.len() && (#[trigger] s.ops[j]).errored != 1 && changes_text(
                    s.ops[j],
                ) && s.ops[j].target_uid == uid,
{
    let p = calendar_with_href(cal);
    let t = cleared(s);
    lemma_find(s.ops, lost_change_in(cal), 0);
    assert(lost_change_in(cal)(s.ops[k]));
    lemma_find(t.calendars, p, 0);
    lemma_filter_mem(s.ops, not_given_up());
    assert forall|uid: Seq<char>| #[trigger] has_open_change(t.ops, cal, uid) implies exists|
        j: int,
    |
        0 <= j < s.ops.len() && (#[trigger] s.ops[j]).errored != 1 && changes_text(s.ops[j])
            && s.ops[j].target_uid == uid by {
        lemma_find(t.ops, open_change_on(cal, uid), 0);
        let f = find(t.ops, open_change_on(cal, uid), 0) as int;
        assert(not_given_up()(t.ops[f]) && s.ops.contains(t.ops[f]));
        let j = choose|j: int| 0 <= j < s.ops.len() && s.ops[j] == t.ops[f];
        assert(s.ops[j].errored != 1);
    }
}

/// A sync of one list leaves the tasks and the bookkeeping of every other alone,
/// those of the device's own list among them.
pub proof fn law_sync_leaves_other_lists(
    s: StoreV,
    cal: Seq<char>,
    d: SyncDeltaV,
    full: bool,
    at: i64,
    r: TaskRowV,
)
    requires
        r.calendar_href != cal,
    ensures
        reconciled(s, cal, d, full, at).tasks.contains(r) == s.tasks.contains(r),
        reconciled(s, cal, d, full, at).calendars.len() == s.calendars.len(),
        forall|i: int|
            0 <= i < s.calendars.len() && (#[trigger] s.calendars[i]).href != cal ==> reconciled(
                s,
                cal,
                d,
                full,
                at,
            ).calendars[i] == s.calendars[i],
{
    let recs = d.added_or_updated;
    let put = records_put(s.tasks, s.ops, cal, recs, recs.len());
    lemma_put_elsewhere(s.tasks, s.ops, cal, recs, recs.len(), r);
    if full {
        lemma_filter_keeps(put, not_stale(cal, record_hrefs(recs)), r);
    } else {
        lemma_taken_elsewhere(put, cal, d.deleted_hrefs, d.deleted_hrefs.len(), r);
    }
    let p = calendar_with_href(cal);
    lemma_find(s.calendars, p, 0);
    let cleared = token_set(s.calendars, cal, None, synced_at(s, cal));
    lemma_find(cleared, p, 0);
}

/// A sync whose queue met a failure that may pass pulls nothing: it says so, and
/// what it knows of the lists stays.
pub proof fn law_failure_skips_pull(
    s: StoreV,
    cfg: ConfigV,
    href: Seq<char>,
    url: Seq<char>,
    summary: FlushSummaryV,
    h: HandV,
    replies: Seq<ReplyV>,
    m: MomentV,
)
    ensures
        ({
            let g = SyncStageV::Flushing { href, url, summary, hand: Some(h) };
            let next = sync_next(s, cfg, g, replies, m);
            match hand_next(s, url, h, summary, replies) {
                Ok((t, sum, FlushActionV::Finished)) => sum.transient_failed > 0 ==> {
                    &&& next.0 == t
                    &&& t.calendars == s.calendars
                    &&& next.1 == SyncActionV::Done(Ok(sync_report(sum, None, 0, 0)))
                },
                _ => true,
            }
        }),
{
}

/// Without an account a sync sends nothing and changes nothing.
pub proof fn law_no_account_no_sync(s: StoreV, cfg: ConfigV, replies: Seq<ReplyV>, m: MomentV)
    requires
        !account_set_up(cfg),
    ensures
        sync_next(s, cfg, SyncStageV::Finding, replies, m).0 == s,
        sync_next(s, cfg, SyncStageV::Finding, replies, m).1 is Done,
{
}

/// No stage of a sync asks more than a few requests without going on: the search
/// three, the pull three. The queue's turn asks what its operations ask.
pub proof fn law_sync_stages_end(
    s: StoreV,
    cfg: ConfigV,
    href: Seq<char>,
    url: Seq<char>,
    summary: FlushSummaryV,
    replies: Seq<ReplyV>,
    m: MomentV,
)
    requires
        replies.len() >= 3,
    ensures
        !(sync_next(s, cfg, SyncStageV::Finding, replies, m).1 is Send),
        !(sync_next(s, cfg, SyncStageV::Pulling { href, url, summary }, replies, m).1 is Send),
{
    law_exchanges_end(s, cfg.caldav, url, token_of(s, href), 0, replies);
}

/// A sync touches neither the queue nor the numbers given out.
pub proof fn law_sync_leaves_queue(s: StoreV, cal: Seq<char>, d: SyncDeltaV, full: bool, at: i64)
    ensures
        reconciled(s, cal, d, full, at).ops == s.ops,
        reconciled(s, cal, d, full, at).last_op_id == s.last_op_id,
{
}

/// With nothing in the queue, the report of a sync is about the changes alone.
pub proof fn law_quiet_queue_unreported(kind: Option<Seq<char>>, updated: nat, deleted: nat)
    ensures
        sync_report(no_activity(), kind, updated, deleted) == sync_line(kind, updated, deleted),
{
}

// --- Conflicts ---

/// Once a conflict is resolved, nothing given up on its task is left, and every
/// other operation is.
pub proof fn law_resolving_drops_cascade(ops: Seq<PendingOpV>, uid: Seq<char>)
    ensures
        forall|o: PendingOpV|
            #[trigger] ops.filter(not_errored_on(uid)).contains(o) == (ops.contains(o) && !(
            o.target_uid == uid && o.errored == 1)),
{
    let p = not_errored_on(uid);
    let f = ops.filter(p);
    lemma_filter_mem(ops, p);
    assert forall|o: PendingOpV| #[trigger] f.contains(o) == (ops.contains(o) && !(o.target_uid
        == uid && o.errored == 1)) by {
        if f.contains(o) {
            let i = choose|i: int| 0 <= i < f.len() && f[i] == o;
            assert(p(f[i]) && ops.contains(f[i]));
        }
    }
}

/// Putting records in brings in no other row of a task with an open change, where the
/// server has the task in one place.
proof fn lemma_put_adds_no_row(
    tasks: Seq<TaskRowV>,
    ops: Seq<PendingOpV>,
    cal: Seq<char>,
    recs: Seq<TaskRecordV>,
    n: nat,
    k: int,
)
    requires
        n <= recs.len(),
        task_keys_unique(tasks),
        0 <= k < tasks.len(),
        tasks[k].calendar_href == cal,
        has_open_change(ops, cal, tasks[k].uid),
        forall|j: int| 0 <= j < tasks.len() && j != k ==> !of_uid(cal, tasks[k].uid)(
            #[trigger] tasks[j],
        ),
        forall|i: int|
            0 <= i < recs.len() && (#[trigger] recs[i]).task.uid == tasks[k].uid ==> recs[i].href
                == tasks[k].href,
    ensures
        forall|j: int|
            0 <= j < records_put(tasks, ops, cal, recs, n).len() && j != k ==> !of_uid(
                cal,
                tasks[k].uid,
            )(#[trigger] records_put(tasks, ops, cal, recs, n)[j]),
    decreases n,
{
    if n > 0 {
        let m = (n - 1) as nat;
        lemma_put_adds_no_row(tasks, ops, cal, recs, m, k);
        lemma_put_keeps_change(tasks, ops, cal, recs, m, k);
        let before = records_put(tasks, ops, cal, recs, m);
        let after = records_put(tasks, ops, cal, recs, n);
        let r = recs[m as int];
        let p = keyed(cal, r.href);
        let at = find(before, p, 0) as int;
        lemma_find(before, p, 0);
        assert forall|j: int| 0 <= j < after.len() && j != k implies !of_uid(cal, tasks[k].uid)(
            #[trigger] after[j],
        ) by {
            if r.task.uid == tasks[k].uid {
                assert(p(before[k]));
                assert(at <= k);
                if at < k {
                    assert(!(before[at].calendar_href == before[k].calendar_href && before[at].href
                        == before[k].href));
                }
                assert(at == k);
                assert(after == before);
            }
            if j < before.len() {
                assert(!of_uid(cal, tasks[k].uid)(before[j]));
            }
        }
    }
}

/// A pull brings in no other row of a task with an open change, where the server has the
/// task in one place.
pub proof fn lemma_pulled_rows(
    s: StoreV,
    cal: Seq<char>,
    d: SyncDeltaV,
    full: bool,
    at: i64,
    k: int,
)
    requires
        s.wf(),
        0 <= k < s.tasks.len(),
        s.tasks[k].calendar_href == cal,
        has_open_change(s.ops, cal, s.tasks[k].uid),
        forall|j: int| 0 <= j < s.tasks.len() && j != k ==> !of_uid(cal, s.tasks[k].uid)(
            #[trigger] s.tasks[j],
        ),
        forall|i: int|
            0 <= i < d.added_or_updated.len() && (#[trigger] d.added_or_updated[i]).task.uid
                == s.tasks[k].uid ==> d.added_or_updated[i].href == s.tasks[k].href,
    ensures
        forall|j: int|
            0 <= j < reconciled(s, cal, d, full, at).tasks.len() && of_uid(cal, s.tasks[k].uid)(
                #[trigger] reconciled(s, cal, d, full, at).tasks[j],
            ) ==> reconciled(s, cal, d, full, at).tasks[j] == s.tasks[k],
{
    let t = reconciled(s, cal, d, full, at);
    let row = s.tasks[k];
    let recs = d.added_or_updated;
    let put = records_put(s.tasks, s.ops, cal, recs, recs.len());
    let p = of_uid(cal, row.uid);
    lemma_put_keeps_change(s.tasks, s.ops, cal, recs, recs.len(), k);
    lemma_put_adds_no_row(s.tasks, s.ops, cal, recs, recs.len(), k);
    assert forall|j: int| 0 <= j < t.tasks.len() && p(#[trigger] t.tasks[j]) implies t.tasks[j]
        == row by {
        assert(t.tasks.contains(t.tasks[j]));
        if full {
            lemma_filter_mem(put, not_stale(cal, record_hrefs(recs)));
        } else {
            lemma_taken_is_part(put, cal, d.deleted_hrefs, d.deleted_hrefs.len(), t.tasks[j]);
        }
        let i = choose|i: int| 0 <= i < put.len() && put[i] == t.tasks[j];
        assert(p(put[i]));
    }
}

/// What can still be resolved is a conflict that the user can resolve.
proof fn lemma_still_resolvable(o: PendingOpV)
    requires
        still_resolvable(o),
    ensures
        resolvable()(o),
{
    reveal_strlit("double-412");
    reveal_strlit("");
    let word = "double-412"@;
    match o.last_error {
        Some(m) => {
            let i = choose|i: int| stands_at(m, word, i);
            let low = ascii_lower(m);
            assert forall|j: int| 0 <= j < word.len() implies low[i + j] == word[j] by {
                assert(m.subrange(i, i + word.len())[j] == m[i + j]);
            }
            assert(low.subrange(i, i + word.len()) =~= word);
            assert(stands_at(low, word, i));
        },
        None => {
            let i = choose|i: int| stands_at(""@, word, i);
            assert(stands_at(""@, word, i));
        },
    }
}

/// Keep Mine sends the user's version, also after a pull: while the change is open, the
/// text that it writes over the server's is the one that the cache held before.
pub proof fn law_keep_mine_sends_users_version(
    s: StoreV,
    cal: Seq<char>,
    d: SyncDeltaV,
    full: bool,
    at: i64,
    k: int,
    calendar_url: Seq<char>,
    id: int,
    fresh: ReplyV,
)
    requires
        s.wf(),
        0 <= k < s.tasks.len(),
        s.tasks[k].calendar_href == cal,
        resolvable_op(s, id) is Ok,
        resolvable_op(s, id)->Ok_0.target_calendar_href == cal,
        resolvable_op(s, id)->Ok_0.target_uid == s.tasks[k].uid,
        // the task has one row, and the server has it in one place
        forall|j: int| 0 <= j < s.tasks.len() && j != k ==> !of_uid(cal, s.tasks[k].uid)(
            #[trigger] s.tasks[j],
        ),
        forall|i: int|
            0 <= i < d.added_or_updated.len() && (#[trigger] d.added_or_updated[i]).task.uid
                == s.tasks[k].uid ==> d.added_or_updated[i].href == s.tasks[k].href,
        // the server still has the task
        full ==> record_hrefs(d.added_or_updated).contains(s.tasks[k].href),
        !full ==> !d.deleted_hrefs.contains(s.tasks[k].href),
        task_url(calendar_url, s.tasks[k].href) is Ok,
        get_meaning(task_url(calendar_url, s.tasks[k].href)->Ok_0, fresh) matches Ok(Some(_)),
    ensures
        ({
            let t = reconciled(s, cal, d, full, at);
            let url = task_url(calendar_url, s.tasks[k].href)->Ok_0;
            let etag = get_meaning(url, fresh)->Ok_0->Some_0.0;
            keep_mine(t, calendar_url, id, seq![fresh]).1 == StepV::<
                Result<Seq<char>, FailureV>,
            >::Send(put_request_of(url, s.tasks[k].ical_text, etag))
        }),
{
    let t = reconciled(s, cal, d, full, at);
    let op = resolvable_op(s, id)->Ok_0;
    let row = s.tasks[k];
    let p = of_uid(cal, row.uid);
    let b = find(s.ops, op_with_id(id), 0) as int;
    lemma_find(s.ops, op_with_id(id), 0);
    lemma_still_resolvable(op);
    lemma_find(s.ops, open_change_on(cal, row.uid), 0);
    assert(open_change_on(cal, row.uid)(s.ops[b]));
    law_pull_keeps_users_version(s, cal, d, full, at, k);
    lemma_pulled_rows(s, cal, d, full, at, k);
    let c = choose|c: int| 0 <= c < t.tasks.len() && t.tasks[c] == row;
    assert(p(t.tasks[c]));
    lemma_find(t.tasks, p, 0);
    assert(seq![fresh][0] == fresh && seq![fresh].len() == 1);
}

proof fn lemma_taken_is_part(
    tasks: Seq<TaskRowV>,
    cal: Seq<char>,
    hrefs: Seq<Seq<char>>,
    n: nat,
    r: TaskRowV,
)
    requires
        n <= hrefs.len(),
        hrefs_taken(tasks, cal, hrefs, n).contains(r),
    ensures
        tasks.contains(r),
    decreases n,
{
    if n > 0 {
        let before = hrefs_taken(tasks, cal, hrefs, (n - 1) as nat);
        let f = before.filter(not_keyed(cal, hrefs[n - 1]));
        lemma_filter_mem(before, not_keyed(cal, hrefs[n - 1]));
        let i = choose|i: int| 0 <= i < f.len() && f[i] == r;
        assert(before.contains(f[i]));
        lemma_taken_is_part(tasks, cal, hrefs, (n - 1) as nat, r);
    }
}

/// Keeping the user's version changes no cached text: the text is what was
/// written.
pub proof fn law_keep_mine_keeps_text(s: StoreV, op: PendingOpV, etag: Seq<char>)
    ensures
        mine_kept(s, op, etag).tasks.len() == s.tasks.len(),
        forall|i: int|
            0 <= i < s.tasks.len() ==> (#[trigger] mine_kept(s, op, etag).tasks[i]).ical_text
                == s.tasks[i].ical_text,
{
}

/// Until the server has answered, resolving a conflict changes nothing.
pub proof fn law_asking_changes_nothing(
    s: StoreV,
    calendar_url: Seq<char>,
    id: int,
    replies: Seq<ReplyV>,
)
    ensures
        keep_mine(s, calendar_url, id, replies).1 is Send ==> keep_mine(
            s,
            calendar_url,
            id,
            replies,
        ).0 == s,
        take_theirs(s, calendar_url, id, replies).1 is Send ==> take_theirs(
            s,
            calendar_url,
            id,
            replies,
        ).0 == s,
{
}

/// Every exchange ends: a pull, a search for lists and a probe take at most three
/// requests, showing a conflict and taking the server's side one, and keeping the
/// user's side two.
pub proof fn law_exchanges_end(
    s: StoreV,
    cfg: CaldavConfigV,
    url: Seq<char>,
    token: Option<Seq<char>>,
    id: int,
    replies: Seq<ReplyV>,
)
    ensures
        replies.len() >= 3 ==> pull(url, token, replies) is Done,
        replies.len() >= 3 ==> discovery(cfg, replies) is Done,
        replies.len() >= 1 ==> probing(cfg, replies) is Done,
        replies.len() >= 1 ==> first_preview(s, url, replies) is Done,
        replies.len() >= 2 ==> keep_mine(s, url, id, replies).1 is Done,
        replies.len() >= 1 ==> take_theirs(s, url, id, replies).1 is Done,
{
}

/// The decision on an operation reads back: the number in a preview is the number
/// that the decision is about.
pub proof fn law_decision_reads_back(id: i64)
    requires
        id > 0,
    ensures
        decision_in("keep:"@ + signed_decimal(id as int)) == Ok::<_, FailureV>(
            (DecisionKind::Keep, id as int),
        ),
        decision_in("take:"@ + signed_decimal(id as int)) == Ok::<_, FailureV>(
            (DecisionKind::Take, id as int),
        ),
{
    law_number_reads_back(id);
    let n = signed_decimal(id as int);
    reveal_strlit("keep:");
    reveal_strlit("take:");
    reveal_strlit("keep");
    reveal_strlit("take");
    let k = "keep:"@ + n;
    let t = "take:"@ + n;
    lemma_index_before_at(k, ':', 4);
    lemma_index_before_at(t, ':', 4);
    assert(k.take(4) =~= "keep"@);
    assert(t.take(4) =~= "take"@);
    assert(k.skip(5) =~= n);
    assert(t.skip(5) =~= n);
    assert("keep"@[0] == 'k' && "take"@[0] == 't');
}

// --- Settings ---

/// A blank password never replaces a stored one.
pub proof fn law_blank_password_keeps(existing: Seq<char>)
    ensures
        merged_password(""@, Some(existing)) == existing,
{
    reveal_strlit("");
}

/// The list to work on is always a known one.
pub proof fn law_active_list_is_known(s: StoreV, cfg: ConfigV)
    ensures
        ({
            let t = with_local_list(s);
            knows_calendar(t, active_href(t, cfg))
        }),
{
    let t = with_local_list(s);
    let p = crate::store::calendar_with_href(LOCAL_LIST_ID@);
    lemma_find(s.calendars, p, 0);
    lemma_find(t.calendars, p, 0);
    if find(s.calendars, p, 0) == s.calendars.len() {
        assert(p(t.calendars[s.calendars.len() as int]));
    }
    assert(knows_calendar(t, LOCAL_LIST_ID@));
    match cfg.caldav.calendar {
        Some(n) => {
            let q = crate::cache::named(n);
            lemma_find(t.calendars, q, 0);
            let k = find(t.calendars, q, 0) as int;
            if k < t.calendars.len() {
                let h = t.calendars[k].href;
                lemma_find(t.calendars, crate::store::calendar_with_href(h), 0);
                assert(crate::store::calendar_with_href(h)(t.calendars[k]));
            }
        },
        None => {},
    }
}

/// A new sync target clears what came from the server and keeps the device's own
/// list.
pub proof fn law_reset_keeps_local(s: StoreV, r: TaskRowV)
    ensures
        without_remote(s).ops.len() == 0,
        without_remote(s).tasks.contains(r) == (s.tasks.contains(r) && r.calendar_href
            == LOCAL_LIST_ID@),
{
    let f = s.tasks.filter(local_row());
    lemma_filter_mem(s.tasks, local_row());
    if f.contains(r) {
        let i = choose|i: int| 0 <= i < f.len() && f[i] == r;
        assert(local_row()(f[i]) && s.tasks.contains(f[i]));
    }
}

} // verus!
