//! Reading the tables for display: the task list in its order, the queue with the
//! summaries of its tasks, and the marks.
use vstd::prelude::*;
use crate::db::{status_from_str, status_named};
use crate::marks::Marks;
use crate::seqs::{first, lemma_filter_step, lemma_insert_at, lemma_ordered_push, ordered};
use crate::store::{copy_opt, of_uid, PendingOp, PendingOpV, Store, StoreV, TaskRow, TaskRowV};
use crate::task::{task_views, Task, TaskV};
use crate::text::{opt_text, str_eq, str_less, text_less};

verus! {

/// A cached task as the handlers need it.
#[derive(Debug)]
pub struct CachedTask {
    pub href: String,
    pub etag: String,
    pub ical_text: String,
    pub summary: String,
    pub uid: String,
    pub status: String,
}

#[verifier::ext_equal]
pub struct CachedTaskV {
    pub href: Seq<char>,
    pub etag: Seq<char>,
    pub ical_text: Seq<char>,
    pub summary: Seq<char>,
    pub uid: Seq<char>,
    pub status: Seq<char>,
}

impl View for CachedTask {
    type V = CachedTaskV;

    open spec fn view(&self) -> CachedTaskV {
        CachedTaskV {
            href: self.href@,
            etag: self.etag@,
            ical_text: self.ical_text@,
            summary: self.summary@,
            uid: self.uid@,
            status: self.status@,
        }
    }
}

pub open spec fn opt_cached(c: Option<CachedTask>) -> Option<CachedTaskV> {
    match c {
        Some(x) => Some(x@),
        None => None,
    }
}

/// A queued operation with the summary of its task.
#[derive(Debug)]
pub struct PendingOpView {
    pub id: i64,
    pub op_type: String,
    pub summary: String,
    pub enqueued_at: i64,
    pub error_count: i64,
    pub last_error: Option<String>,
    pub errored: i64,
}

#[verifier::ext_equal]
pub struct PendingOpViewV {
    pub id: int,
    pub op_type: Seq<char>,
    pub summary: Seq<char>,
    pub enqueued_at: int,
    pub error_count: int,
    pub last_error: Option<Seq<char>>,
    pub errored: int,
}

impl View for PendingOpView {
    type V = PendingOpViewV;

    open spec fn view(&self) -> PendingOpViewV {
        PendingOpViewV {
            id: self.id as int,
            op_type: self.op_type@,
            summary: self.summary@,
            enqueued_at: self.enqueued_at as int,
            error_count: self.error_count as int,
            last_error: opt_text(self.last_error),
            errored: self.errored as int,
        }
    }
}

pub open spec fn pending_views(v: Seq<PendingOpView>) -> Seq<PendingOpViewV> {
    v.map_values(|p: PendingOpView| p@)
}

/// A row that the list of `cal` shows.
pub open spec fn visible(cal: Seq<char>) -> spec_fn(TaskRowV) -> bool {
    |r: TaskRowV| r.calendar_href == cal && !r.pending_delete
}

/// Is the row completed?
pub open spec fn row_completed(r: TaskRowV) -> bool {
    r.status == Some("completed"@)
}

pub open spec fn due_text(due: Option<Seq<char>>) -> Seq<char> {
    match due {
        Some(d) => d,
        None => ""@,
    }
}

/// The order of the first two criteria and the due date: open tasks first, then
/// dated ones, then the earlier date.
pub open spec fn rank_less(
    a_completed: bool,
    a_due: Option<Seq<char>>,
    b_completed: bool,
    b_due: Option<Seq<char>>,
) -> bool {
    if a_completed != b_completed {
        b_completed
    } else if a_due is None != b_due is None {
        b_due is None
    } else {
        text_less(due_text(a_due), due_text(b_due))
    }
}

/// The same rank.
pub open spec fn rank_same(
    a_completed: bool,
    a_due: Option<Seq<char>>,
    b_completed: bool,
    b_due: Option<Seq<char>>,
) -> bool {
    a_completed == b_completed && a_due is None == b_due is None && due_text(a_due) == due_text(
        b_due,
    )
}

/// The order of the list: by rank, then by href.
pub open spec fn row_before(a: TaskRowV, b: TaskRowV) -> bool {
    ||| rank_less(row_completed(a), a.due, row_completed(b), b.due)
    ||| rank_same(row_completed(a), a.due, row_completed(b), b.due) && text_less(a.href, b.href)
}

pub open spec fn display_order() -> spec_fn(TaskRowV, TaskRowV) -> bool {
    |a: TaskRowV, b: TaskRowV| row_before(a, b)
}

/// The rows that the list of `cal` shows, in order.
pub open spec fn display_rows(s: StoreV, cal: Seq<char>) -> Seq<TaskRowV> {
    ordered(s.tasks.filter(visible(cal)), display_order())
}

/// The task of a row.
pub open spec fn row_task(r: TaskRowV) -> TaskV {
    TaskV { uid: r.uid, summary: r.summary, status: status_named(r.status), due: r.due }
}

/// The list of `cal`.
pub open spec fn task_list(s: StoreV, cal: Seq<char>) -> Seq<TaskV> {
    display_rows(s, cal).map_values(|r: TaskRowV| row_task(r))
}

pub open spec fn row_cached(r: TaskRowV) -> CachedTaskV {
    CachedTaskV {
        href: r.href,
        etag: r.etag,
        ical_text: r.ical_text,
        summary: r.summary,
        uid: r.uid,
        status: match r.status {
            Some(s) => s,
            None => ""@,
        },
    }
}

/// The first task of the list of `cal`.
pub open spec fn first_listed(s: StoreV, cal: Seq<char>) -> Option<CachedTaskV> {
    let rows = display_rows(s, cal);
    if rows.len() > 0 {
        Some(row_cached(rows[0]))
    } else {
        None
    }
}

/// The cached task of `cal` for `uid`, visible or not.
pub open spec fn cached_by_uid(s: StoreV, cal: Seq<char>, uid: Seq<char>) -> Option<CachedTaskV> {
    match first(s.tasks, of_uid(cal, uid)) {
        Some(r) => Some(row_cached(r)),
        None => None,
    }
}

fn is_completed_row(r: &TaskRow) -> (b: bool)
    ensures
        b == row_completed(r@),
{
    match &r.status {
        Some(s) => str_eq(s.as_str(), "completed"),
        None => false,
    }
}

fn due_str(due: &Option<String>) -> (d: &str)
    ensures
        d@ == due_text(opt_text(*due)),
{
    match due {
        Some(s) => s.as_str(),
        None => "",
    }
}

fn ranks_less(
    a_completed: bool,
    a_due: &Option<String>,
    b_completed: bool,
    b_due: &Option<String>,
) -> (r: bool)
    ensures
        r == rank_less(a_completed, opt_text(*a_due), b_completed, opt_text(*b_due)),
{
    if a_completed != b_completed {
        b_completed
    } else if a_due.is_none() != b_due.is_none() {
        b_due.is_none()
    } else {
        str_less(due_str(a_due), due_str(b_due))
    }
}

fn ranks_same(
    a_completed: bool,
    a_due: &Option<String>,
    b_completed: bool,
    b_due: &Option<String>,
) -> (r: bool)
    ensures
        r == rank_same(a_completed, opt_text(*a_due), b_completed, opt_text(*b_due)),
{
    a_completed == b_completed && a_due.is_none() == b_due.is_none() && str_eq(
        due_str(a_due),
        due_str(b_due),
    )
}

fn comes_before(a: &TaskRow, b: &TaskRow) -> (r: bool)
    ensures
        r == row_before(a@, b@),
{
    let ac = is_completed_row(a);
    let bc = is_completed_row(b);
    ranks_less(ac, &a.due, bc, &b.due) || (ranks_same(ac, &a.due, bc, &b.due) && str_less(
        a.href.as_str(),
        b.href.as_str(),
    ))
}

/// The rows at the given positions.
pub open spec fn rows_at(tasks: Seq<TaskRowV>, idx: Seq<usize>) -> Seq<TaskRowV> {
    idx.map_values(|k: usize| tasks[k as int])
}

/// The positions of the rows that the list of `cal` shows, in order.
fn display_positions(store: &Store, cal: &str) -> (idx: Vec<usize>)
    ensures
        forall|i: int| 0 <= i < idx@.len() ==> (#[trigger] idx@[i]) < store.tasks@.len(),
        rows_at(store@.tasks, idx@) == display_rows(store@, cal@),
{
    let ghost rows = store@.tasks;
    let mut idx: Vec<usize> = Vec::new();
    let mut i: usize = 0;
    proof {
        reveal(Seq::filter);
        assert(rows.take(0) =~= Seq::empty());
        assert(rows.take(0).filter(visible(cal@)) =~= Seq::empty());
        assert(rows_at(rows, idx@) =~= Seq::empty());
    }
    while i < store.tasks.len()
        invariant
            i <= store.tasks@.len(),
            rows == store@.tasks,
            forall|j: int| 0 <= j < idx@.len() ==> (#[trigger] idx@[j]) < store.tasks@.len(),
            rows_at(rows, idx@) == ordered(
                rows.take(i as int).filter(visible(cal@)),
                display_order(),
            ),
        decreases store.tasks@.len() - i,
    {
        proof {
            assert(rows[i as int] == store.tasks@[i as int]@);
            lemma_filter_step(rows, visible(cal@), i as int);
        }
        if !store.tasks[i].pending_delete && str_eq(store.tasks[i].calendar_href.as_str(), cal) {
            let mut p: usize = 0;
            while p < idx.len() && !comes_before(&store.tasks[i], &store.tasks[idx[p]])
                invariant
                    p <= idx@.len(),
                    i < store.tasks@.len(),
                    rows == store@.tasks,
                    rows[i as int] == store.tasks@[i as int]@,
                    forall|j: int|
                        0 <= j < idx@.len() ==> (#[trigger] idx@[j]) < store.tasks@.len(),
                    forall|j: int|
                        0 <= j < p ==> !display_order()(
                            rows[i as int],
                            #[trigger] rows_at(rows, idx@)[j],
                        ),
                decreases idx@.len() - p,
            {
                assert(rows[idx@[p as int] as int] == store.tasks@[idx@[p as int] as int]@);
                p += 1;
            }
            let ghost before = rows_at(rows, idx@);
            proof {
                if p < idx@.len() {
                    assert(rows[idx@[p as int] as int] == store.tasks@[idx@[p as int] as int]@);
                }
                lemma_insert_at(before, rows[i as int], display_order(), p as nat);
                lemma_ordered_push(
                    rows.take(i as int).filter(visible(cal@)),
                    rows[i as int],
                    display_order(),
                );
            }
            idx.insert(p, i);
            assert(rows_at(rows, idx@) =~= before.insert(p as int, rows[i as int]));
        }
        i += 1;
    }
    assert(rows.take(i as int) =~= rows);
    idx
}

/// The visible tasks of a list, in display order.
pub fn list_tasks(store: &Store, calendar_href: &str) -> (r: Vec<Task>)
    ensures
        task_views(r@) == task_list(store@, calendar_href@),
{
    let idx = display_positions(store, calendar_href);
    let ghost rows = display_rows(store@, calendar_href@);
    let mut out: Vec<Task> = Vec::new();
    let mut i: usize = 0;
    while i < idx.len()
        invariant
            i <= idx@.len(),
            out@.len() == i,
            rows == rows_at(store@.tasks, idx@),
            forall|j: int| 0 <= j < idx@.len() ==> (#[trigger] idx@[j]) < store.tasks@.len(),
            forall|j: int| 0 <= j < i ==> (#[trigger] out@[j])@ == row_task(rows[j]),
        decreases idx@.len() - i,
    {
        let row = &store.tasks[idx[i]];
        assert(rows[i as int] == row@);
        let status = match &row.status {
            Some(s) => status_from_str(Some(s.as_str())),
            None => status_from_str(None),
        };
        out.push(
            Task {
                uid: row.uid.clone(),
                summary: row.summary.clone(),
                status,
                due: copy_opt(&row.due),
            },
        );
        i += 1;
    }
    assert(task_views(out@) =~= task_list(store@, calendar_href@));
    out
}

fn cached_of(row: &TaskRow) -> (c: CachedTask)
    ensures
        c@ == row_cached(row@),
{
    CachedTask {
        href: row.href.clone(),
        etag: row.etag.clone(),
        ical_text: row.ical_text.clone(),
        summary: row.summary.clone(),
        uid: row.uid.clone(),
        status: match &row.status {
            Some(s) => s.clone(),
            None => "".to_owned(),
        },
    }
}

/// The task at the top of a list.
pub fn get_first_task(store: &Store, calendar_href: &str) -> (r: Option<CachedTask>)
    ensures
        opt_cached(r) == first_listed(store@, calendar_href@),
{
    let idx = display_positions(store, calendar_href);
    if idx.len() > 0 {
        assert(rows_at(store@.tasks, idx@)[0] == store.tasks@[idx@[0] as int]@);
        Some(cached_of(&store.tasks[idx[0]]))
    } else {
        None
    }
}

/// The cached task of a list for `uid`, visible or not.
pub fn get_cached_task_by_uid(store: &Store, calendar_href: &str, uid: &str) -> (r: Option<
    CachedTask,
>)
    ensures
        opt_cached(r) == cached_by_uid(store@, calendar_href@, uid@),
{
    let k = store.find_uid(calendar_href, uid);
    if k < store.tasks.len() {
        assert(store@.tasks[k as int] == store.tasks@[k as int]@);
        Some(cached_of(&store.tasks[k]))
    } else {
        None
    }
}

// --- The queue, for display ---

/// `op` shown with a summary.
pub open spec fn shown_with(op: PendingOpV, summary: Seq<char>) -> PendingOpViewV {
    PendingOpViewV {
        id: op.id,
        op_type: op.op_type,
        summary,
        enqueued_at: op.enqueued_at,
        error_count: op.error_count,
        last_error: op.last_error,
        errored: op.errored,
    }
}

/// The lines of `op` for its task's rows among the first `n`.
pub open spec fn matches_shown(op: PendingOpV, tasks: Seq<TaskRowV>, n: nat) -> Seq<PendingOpViewV>
    decreases n,
{
    if n == 0 {
        Seq::empty()
    } else {
        let before = matches_shown(op, tasks, (n - 1) as nat);
        let row = tasks[n - 1];
        if of_uid(op.target_calendar_href, op.target_uid)(row) {
            before.push(shown_with(op, row.summary))
        } else {
            before
        }
    }
}

/// The lines of `op`: one for each row of its task, or one without a known
/// summary.
pub open spec fn op_shown(op: PendingOpV, tasks: Seq<TaskRowV>) -> Seq<PendingOpViewV> {
    let hits = matches_shown(op, tasks, tasks.len());
    if hits.len() == 0 {
        seq![shown_with(op, "(unknown)"@)]
    } else {
        hits
    }
}

/// The lines of the first `n` operations.
pub open spec fn ops_shown(s: StoreV, n: nat) -> Seq<PendingOpViewV>
    decreases n,
{
    if n == 0 {
        Seq::empty()
    } else {
        ops_shown(s, (n - 1) as nat) + op_shown(s.ops[n - 1], s.tasks)
    }
}

fn show_op(op: &PendingOp, summary: &str) -> (v: PendingOpView)
    ensures
        v@ == shown_with(op@, summary@),
{
    PendingOpView {
        id: op.id,
        op_type: op.op_type.clone(),
        summary: summary.to_owned(),
        enqueued_at: op.enqueued_at,
        error_count: op.error_count,
        last_error: copy_opt(&op.last_error),
        errored: op.errored,
    }
}

/// The whole queue, errored or not, with the summaries of the tasks.
pub fn list_pending_ops(store: &Store) -> (r: Vec<PendingOpView>)
    ensures
        pending_views(r@) == ops_shown(store@, store@.ops.len()),
{
    let mut out: Vec<PendingOpView> = Vec::new();
    let mut i: usize = 0;
    assert(pending_views(out@) =~= Seq::empty());
    while i < store.ops.len()
        invariant
            i <= store.ops@.len(),
            pending_views(out@) == ops_shown(store@, i as nat),
        decreases store.ops@.len() - i,
    {
        let op = &store.ops[i];
        assert(store@.ops[i as int] == op@);
        let ghost done = pending_views(out@);
        let mut found = false;
        let mut k: usize = 0;
        assert(pending_views(out@) =~= done + matches_shown(op@, store@.tasks, 0));
        while k < store.tasks.len()
            invariant
                k <= store.tasks@.len(),
                found == (matches_shown(op@, store@.tasks, k as nat).len() > 0),
                pending_views(out@) == done + matches_shown(op@, store@.tasks, k as nat),
            decreases store.tasks@.len() - k,
        {
            assert(store@.tasks[k as int] == store.tasks@[k as int]@);
            if store.tasks[k].is_uid(op.target_calendar_href.as_str(), op.target_uid.as_str()) {
                let v = show_op(op, store.tasks[k].summary.as_str());
                let ghost before = pending_views(out@);
                out.push(v);
                found = true;
                proof {
                    assert(pending_views(out@) =~= before.push(v@));
                    assert(before.push(v@) =~= done + matches_shown(
                        op@,
                        store@.tasks,
                        k as nat,
                    ).push(v@));
                }
            }
            k += 1;
        }
        if !found {
            let v = show_op(op, "(unknown)");
            let ghost before = pending_views(out@);
            out.push(v);
            proof {
                assert(pending_views(out@) =~= before.push(v@));
                assert(before.push(v@) =~= done + seq![v@]);
            }
        }
        i += 1;
    }
    out
}

// --- The marks ---

/// An operation of `cal` on `uid`.
pub open spec fn op_on(o: PendingOpV, cal: Seq<char>, uid: Seq<char>) -> bool {
    o.target_calendar_href == cal && o.target_uid == uid
}

/// Has `uid` an operation of `cal` among the first `n`?
pub open spec fn has_op(ops: Seq<PendingOpV>, cal: Seq<char>, uid: Seq<char>, n: int) -> bool {
    exists|i: int| 0 <= i < n && op_on(#[trigger] ops[i], cal, uid)
}

/// Has `uid` an errored operation of `cal` among the first `n`?
pub open spec fn has_errored(ops: Seq<PendingOpV>, cal: Seq<char>, uid: Seq<char>, n: int) -> bool {
    exists|i: int| 0 <= i < n && op_on(#[trigger] ops[i], cal, uid) && ops[i].errored != 0
}

/// For each task of `cal` with an operation: was one of them given up?
pub open spec fn marks_of(ops: Seq<PendingOpV>, cal: Seq<char>, n: int) -> Map<Seq<char>, bool> {
    Map::new(
        |uid: Seq<char>| has_op(ops, cal, uid, n),
        |uid: Seq<char>| has_errored(ops, cal, uid, n),
    )
}

/// The marks of a list: an errored operation wins over one that merely waits.
pub fn pending_marks(store: &Store, calendar_href: &str) -> (m: Marks)
    ensures
        m@ == marks_of(store@.ops, calendar_href@, store@.ops.len() as int),
{
    let mut m = Marks::new();
    let mut i: usize = 0;
    let ghost ops = store@.ops;
    assert(m@ =~= marks_of(ops, calendar_href@, 0));
    while i < store.ops.len()
        invariant
            i <= store.ops@.len(),
            ops == store@.ops,
            m@ == marks_of(ops, calendar_href@, i as int),
        decreases store.ops@.len() - i,
    {
        let op = &store.ops[i];
        assert(ops[i as int] == op@);
        let ghost after = marks_of(ops, calendar_href@, i + 1);
        if str_eq(op.target_calendar_href.as_str(), calendar_href) {
            let was = match m.get(op.target_uid.as_str()) {
                Some(b) => b,
                None => false,
            };
            let flag = was || op.errored != 0;
            m.insert(op.target_uid.clone(), flag);
            proof {
                let uid = op@.target_uid;
                assert forall|u: Seq<char>| has_op(ops, calendar_href@, u, i + 1) == (has_op(
                    ops,
                    calendar_href@,
                    u,
                    i as int,
                ) || u == uid) by {
                    if has_op(ops, calendar_href@, u, i as int) {
                        let j = choose|j: int|
                            0 <= j < i && op_on(#[trigger] ops[j], calendar_href@, u);
                        assert(op_on(ops[j], calendar_href@, u));
                    }
                    assert(op_on(ops[i as int], calendar_href@, uid));
                }
                assert forall|u: Seq<char>| has_errored(ops, calendar_href@, u, i + 1) == (
                has_errored(ops, calendar_href@, u, i as int) || (u == uid && op@.errored
                    != 0)) by {
                    if has_errored(ops, calendar_href@, u, i as int) {
                        let j = choose|j: int|
                            0 <= j < i && op_on(#[trigger] ops[j], calendar_href@, u)
                                && ops[j].errored != 0;
                        assert(op_on(ops[j], calendar_href@, u));
                    }
                    assert(op_on(ops[i as int], calendar_href@, uid));
                }
                if !has_op(ops, calendar_href@, uid, i as int) {
                    assert(!has_errored(ops, calendar_href@, uid, i as int));
                }
                assert(m@ =~= after);
            }
        } else {
            proof {
                assert forall|u: Seq<char>| has_op(ops, calendar_href@, u, i + 1) == has_op(
                    ops,
                    calendar_href@,
                    u,
                    i as int,
                ) by {
                    if has_op(ops, calendar_href@, u, i as int) {
                        let j = choose|j: int|
                            0 <= j < i && op_on(#[trigger] ops[j], calendar_href@, u);
                        assert(op_on(ops[j], calendar_href@, u));
                    }
                }
                assert forall|u: Seq<char>| has_errored(ops, calendar_href@, u, i + 1)
                    == has_errored(ops, calendar_href@, u, i as int) by {
                    if has_errored(ops, calendar_href@, u, i as int) {
                        let j = choose|j: int|
                            0 <= j < i && op_on(#[trigger] ops[j], calendar_href@, u)
                                && ops[j].errored != 0;
                        assert(op_on(ops[j], calendar_href@, u));
                    }
                }
                assert(m@ =~= after);
            }
        }
        i += 1;
    }
    m
}

} // verus!
