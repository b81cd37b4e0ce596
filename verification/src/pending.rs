//! The queue of writes that wait for the server.
use vstd::prelude::*;
use crate::failure::{plain, Failure, FailureV};
use crate::seqs::{count, find, first, lemma_filter_mem, lemma_filter_step, lemma_find, lemma_find_is};
use crate::store::{
    errored_flags, op_ids_ascend, op_views, op_with_id, task_keys_unique, task_row_views,
    CalendarRowV, PendingOp, PendingOpV, Store, StoreV, TaskRow, TaskRowV,
};
use crate::text::{ascii_lower, begins_with, contains, has_sub, starts_with, str_eq, to_ascii_lower};

verus! {

/// An operation that has not been given up.
pub open spec fn drainable() -> spec_fn(PendingOpV) -> bool {
    |o: PendingOpV| o.errored == 0
}

/// An operation other than `id`.
pub open spec fn op_other_than(id: int) -> spec_fn(PendingOpV) -> bool {
    |o: PendingOpV| o.id != id
}

/// An operation on `uid` that has not been given up.
pub open spec fn drainable_on(uid: Seq<char>) -> spec_fn(PendingOpV) -> bool {
    |o: PendingOpV| o.target_uid == uid && o.errored == 0
}

/// An operation that is not an errored one on `uid`.
pub open spec fn not_errored_on(uid: Seq<char>) -> spec_fn(PendingOpV) -> bool {
    |o: PendingOpV| !(o.target_uid == uid && o.errored == 1)
}

/// An errored operation on `uid`.
pub open spec fn errored_on(uid: Seq<char>) -> spec_fn(PendingOpV) -> bool {
    |o: PendingOpV| o.target_uid == uid && o.errored == 1
}

/// An operation given up.
pub open spec fn given_up() -> spec_fn(PendingOpV) -> bool {
    |o: PendingOpV| o.errored == 1
}

/// An operation not given up.
pub open spec fn not_given_up() -> spec_fn(PendingOpV) -> bool {
    |o: PendingOpV| o.errored != 1
}

/// A conflict that the user can resolve: a toggle or an edit that the server
/// refused twice.
pub open spec fn resolvable() -> spec_fn(PendingOpV) -> bool {
    |o: PendingOpV|
        o.errored == 1 && (o.op_type == "toggle"@ || o.op_type == "edit"@)
            && match o.last_error {
            Some(m) => has_sub(ascii_lower(m), "double-412"@),
            None => false,
        }
}

/// An operation that changes the text of a task.
pub open spec fn changes_text(o: PendingOpV) -> bool {
    o.op_type == "toggle"@ || o.op_type == "edit"@
}

/// A change of the task `uid` of `cal` that is still to reach the server: it waits, or it is
/// a conflict that the user can resolve.
pub open spec fn open_change_on(cal: Seq<char>, uid: Seq<char>) -> spec_fn(PendingOpV) -> bool {
    |o: PendingOpV|
        (resolvable()(o) || o.errored == 0 && changes_text(o)) && o.target_calendar_href == cal
            && o.target_uid == uid
}

/// Is there such a change?
pub open spec fn has_open_change(ops: Seq<PendingOpV>, cal: Seq<char>, uid: Seq<char>) -> bool {
    find(ops, open_change_on(cal, uid), 0) < ops.len()
}

/// A change of some task of `cal` that was given up.
pub open spec fn lost_change_in(cal: Seq<char>) -> spec_fn(PendingOpV) -> bool {
    |o: PendingOpV| o.errored == 1 && changes_text(o) && o.target_calendar_href == cal
}

/// `o`, given up with the message `msg`.
pub open spec fn errored_op(o: PendingOpV, msg: Seq<char>) -> PendingOpV {
    PendingOpV { errored: 1, last_error: Some(msg), ..o }
}

/// The operations with `id` given up.
pub open spec fn op_errored(ops: Seq<PendingOpV>, id: int, msg: Seq<char>) -> Seq<PendingOpV> {
    ops.map_values(
        |o: PendingOpV|
            if o.id == id {
                errored_op(o, msg)
            } else {
                o
            },
    )
}

/// The operations with every remaining one on `uid` given up.
pub open spec fn uid_errored(ops: Seq<PendingOpV>, uid: Seq<char>, msg: Seq<char>) -> Seq<
    PendingOpV,
> {
    ops.map_values(
        |o: PendingOpV|
            if o.target_uid == uid && o.errored == 0 {
                errored_op(o, msg)
            } else {
                o
            },
    )
}

/// The operation `id` given up without a new message.
pub open spec fn op_flagged(ops: Seq<PendingOpV>, id: int) -> Seq<PendingOpV> {
    ops.map_values(
        |o: PendingOpV|
            if o.id == id {
                PendingOpV { errored: 1, ..o }
            } else {
                o
            },
    )
}

/// The operation `id` with one more failed attempt.
pub open spec fn op_struck(ops: Seq<PendingOpV>, id: int, msg: Seq<char>) -> Seq<PendingOpV> {
    ops.map_values(
        |o: PendingOpV|
            if o.id == id {
                PendingOpV { error_count: o.error_count + 1, last_error: Some(msg), ..o }
            } else {
                o
            },
    )
}

/// The message of an operation given up because another one failed.
pub open spec fn blocked_by(op_type: Seq<char>) -> Seq<char> {
    "blocked by failed "@ + op_type
}

/// The queue after one more failed attempt of `id`, and how many it has had.
pub open spec fn strike(ops: Seq<PendingOpV>, id: int, msg: Seq<char>) -> Result<
    (Seq<PendingOpV>, int),
    FailureV,
> {
    match first(ops, op_with_id(id)) {
        None => Err(plain("Query returned no rows"@)),
        Some(o) => if o.error_count >= i64::MAX {
            Err(plain("Invalid column type Real at index: 0, name: error_count"@))
        } else {
            Ok((op_struck(ops, id, msg), o.error_count + 1))
        },
    }
}

/// Dropping operations keeps the order of the rest.
pub proof fn lemma_filter_ops(ops: Seq<PendingOpV>, p: spec_fn(PendingOpV) -> bool, last: int)
    requires
        op_ids_ascend(ops, last),
        errored_flags(ops),
    ensures
        op_ids_ascend(ops.filter(p), last),
        errored_flags(ops.filter(p)),
        forall|o: PendingOpV| #[trigger] ops.filter(p).contains(o) ==> ops.contains(o) && p(o),
    decreases ops.len(),
{
    reveal(Seq::filter);
    lemma_filter_mem(ops, p);
    if ops.len() > 0 {
        let d = ops.drop_last();
        assert forall|i: int, j: int| 0 <= i < j < d.len() implies (#[trigger] d[i]).id < (
        #[trigger] d[j]).id by {
            assert(d[i] == ops[i] && d[j] == ops[j]);
        }
        assert forall|i: int| 0 <= i < d.len() implies 0 < (#[trigger] d[i]).id <= last by {
            assert(d[i] == ops[i]);
        }
        assert forall|i: int| 0 <= i < d.len() implies ((#[trigger] d[i]).errored == 0
            || d[i].errored == 1) by {
            assert(d[i] == ops[i]);
        }
        lemma_filter_ops(d, p, last);
        lemma_filter_mem(d, p);
        let f = ops.filter(p);
        let g = d.filter(p);
        assert forall|i: int, j: int| 0 <= i < j < f.len() implies (#[trigger] f[i]).id < (
        #[trigger] f[j]).id by {
            if j < g.len() {
                assert(f[i] == g[i] && f[j] == g[j]);
            } else {
                assert(f[i] == g[i] && f[j] == ops.last());
                let k = choose|k: int| 0 <= k < d.len() && d[k] == g[i];
                assert(d.contains(g[i]));
                assert(ops[k].id < ops[ops.len() - 1].id);
            }
        }
        assert forall|i: int| 0 <= i < f.len() implies 0 < (#[trigger] f[i]).id <= last by {
            if i < g.len() {
                assert(f[i] == g[i]);
            } else {
                assert(f[i] == ops[ops.len() - 1]);
            }
        }
        assert forall|i: int| 0 <= i < f.len() implies ((#[trigger] f[i]).errored == 0
            || f[i].errored == 1) by {
            if i < g.len() {
                assert(f[i] == g[i]);
            } else {
                assert(f[i] == ops[ops.len() - 1]);
            }
        }
    }
}

/// Dropping rows keeps their keys apart.
pub proof fn lemma_filter_tasks(tasks: Seq<TaskRowV>, p: spec_fn(TaskRowV) -> bool)
    requires
        task_keys_unique(tasks),
    ensures
        task_keys_unique(tasks.filter(p)),
    decreases tasks.len(),
{
    reveal(Seq::filter);
    if tasks.len() > 0 {
        let d = tasks.drop_last();
        assert(task_keys_unique(d)) by {
            assert forall|i: int, j: int| 0 <= i < j < d.len() implies !((
            #[trigger] d[i]).calendar_href == (#[trigger] d[j]).calendar_href && d[i].href
                == d[j].href) by {
                assert(d[i] == tasks[i] && d[j] == tasks[j]);
            }
        }
        lemma_filter_tasks(d, p);
        lemma_filter_mem(d, p);
        let f = tasks.filter(p);
        let g = d.filter(p);
        assert forall|i: int, j: int| 0 <= i < j < f.len() implies !((
        #[trigger] f[i]).calendar_href == (#[trigger] f[j]).calendar_href && f[i].href
            == f[j].href) by {
            if j < g.len() {
                assert(f[i] == g[i] && f[j] == g[j]);
            } else {
                assert(f[i] == g[i] && f[j] == tasks.last());
                assert(d.contains(g[i]));
                let k = choose|k: int| 0 <= k < d.len() && d[k] == g[i];
                assert(tasks[k] == g[i]);
                assert(tasks[tasks.len() - 1] == f[j]);
            }
        }
    }
}

/// The lowest-numbered operation that has not been given up.
pub fn fetch_next_drainable(store: &Store) -> (r: Option<PendingOp>)
    ensures
        opt_op(r) == first(store@.ops, drainable()),
{
    let mut k: usize = 0;
    while k < store.ops.len() && store.ops[k].errored != 0
        invariant
            k <= store.ops@.len(),
            forall|i: int| 0 <= i < k ==> !drainable()(#[trigger] store@.ops[i]),
        decreases store.ops@.len() - k,
    {
        assert(store@.ops[k as int] == store.ops@[k as int]@);
        k += 1;
    }
    proof {
        if k < store.ops@.len() {
            assert(store@.ops[k as int] == store.ops@[k as int]@);
        }
        lemma_find_is(store@.ops, drainable(), k as nat);
    }
    if k < store.ops.len() {
        Some(store.ops[k].copy())
    } else {
        None
    }
}

pub open spec fn opt_op(o: Option<PendingOp>) -> Option<PendingOpV> {
    match o {
        Some(x) => Some(x@),
        None => None,
    }
}

/// The operation `id`.
pub fn get_pending_op_by_id(store: &Store, id: i64) -> (r: Option<PendingOp>)
    ensures
        opt_op(r) == first(store@.ops, op_with_id(id as int)),
{
    let k = store.find_op(id);
    if k < store.ops.len() {
        assert(store@.ops[k as int] == store.ops@[k as int]@);
        Some(store.ops[k].copy())
    } else {
        None
    }
}

/// Is `op` a conflict that the user can resolve?
pub fn is_resolvable(op: &PendingOp) -> (r: bool)
    ensures
        r == resolvable()(op@),
{
    if op.errored != 1 {
        return false;
    }
    if !(str_eq(op.op_type.as_str(), "toggle") || str_eq(op.op_type.as_str(), "edit")) {
        return false;
    }
    match &op.last_error {
        Some(m) => {
            let low = to_ascii_lower(m.as_str());
            contains(low.as_str(), "double-412")
        },
        None => false,
    }
}

/// The lowest-numbered conflict that the user can resolve.
pub fn first_resolvable_conflict(store: &Store) -> (r: Option<PendingOp>)
    ensures
        opt_op(r) == first(store@.ops, resolvable()),
{
    let mut k: usize = 0;
    while k < store.ops.len() && !is_resolvable(&store.ops[k])
        invariant
            k <= store.ops@.len(),
            forall|i: int| 0 <= i < k ==> !resolvable()(#[trigger] store@.ops[i]),
        decreases store.ops@.len() - k,
    {
        assert(store@.ops[k as int] == store.ops@[k as int]@);
        k += 1;
    }
    proof {
        if k < store.ops@.len() {
            assert(store@.ops[k as int] == store.ops@[k as int]@);
        }
        lemma_find_is(store@.ops, resolvable(), k as nat);
    }
    if k < store.ops.len() {
        Some(store.ops[k].copy())
    } else {
        None
    }
}

/// Does this operation change the text of a task?
fn is_text_change(op: &PendingOp) -> (r: bool)
    ensures
        r == changes_text(op@),
{
    str_eq(op.op_type.as_str(), "toggle") || str_eq(op.op_type.as_str(), "edit")
}

/// Does the task have a change that is still to reach the server?
pub fn is_change_open(ops: &Vec<PendingOp>, cal: &str, uid: &str) -> (r: bool)
    ensures
        r == has_open_change(op_views(ops@), cal@, uid@),
{
    let mut k: usize = 0;
    while k < ops.len() && !((is_resolvable(&ops[k]) || ops[k].errored == 0 && is_text_change(
        &ops[k],
    )) && str_eq(ops[k].target_calendar_href.as_str(), cal) && str_eq(
        ops[k].target_uid.as_str(),
        uid,
    ))
        invariant
            k <= ops@.len(),
            forall|i: int|
                0 <= i < k ==> !open_change_on(cal@, uid@)(#[trigger] op_views(ops@)[i]),
        decreases ops@.len() - k,
    {
        assert(op_views(ops@)[k as int] == ops@[k as int]@);
        k += 1;
    }
    proof {
        if k < ops@.len() {
            assert(op_views(ops@)[k as int] == ops@[k as int]@);
        }
        lemma_find_is(op_views(ops@), open_change_on(cal@, uid@), k as nat);
    }
    k < ops.len()
}

/// Was a change of some task of the calendar given up?
fn is_change_lost(ops: &Vec<PendingOp>, cal: &str) -> (r: bool)
    ensures
        r == (find(op_views(ops@), lost_change_in(cal@), 0) < ops@.len()),
{
    let mut k: usize = 0;
    while k < ops.len() && !(ops[k].errored == 1 && is_text_change(&ops[k]) && str_eq(
        ops[k].target_calendar_href.as_str(),
        cal,
    ))
        invariant
            k <= ops@.len(),
            forall|i: int| 0 <= i < k ==> !lost_change_in(cal@)(#[trigger] op_views(ops@)[i]),
        decreases ops@.len() - k,
    {
        assert(op_views(ops@)[k as int] == ops@[k as int]@);
        k += 1;
    }
    proof {
        if k < ops@.len() {
            assert(op_views(ops@)[k as int] == ops@[k as int]@);
        }
        lemma_find_is(op_views(ops@), lost_change_in(cal@), k as nat);
    }
    k < ops.len()
}

/// The number of conflicts that the user can resolve.
pub fn count_resolvable_conflicts(store: &Store) -> (n: usize)
    ensures
        n == count(store@.ops, resolvable()),
{
    let mut n: usize = 0;
    let mut i: usize = 0;
    while i < store.ops.len()
        invariant
            i <= store.ops@.len(),
            n <= i,
            n == store@.ops.take(i as int).filter(resolvable()).len(),
        decreases store.ops@.len() - i,
    {
        proof {
            assert(store@.ops[i as int] == store.ops@[i as int]@);
            lemma_filter_step(store@.ops, resolvable(), i as int);
        }
        if is_resolvable(&store.ops[i]) {
            n += 1;
        }
        i += 1;
    }
    assert(store@.ops.take(i as int) =~= store@.ops);
    n
}

/// Removes the operation `id`, if it is still there.
pub fn delete_pending_op(store: &mut Store, id: i64)
    requires
        old(store)@.wf(),
    ensures
        final(store)@.wf(),
        final(store)@ == (StoreV {
            ops: old(store)@.ops.filter(op_other_than(id as int)),
            ..old(store)@
        }),
{
    let mut kept: Vec<PendingOp> = Vec::new();
    let mut i: usize = 0;
    while i < store.ops.len()
        invariant
            i <= store.ops@.len(),
            store@ == old(store)@,
            op_views(kept@) == store@.ops.take(i as int).filter(op_other_than(id as int)),
        decreases store.ops@.len() - i,
    {
        proof {
            assert(store@.ops[i as int] == store.ops@[i as int]@);
            lemma_filter_step(store@.ops, op_other_than(id as int), i as int);
        }
        if store.ops[i].id != id {
            let ghost before = op_views(kept@);
            let op = store.ops[i].copy();
            kept.push(op);
            assert(op_views(kept@) =~= before.push(op@));
        }
        i += 1;
    }
    proof {
        assert(store@.ops.take(i as int) =~= store@.ops);
        lemma_filter_ops(store@.ops, op_other_than(id as int), store@.last_op_id);
    }
    store.ops = kept;
    assert(store@.tasks =~= old(store)@.tasks);
    assert(store@.calendars =~= old(store)@.calendars);
}

/// Drops every errored operation on `uid`. Returns how many there were.
pub fn drop_errored_on(store: &mut Store, uid: &str) -> (n: usize)
    requires
        old(store)@.wf(),
    ensures
        final(store)@.wf(),
        final(store)@ == (StoreV {
            ops: old(store)@.ops.filter(not_errored_on(uid@)),
            ..old(store)@
        }),
        n == count(old(store)@.ops, errored_on(uid@)),
{
    let mut kept: Vec<PendingOp> = Vec::new();
    let mut n: usize = 0;
    let mut i: usize = 0;
    while i < store.ops.len()
        invariant
            i <= store.ops@.len(),
            n <= i,
            store@ == old(store)@,
            op_views(kept@) == store@.ops.take(i as int).filter(not_errored_on(uid@)),
            n == store@.ops.take(i as int).filter(errored_on(uid@)).len(),
        decreases store.ops@.len() - i,
    {
        proof {
            assert(store@.ops[i as int] == store.ops@[i as int]@);
            lemma_filter_step(store@.ops, not_errored_on(uid@), i as int);
            lemma_filter_step(store@.ops, errored_on(uid@), i as int);
        }
        if store.ops[i].errored == 1 && str_eq(store.ops[i].target_uid.as_str(), uid) {
            n += 1;
        } else {
            let ghost before = op_views(kept@);
            let op = store.ops[i].copy();
            kept.push(op);
            assert(op_views(kept@) =~= before.push(op@));
        }
        i += 1;
    }
    proof {
        assert(store@.ops.take(i as int) =~= store@.ops);
        lemma_filter_ops(store@.ops, not_errored_on(uid@), store@.last_op_id);
    }
    store.ops = kept;
    assert(store@.tasks =~= old(store)@.tasks);
    assert(store@.calendars =~= old(store)@.calendars);
    n
}

/// Gives up the operation `id`.
pub fn mark_op_errored(store: &mut Store, id: i64, msg: &str)
    requires
        old(store)@.wf(),
    ensures
        final(store)@.wf(),
        final(store)@ == (StoreV {
            ops: op_errored(old(store)@.ops, id as int, msg@),
            ..old(store)@
        }),
{
    let ghost want = op_errored(store@.ops, id as int, msg@);
    let mut i: usize = 0;
    while i < store.ops.len()
        invariant
            i <= store.ops@.len(),
            store.ops@.len() == old(store).ops@.len(),
            store.tasks == old(store).tasks,
            store.calendars == old(store).calendars,
            store.last_op_id == old(store).last_op_id,
            want == op_errored(old(store)@.ops, id as int, msg@),
            forall|j: int| 0 <= j < i ==> (#[trigger] store.ops@[j])@ == want[j],
            forall|j: int| i <= j < store.ops@.len() ==> store.ops@[j] == old(store).ops@[j],
        decreases store.ops@.len() - i,
    {
        assert(old(store)@.ops[i as int] == store.ops@[i as int]@);
        if store.ops[i].id == id {
            store.ops[i].errored = 1;
            store.ops[i].last_error = Some(msg.to_owned());
        }
        i += 1;
    }
    assert(store@.ops =~= want);
}

/// Gives up every operation on `target_uid` that is still waiting. Returns how
/// many there were.
pub fn cascade_uid(store: &mut Store, target_uid: &str, blocking_op_type: &str) -> (n: usize)
    requires
        old(store)@.wf(),
    ensures
        final(store)@.wf(),
        final(store)@ == (StoreV {
            ops: uid_errored(old(store)@.ops, target_uid@, blocked_by(blocking_op_type@)),
            ..old(store)@
        }),
        n == count(old(store)@.ops, drainable_on(target_uid@)),
{
    let mut msg = "blocked by failed ".to_owned();
    msg.append(blocking_op_type);
    let ghost want = uid_errored(store@.ops, target_uid@, msg@);
    let mut n: usize = 0;
    let mut i: usize = 0;
    while i < store.ops.len()
        invariant
            i <= store.ops@.len(),
            n <= i,
            store.ops@.len() == old(store).ops@.len(),
            store.tasks == old(store).tasks,
            store.calendars == old(store).calendars,
            store.last_op_id == old(store).last_op_id,
            want == uid_errored(old(store)@.ops, target_uid@, msg@),
            n == old(store)@.ops.take(i as int).filter(drainable_on(target_uid@)).len(),
            forall|j: int| 0 <= j < i ==> (#[trigger] store.ops@[j])@ == want[j],
            forall|j: int| i <= j < store.ops@.len() ==> store.ops@[j] == old(store).ops@[j],
        decreases store.ops@.len() - i,
    {
        proof {
            assert(old(store)@.ops[i as int] == store.ops@[i as int]@);
            lemma_filter_step(old(store)@.ops, drainable_on(target_uid@), i as int);
        }
        if store.ops[i].errored == 0 && str_eq(store.ops[i].target_uid.as_str(), target_uid) {
            store.ops[i].errored = 1;
            store.ops[i].last_error = Some(msg.clone());
            n += 1;
        }
        i += 1;
    }
    assert(store@.ops =~= want);
    assert(old(store)@.ops.take(i as int) =~= old(store)@.ops);
    n
}

/// Counts one more failed attempt of the operation `id`. Returns how many it has
/// had.
pub fn bump_error_count_tx(store: &mut Store, id: i64, msg: &str) -> (r: Result<i64, Failure>)
    requires
        old(store)@.wf(),
    ensures
        final(store)@.wf(),
        match strike(old(store)@.ops, id as int, msg@) {
            Ok((ops, n)) => r is Ok && r->Ok_0 == n && final(store)@ == (StoreV {
                ops,
                ..old(store)@
            }),
            Err(e) => r is Err && r->Err_0@ == e && final(store)@ == old(store)@,
        },
{
    let k = store.find_op(id);
    if k >= store.ops.len() {
        return Err(Failure::new("Query returned no rows"));
    }
    proof {
        lemma_find(store@.ops, op_with_id(id as int), 0);
        assert(store@.ops[k as int] == store.ops@[k as int]@);
    }
    if store.ops[k].error_count == i64::MAX {
        return Err(Failure::new("Invalid column type Real at index: 0, name: error_count"));
    }
    let n: i64 = store.ops[k].error_count + 1;
    store.ops[k].error_count = n;
    store.ops[k].last_error = Some(msg.to_owned());
    proof {
        let want = op_struck(old(store)@.ops, id as int, msg@);
        assert forall|j: int| 0 <= j < want.len() implies #[trigger] want[j] == store@.ops[j] by {
            assert(old(store)@.ops[j] == old(store).ops@[j]@);
            if j != k {
                // ids are distinct
                if j < k {
                    assert(old(store)@.ops[j].id < old(store)@.ops[k as int].id);
                } else {
                    assert(old(store)@.ops[k as int].id < old(store)@.ops[j].id);
                }
            }
        }
        assert(store@.ops =~= want);
    }
    Ok(n)
}

// --- Clearing what was given up ---

/// Was an operation of this kind on `uid` given up?
pub open spec fn errored_kind(ops: Seq<PendingOpV>, op_type: Seq<char>, uid: Seq<char>) -> bool {
    exists|i: int|
        0 <= i < ops.len() && (#[trigger] ops[i]).errored == 1 && ops[i].op_type == op_type
            && ops[i].target_uid == uid
}

/// The rows, with those visible again whose delete was given up.
pub open spec fn revived(tasks: Seq<TaskRowV>, ops: Seq<PendingOpV>) -> Seq<TaskRowV> {
    tasks.map_values(
        |r: TaskRowV|
            if errored_kind(ops, "delete"@, r.uid) {
                TaskRowV { pending_delete: false, ..r }
            } else {
                r
            },
    )
}

/// A row that stays: not the placeholder of a create that was given up.
pub open spec fn not_abandoned(ops: Seq<PendingOpV>) -> spec_fn(TaskRowV) -> bool {
    |r: TaskRowV|
        !(errored_kind(ops, "create"@, r.uid) && begins_with(ascii_lower(r.href), "pending:"@))
}

/// The calendars, with those to be pulled from the start in which a change was given up:
/// the cache holds the change, and not what the server has of the task.
pub open spec fn pulled_anew(cals: Seq<CalendarRowV>, ops: Seq<PendingOpV>) -> Seq<CalendarRowV> {
    cals.map_values(
        |c: CalendarRowV|
            if find(ops, lost_change_in(c.href), 0) < ops.len() {
                CalendarRowV { sync_token: None, ..c }
            } else {
                c
            },
    )
}

/// The tables without what was given up.
pub open spec fn cleared(s: StoreV) -> StoreV {
    StoreV {
        tasks: revived(s.tasks, s.ops).filter(not_abandoned(s.ops)),
        ops: s.ops.filter(not_given_up()),
        calendars: pulled_anew(s.calendars, s.ops),
        ..s
    }
}

/// Has the calendars pulled from the start in which a change was given up.
fn pull_anew(store: &mut Store)
    requires
        old(store)@.wf(),
    ensures
        final(store)@.wf(),
        final(store)@ == (StoreV {
            calendars: pulled_anew(old(store)@.calendars, old(store)@.ops),
            ..old(store)@
        }),
{
    let ghost want = pulled_anew(store@.calendars, store@.ops);
    let mut i: usize = 0;
    while i < store.calendars.len()
        invariant
            i <= store.calendars@.len(),
            store.calendars@.len() == old(store).calendars@.len(),
            store.ops == old(store).ops,
            store.tasks == old(store).tasks,
            store.last_op_id == old(store).last_op_id,
            want == pulled_anew(old(store)@.calendars, old(store)@.ops),
            forall|j: int| 0 <= j < i ==> (#[trigger] store.calendars@[j])@ == want[j],
            forall|j: int|
                i <= j < store.calendars@.len() ==> store.calendars@[j]
                    == old(store).calendars@[j],
        decreases store.calendars@.len() - i,
    {
        assert(old(store)@.calendars[i as int] == store.calendars@[i as int]@);
        if is_change_lost(&store.ops, store.calendars[i].href.as_str()) {
            store.calendars[i].sync_token = None;
        }
        i += 1;
    }
    assert(store@.calendars =~= want);
    proof {
        assert forall|a: int, b: int| 0 <= a < b < want.len() implies (#[trigger] want[a]).href
            != (#[trigger] want[b]).href by {
            let x = old(store)@.calendars[a];
            let y = old(store)@.calendars[b];
            assert(want[a].href == x.href && want[b].href == y.href);
        }
    }
}

fn has_errored_kind(ops: &Vec<PendingOp>, op_type: &str, uid: &str) -> (r: bool)
    ensures
        r == errored_kind(op_views(ops@), op_type@, uid@),
{
    let mut i: usize = 0;
    while i < ops.len()
        invariant
            i <= ops@.len(),
            forall|j: int|
                0 <= j < i ==> !((#[trigger] op_views(ops@)[j]).errored == 1 && op_views(
                    ops@,
                )[j].op_type == op_type@ && op_views(ops@)[j].target_uid == uid@),
        decreases ops@.len() - i,
    {
        assert(op_views(ops@)[i as int] == ops@[i as int]@);
        if ops[i].errored == 1 && str_eq(ops[i].op_type.as_str(), op_type) && str_eq(
            ops[i].target_uid.as_str(),
            uid,
        ) {
            return true;
        }
        i += 1;
    }
    false
}

/// Drops every operation that was given up, shows the tasks again whose delete
/// was among them, and forgets the tasks whose create was. A calendar in which a change was
/// given up is pulled from the start next. Returns how many operations were dropped.
pub fn clear_errored(store: &mut Store) -> (n: usize)
    requires
        old(store)@.wf(),
    ensures
        final(store)@.wf(),
        final(store)@ == cleared(old(store)@),
        n == count(old(store)@.ops, given_up()),
{
    pull_anew(store);
    let ghost now = store@;
    let ghost ops = store@.ops;
    let ghost raised = revived(store@.tasks, ops);
    let mut rows: Vec<TaskRow> = Vec::new();
    let mut i: usize = 0;
    proof {
        reveal(Seq::filter);
        assert(raised.take(0) =~= Seq::empty());
        assert(task_row_views(rows@) =~= Seq::empty());
    }
    while i < store.tasks.len()
        invariant
            i <= store.tasks@.len(),
            store@ == now,
            ops == store@.ops,
            raised == revived(store@.tasks, ops),
            task_row_views(rows@) == raised.take(i as int).filter(not_abandoned(ops)),
        decreases store.tasks@.len() - i,
    {
        proof {
            assert(store@.tasks[i as int] == store.tasks@[i as int]@);
            lemma_filter_step(raised, not_abandoned(ops), i as int);
        }
        let mut row = store.tasks[i].copy();
        if has_errored_kind(&store.ops, "delete", row.uid.as_str()) {
            row.pending_delete = false;
        }
        assert(row@ == raised[i as int]);
        let low = to_ascii_lower(row.href.as_str());
        let abandoned = has_errored_kind(&store.ops, "create", row.uid.as_str()) && starts_with(
            low.as_str(),
            "pending:",
        );
        if !abandoned {
            let ghost before = task_row_views(rows@);
            rows.push(row);
            assert(task_row_views(rows@) =~= before.push(row@));
        }
        i += 1;
    }
    let mut kept: Vec<PendingOp> = Vec::new();
    let mut n: usize = 0;
    let mut j: usize = 0;
    proof {
        reveal(Seq::filter);
        assert(ops.take(0) =~= Seq::empty());
        assert(op_views(kept@) =~= Seq::empty());
    }
    while j < store.ops.len()
        invariant
            j <= store.ops@.len(),
            n <= j,
            store@ == now,
            ops == store@.ops,
            op_views(kept@) == ops.take(j as int).filter(not_given_up()),
            n == ops.take(j as int).filter(given_up()).len(),
        decreases store.ops@.len() - j,
    {
        proof {
            assert(ops[j as int] == store.ops@[j as int]@);
            lemma_filter_step(ops, not_given_up(), j as int);
            lemma_filter_step(ops, given_up(), j as int);
        }
        if store.ops[j].errored == 1 {
            n += 1;
        } else {
            let ghost before = op_views(kept@);
            let op = store.ops[j].copy();
            kept.push(op);
            assert(op_views(kept@) =~= before.push(op@));
        }
        j += 1;
    }
    proof {
        assert(raised.take(i as int) =~= raised);
        assert(ops.take(j as int) =~= ops);
        lemma_filter_ops(ops, not_given_up(), store@.last_op_id);
        assert(task_keys_unique(raised)) by {
            assert forall|a: int, b: int| 0 <= a < b < raised.len() implies !((
            #[trigger] raised[a]).calendar_href == (#[trigger] raised[b]).calendar_href
                && raised[a].href == raised[b].href) by {
                let x = store@.tasks[a];
                let y = store@.tasks[b];
                assert(raised[a].href == x.href && raised[b].href == y.href);
            }
        }
        lemma_filter_tasks(raised, not_abandoned(ops));
    }
    store.tasks = rows;
    store.ops = kept;
    assert(store@.calendars =~= now.calendars);
    n
}

/// Flags the operation `id` as given up, with the message it has.
pub fn flag_errored(store: &mut Store, id: i64)
    requires
        old(store)@.wf(),
    ensures
        final(store)@.wf(),
        final(store)@ == (StoreV { ops: op_flagged(old(store)@.ops, id as int), ..old(store)@ }),
{
    let ghost want = op_flagged(store@.ops, id as int);
    let mut i: usize = 0;
    while i < store.ops.len()
        invariant
            i <= store.ops@.len(),
            store.ops@.len() == old(store).ops@.len(),
            store.tasks == old(store).tasks,
            store.calendars == old(store).calendars,
            store.last_op_id == old(store).last_op_id,
            want == op_flagged(old(store)@.ops, id as int),
            forall|j: int| 0 <= j < i ==> (#[trigger] store.ops@[j])@ == want[j],
            forall|j: int| i <= j < store.ops@.len() ==> store.ops@[j] == old(store).ops@[j],
        decreases store.ops@.len() - i,
    {
        assert(old(store)@.ops[i as int] == store.ops@[i as int]@);
        if store.ops[i].id == id {
            store.ops[i].errored = 1;
        }
        i += 1;
    }
    assert(store@.ops =~= want);
}

} // verus!
