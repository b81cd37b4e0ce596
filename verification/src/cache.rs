//! The cached tasks and the known calendars, as a sync leaves them.
use vstd::prelude::*;
use crate::config::LOCAL_LIST_ID;
use crate::db::{status_name, status_to_str};
use crate::pending::lemma_filter_tasks;
use crate::seqs::{
    count, find, first, lemma_filter_mem, lemma_filter_step, lemma_find, lemma_find_is,
};
use crate::store::{
    calendar_keys_unique, calendar_views, calendar_with_href, copy_opt, keyed, of_uid,
    task_row_views, CalendarRow, CalendarRowV, Store, StoreV, TaskRow, TaskRowV,
};
use crate::task::{Task, TaskV};
use crate::text::{opt_text, str_eq, texts};

verus! {

/// The device's own list?
pub fn is_local_list(calendar_href: &str) -> (r: bool)
    ensures
        r == (calendar_href@ == LOCAL_LIST_ID@),
{
    str_eq(calendar_href, LOCAL_LIST_ID)
}

// --- Tasks ---

/// A row as the server describes it.
pub open spec fn server_row(
    cal: Seq<char>,
    href: Seq<char>,
    etag: Seq<char>,
    ical: Seq<char>,
    uid: Seq<char>,
    t: TaskV,
) -> TaskRowV {
    TaskRowV {
        calendar_href: cal,
        href,
        etag,
        ical_text: ical,
        summary: t.summary,
        status: Some(status_name(t.status)),
        due: t.due,
        uid,
        pending_delete: false,
        anchor: None,
    }
}

/// The rows with the server's description of one task. A row that is already
/// there keeps its place, its anchor, and whether it is hidden.
pub open spec fn task_upserted(
    tasks: Seq<TaskRowV>,
    cal: Seq<char>,
    href: Seq<char>,
    etag: Seq<char>,
    ical: Seq<char>,
    uid: Seq<char>,
    t: TaskV,
) -> Seq<TaskRowV> {
    let k = find(tasks, keyed(cal, href), 0) as int;
    let row = server_row(cal, href, etag, ical, uid, t);
    if k < tasks.len() {
        tasks.update(
            k,
            TaskRowV {
                pending_delete: tasks[k].pending_delete,
                anchor: tasks[k].anchor,
                ..row
            },
        )
    } else {
        tasks.push(row)
    }
}

/// Any row but `href` of `cal`.
pub open spec fn not_keyed(cal: Seq<char>, href: Seq<char>) -> spec_fn(TaskRowV) -> bool {
    |r: TaskRowV| !(r.calendar_href == cal && r.href == href)
}

/// Any row but those of `cal` for `uid`.
pub open spec fn not_of_uid(cal: Seq<char>, uid: Seq<char>) -> spec_fn(TaskRowV) -> bool {
    |r: TaskRowV| !(r.calendar_href == cal && r.uid == uid)
}

/// A row of `cal` that is not among `kept`.
pub open spec fn stale(cal: Seq<char>, kept: Seq<Seq<char>>) -> spec_fn(TaskRowV) -> bool {
    |r: TaskRowV| r.calendar_href == cal && !kept.contains(r.href)
}

/// A row of another calendar, or among `kept`.
pub open spec fn not_stale(cal: Seq<char>, kept: Seq<Seq<char>>) -> spec_fn(TaskRowV) -> bool {
    |r: TaskRowV| !(r.calendar_href == cal && !kept.contains(r.href))
}

/// Puts the server's description of a task into the cache.
pub fn upsert_task(
    store: &mut Store,
    calendar_href: &str,
    task_href: &str,
    etag: &str,
    ical_text: &str,
    uid: &str,
    parsed: &Task,
)
    requires
        old(store)@.wf(),
    ensures
        final(store)@.wf(),
        final(store)@ == (StoreV {
            tasks: task_upserted(
                old(store)@.tasks,
                calendar_href@,
                task_href@,
                etag@,
                ical_text@,
                uid@,
                parsed@,
            ),
            ..old(store)@
        }),
{
    let k = store.find_keyed(calendar_href, task_href);
    let mut row = TaskRow {
        calendar_href: calendar_href.to_owned(),
        href: task_href.to_owned(),
        etag: etag.to_owned(),
        ical_text: ical_text.to_owned(),
        summary: parsed.summary.clone(),
        status: Some(status_to_str(parsed.status).to_owned()),
        due: copy_opt(&parsed.due),
        uid: uid.to_owned(),
        pending_delete: false,
        anchor: None,
    };
    assert(row@ == server_row(calendar_href@, task_href@, etag@, ical_text@, uid@, parsed@));
    proof {
        lemma_find(store@.tasks, keyed(calendar_href@, task_href@), 0);
    }
    if k < store.tasks.len() {
        assert(store@.tasks[k as int] == store.tasks@[k as int]@);
        row.pending_delete = store.tasks[k].pending_delete;
        row.anchor = match &store.tasks[k].anchor {
            Some(a) => Some(a.copy()),
            None => None,
        };
        store.tasks.set(k, row);
        assert(store@.tasks =~= old(store)@.tasks.update(k as int, row@));
    } else {
        store.tasks.push(row);
        assert(store@.tasks =~= old(store)@.tasks.push(row@));
    }
    assert(store@.ops =~= old(store)@.ops);
    assert(store@.calendars =~= old(store)@.calendars);
}

/// Removes a task from the cache, if it is there.
pub fn delete_task(store: &mut Store, calendar_href: &str, task_href: &str)
    requires
        old(store)@.wf(),
    ensures
        final(store)@.wf(),
        final(store)@ == (StoreV {
            tasks: old(store)@.tasks.filter(not_keyed(calendar_href@, task_href@)),
            ..old(store)@
        }),
{
    let ghost p = not_keyed(calendar_href@, task_href@);
    let mut kept: Vec<TaskRow> = Vec::new();
    let mut i: usize = 0;
    proof {
        reveal(Seq::filter);
        assert(store@.tasks.take(0) =~= Seq::empty());
        assert(task_row_views(kept@) =~= Seq::empty());
    }
    while i < store.tasks.len()
        invariant
            i <= store.tasks@.len(),
            store@ == old(store)@,
            p == not_keyed(calendar_href@, task_href@),
            task_row_views(kept@) == store@.tasks.take(i as int).filter(p),
        decreases store.tasks@.len() - i,
    {
        proof {
            assert(store@.tasks[i as int] == store.tasks@[i as int]@);
            lemma_filter_step(store@.tasks, p, i as int);
        }
        if !store.tasks[i].is_keyed(calendar_href, task_href) {
            let ghost before = task_row_views(kept@);
            let row = store.tasks[i].copy();
            kept.push(row);
            assert(task_row_views(kept@) =~= before.push(row@));
        }
        i += 1;
    }
    proof {
        assert(store@.tasks.take(i as int) =~= store@.tasks);
        lemma_filter_tasks(store@.tasks, p);
    }
    store.tasks = kept;
    assert(store@.ops =~= old(store)@.ops);
    assert(store@.calendars =~= old(store)@.calendars);
}

/// Removes the rows of a list for `uid`. Returns how many there were.
pub fn delete_by_uid(store: &mut Store, calendar_href: &str, uid: &str) -> (n: usize)
    requires
        old(store)@.wf(),
    ensures
        final(store)@.wf(),
        final(store)@ == (StoreV {
            tasks: old(store)@.tasks.filter(not_of_uid(calendar_href@, uid@)),
            ..old(store)@
        }),
        n == count(old(store)@.tasks, of_uid(calendar_href@, uid@)),
{
    let ghost p = not_of_uid(calendar_href@, uid@);
    let ghost q = of_uid(calendar_href@, uid@);
    let mut kept: Vec<TaskRow> = Vec::new();
    let mut n: usize = 0;
    let mut i: usize = 0;
    proof {
        reveal(Seq::filter);
        assert(store@.tasks.take(0) =~= Seq::empty());
        assert(task_row_views(kept@) =~= Seq::empty());
    }
    while i < store.tasks.len()
        invariant
            i <= store.tasks@.len(),
            n <= i,
            store@ == old(store)@,
            p == not_of_uid(calendar_href@, uid@),
            q == of_uid(calendar_href@, uid@),
            task_row_views(kept@) == store@.tasks.take(i as int).filter(p),
            n == store@.tasks.take(i as int).filter(q).len(),
        decreases store.tasks@.len() - i,
    {
        proof {
            assert(store@.tasks[i as int] == store.tasks@[i as int]@);
            lemma_filter_step(store@.tasks, p, i as int);
            lemma_filter_step(store@.tasks, q, i as int);
        }
        if store.tasks[i].is_uid(calendar_href, uid) {
            n += 1;
        } else {
            let ghost before = task_row_views(kept@);
            let row = store.tasks[i].copy();
            kept.push(row);
            assert(task_row_views(kept@) =~= before.push(row@));
        }
        i += 1;
    }
    proof {
        assert(store@.tasks.take(i as int) =~= store@.tasks);
        lemma_filter_tasks(store@.tasks, p);
    }
    store.tasks = kept;
    assert(store@.ops =~= old(store)@.ops);
    assert(store@.calendars =~= old(store)@.calendars);
    n
}

fn is_kept(kept: &Vec<String>, href: &str) -> (r: bool)
    ensures
        r == texts(kept@).contains(href@),
{
    let mut i: usize = 0;
    while i < kept.len()
        invariant
            i <= kept@.len(),
            forall|j: int| 0 <= j < i ==> texts(kept@)[j] != href@,
        decreases kept@.len() - i,
    {
        if str_eq(kept[i].as_str(), href) {
            assert(texts(kept@)[i as int] == href@);
            return true;
        }
        i += 1;
    }
    false
}

/// Removes the tasks of a list that are not among `kept`. Returns how many there
/// were.
pub fn delete_tasks_not_in(store: &mut Store, calendar_href: &str, kept: &Vec<String>) -> (n: usize)
    requires
        old(store)@.wf(),
    ensures
        final(store)@.wf(),
        final(store)@ == (StoreV {
            tasks: old(store)@.tasks.filter(not_stale(calendar_href@, texts(kept@))),
            ..old(store)@
        }),
        n == count(old(store)@.tasks, stale(calendar_href@, texts(kept@))),
{
    let ghost p = not_stale(calendar_href@, texts(kept@));
    let ghost q = stale(calendar_href@, texts(kept@));
    let mut rows: Vec<TaskRow> = Vec::new();
    let mut n: usize = 0;
    let mut i: usize = 0;
    proof {
        reveal(Seq::filter);
        assert(store@.tasks.take(0) =~= Seq::empty());
        assert(task_row_views(rows@) =~= Seq::empty());
    }
    while i < store.tasks.len()
        invariant
            i <= store.tasks@.len(),
            n <= i,
            store@ == old(store)@,
            p == not_stale(calendar_href@, texts(kept@)),
            q == stale(calendar_href@, texts(kept@)),
            task_row_views(rows@) == store@.tasks.take(i as int).filter(p),
            n == store@.tasks.take(i as int).filter(q).len(),
        decreases store.tasks@.len() - i,
    {
        proof {
            assert(store@.tasks[i as int] == store.tasks@[i as int]@);
            lemma_filter_step(store@.tasks, p, i as int);
            lemma_filter_step(store@.tasks, q, i as int);
        }
        if str_eq(store.tasks[i].calendar_href.as_str(), calendar_href) && !is_kept(
            kept,
            store.tasks[i].href.as_str(),
        ) {
            n += 1;
        } else {
            let ghost before = task_row_views(rows@);
            let row = store.tasks[i].copy();
            rows.push(row);
            assert(task_row_views(rows@) =~= before.push(row@));
        }
        i += 1;
    }
    proof {
        assert(store@.tasks.take(i as int) =~= store@.tasks);
        lemma_filter_tasks(store@.tasks, p);
    }
    store.tasks = rows;
    assert(store@.ops =~= old(store)@.ops);
    assert(store@.calendars =~= old(store)@.calendars);
    n
}

// --- Calendars ---

/// A calendar with a display name.
pub open spec fn named(name: Seq<char>) -> spec_fn(CalendarRowV) -> bool {
    |c: CalendarRowV| c.display_name == name
}

/// The calendars with `href` known under `name`.
pub open spec fn calendar_upserted(
    cals: Seq<CalendarRowV>,
    href: Seq<char>,
    name: Seq<char>,
) -> Seq<CalendarRowV> {
    let k = find(cals, calendar_with_href(href), 0) as int;
    if k < cals.len() {
        cals.update(k, CalendarRowV { display_name: name, ..cals[k] })
    } else {
        cals.push(
            CalendarRowV { href, display_name: name, sync_token: None, last_synced_at: None },
        )
    }
}

/// The calendars with the sync state of `href` replaced.
pub open spec fn token_set(
    cals: Seq<CalendarRowV>,
    href: Seq<char>,
    token: Option<Seq<char>>,
    at: Option<i64>,
) -> Seq<CalendarRowV> {
    let k = find(cals, calendar_with_href(href), 0) as int;
    if k < cals.len() {
        cals.update(k, CalendarRowV { sync_token: token, last_synced_at: at, ..cals[k] })
    } else {
        cals
    }
}

/// Makes a calendar known under a name.
pub fn upsert_calendar(store: &mut Store, href: &str, display_name: &str)
    requires
        old(store)@.wf(),
    ensures
        final(store)@.wf(),
        final(store)@ == (StoreV {
            calendars: calendar_upserted(old(store)@.calendars, href@, display_name@),
            ..old(store)@
        }),
{
    let k = store.find_calendar(href);
    proof {
        lemma_find(store@.calendars, calendar_with_href(href@), 0);
    }
    if k < store.calendars.len() {
        assert(store@.calendars[k as int] == store.calendars@[k as int]@);
        store.calendars[k].display_name = display_name.to_owned();
        assert(store@.calendars =~= calendar_upserted(
            old(store)@.calendars,
            href@,
            display_name@,
        ));
    } else {
        let row = CalendarRow {
            href: href.to_owned(),
            display_name: display_name.to_owned(),
            sync_token: None,
            last_synced_at: None,
        };
        store.calendars.push(row);
        assert(store@.calendars =~= old(store)@.calendars.push(row@));
    }
    assert(store@.tasks =~= old(store)@.tasks);
    assert(store@.ops =~= old(store)@.ops);
}

/// Makes the device's own list known.
pub fn ensure_local_list(store: &mut Store)
    requires
        old(store)@.wf(),
    ensures
        final(store)@.wf(),
        final(store)@ == with_local_list(old(store)@),
{
    let k = store.find_calendar(LOCAL_LIST_ID);
    if k >= store.calendars.len() {
        upsert_calendar(store, LOCAL_LIST_ID, "On this reMarkable");
    }
}

/// The tables with the device's own list known.
pub open spec fn with_local_list(s: StoreV) -> StoreV {
    if find(s.calendars, calendar_with_href(LOCAL_LIST_ID@), 0) < s.calendars.len() {
        s
    } else {
        StoreV {
            calendars: calendar_upserted(s.calendars, LOCAL_LIST_ID@, "On this reMarkable"@),
            ..s
        }
    }
}

pub open spec fn knows_calendar(s: StoreV, href: Seq<char>) -> bool {
    find(s.calendars, calendar_with_href(href), 0) < s.calendars.len()
}

/// Is the calendar known?
pub fn calendar_exists(store: &Store, href: &str) -> (r: bool)
    ensures
        r == knows_calendar(store@, href@),
{
    store.find_calendar(href) < store.calendars.len()
}

pub open spec fn token_of(s: StoreV, href: Seq<char>) -> Option<Seq<char>> {
    match first(s.calendars, calendar_with_href(href)) {
        Some(c) => c.sync_token,
        None => None,
    }
}

/// Where the last sync of a calendar left off.
pub fn get_sync_token(store: &Store, href: &str) -> (r: Option<String>)
    ensures
        opt_text(r) == token_of(store@, href@),
{
    let k = store.find_calendar(href);
    if k < store.calendars.len() {
        assert(store@.calendars[k as int] == store.calendars@[k as int]@);
        copy_opt(&store.calendars[k].sync_token)
    } else {
        None
    }
}

pub open spec fn synced_at(s: StoreV, href: Seq<char>) -> Option<i64> {
    match first(s.calendars, calendar_with_href(href)) {
        Some(c) => c.last_synced_at,
        None => None,
    }
}

/// When a calendar was last synced, in seconds since the epoch.
pub fn last_synced(store: &Store, href: &str) -> (r: Option<i64>)
    ensures
        r == synced_at(store@, href@),
{
    let k = store.find_calendar(href);
    if k < store.calendars.len() {
        assert(store@.calendars[k as int] == store.calendars@[k as int]@);
        store.calendars[k].last_synced_at
    } else {
        None
    }
}

/// Replaces the sync state of a calendar.
fn put_sync_state(store: &mut Store, href: &str, token: Option<String>, at: Option<i64>)
    requires
        old(store)@.wf(),
    ensures
        final(store)@.wf(),
        final(store)@ == (StoreV {
            calendars: token_set(old(store)@.calendars, href@, opt_text(token), at),
            ..old(store)@
        }),
{
    let k = store.find_calendar(href);
    if k < store.calendars.len() {
        assert(store@.calendars[k as int] == store.calendars@[k as int]@);
        store.calendars[k].sync_token = token;
        store.calendars[k].last_synced_at = at;
    }
    assert(store@.calendars =~= token_set(old(store)@.calendars, href@, opt_text(token), at));
    assert(store@.tasks =~= old(store)@.tasks);
    assert(store@.ops =~= old(store)@.ops);
}

/// Records where and when a sync of a calendar ended.
pub fn set_sync_token(store: &mut Store, href: &str, token: &str, last_synced_at: i64)
    requires
        old(store)@.wf(),
    ensures
        final(store)@.wf(),
        final(store)@ == (StoreV {
            calendars: token_set(
                old(store)@.calendars,
                href@,
                Some(token@),
                Some(last_synced_at),
            ),
            ..old(store)@
        }),
{
    put_sync_state(store, href, Some(token.to_owned()), Some(last_synced_at));
}

/// Forgets where the last sync of a calendar left off.
pub fn clear_sync_token(store: &mut Store, href: &str)
    requires
        old(store)@.wf(),
    ensures
        final(store)@.wf(),
        final(store)@ == (StoreV {
            calendars: token_set(
                old(store)@.calendars,
                href@,
                None,
                synced_at(old(store)@, href@),
            ),
            ..old(store)@
        }),
{
    let at = last_synced(store, href);
    put_sync_state(store, href, None, at);
}

/// Records when a sync of a calendar ended, and nothing else.
pub fn set_last_synced(store: &mut Store, href: &str, at: i64)
    requires
        old(store)@.wf(),
    ensures
        final(store)@.wf(),
        final(store)@ == (StoreV {
            calendars: token_set(
                old(store)@.calendars,
                href@,
                token_of(old(store)@, href@),
                Some(at),
            ),
            ..old(store)@
        }),
{
    let token = get_sync_token(store, href);
    put_sync_state(store, href, token, Some(at));
}

pub open spec fn href_named(s: StoreV, name: Seq<char>) -> Option<Seq<char>> {
    match first(s.calendars, named(name)) {
        Some(c) => Some(c.href),
        None => None,
    }
}

/// The calendar with a display name.
pub fn get_calendar_href_by_display_name(store: &Store, name: &str) -> (r: Option<String>)
    ensures
        opt_text(r) == href_named(store@, name@),
{
    let mut k: usize = 0;
    while k < store.calendars.len() && !str_eq(store.calendars[k].display_name.as_str(), name)
        invariant
            k <= store.calendars@.len(),
            forall|i: int| 0 <= i < k ==> !named(name@)(#[trigger] store@.calendars[i]),
        decreases store.calendars@.len() - k,
    {
        assert(store@.calendars[k as int] == store.calendars@[k as int]@);
        k += 1;
    }
    proof {
        if k < store.calendars@.len() {
            assert(store@.calendars[k as int] == store.calendars@[k as int]@);
        }
        lemma_find_is(store@.calendars, named(name@), k as nat);
    }
    if k < store.calendars.len() {
        Some(store.calendars[k].href.clone())
    } else {
        None
    }
}

/// A task of the device's own list.
pub open spec fn local_row() -> spec_fn(TaskRowV) -> bool {
    |r: TaskRowV| r.calendar_href == LOCAL_LIST_ID@
}

pub open spec fn local_calendar() -> spec_fn(CalendarRowV) -> bool {
    |c: CalendarRowV| c.href == LOCAL_LIST_ID@
}

/// The tables without anything that came from, or was meant for, a server.
pub open spec fn without_remote(s: StoreV) -> StoreV {
    StoreV {
        tasks: s.tasks.filter(local_row()),
        ops: Seq::empty(),
        calendars: s.calendars.filter(local_calendar()),
        ..s
    }
}

/// Dropping calendars keeps their addresses apart.
proof fn lemma_filter_calendars(cals: Seq<CalendarRowV>, p: spec_fn(CalendarRowV) -> bool)
    requires
        calendar_keys_unique(cals),
    ensures
        calendar_keys_unique(cals.filter(p)),
    decreases cals.len(),
{
    reveal(Seq::filter);
    if cals.len() > 0 {
        let d = cals.drop_last();
        assert(calendar_keys_unique(d)) by {
            assert forall|i: int, j: int| 0 <= i < j < d.len() implies (#[trigger] d[i]).href != (
            #[trigger] d[j]).href by {
                assert(d[i] == cals[i] && d[j] == cals[j]);
            }
        }
        lemma_filter_calendars(d, p);
        lemma_filter_mem(d, p);
        let f = cals.filter(p);
        let g = d.filter(p);
        assert forall|i: int, j: int| 0 <= i < j < f.len() implies (#[trigger] f[i]).href != (
        #[trigger] f[j]).href by {
            if j < g.len() {
                assert(f[i] == g[i] && f[j] == g[j]);
            } else {
                assert(f[i] == g[i] && f[j] == cals.last());
                assert(d.contains(g[i]));
                let k = choose|k: int| 0 <= k < d.len() && d[k] == g[i];
                assert(cals[k] == g[i]);
                assert(cals[cals.len() - 1] == f[j]);
            }
        }
    }
}

/// Forgets everything that came from a server, and every queued write. The
/// device's own list stays.
pub fn reset_cache(store: &mut Store)
    requires
        old(store)@.wf(),
    ensures
        final(store)@.wf(),
        final(store)@ == without_remote(old(store)@),
{
    let mut rows: Vec<TaskRow> = Vec::new();
    let mut i: usize = 0;
    proof {
        reveal(Seq::filter);
        assert(store@.tasks.take(0) =~= Seq::empty());
        assert(task_row_views(rows@) =~= Seq::empty());
    }
    while i < store.tasks.len()
        invariant
            i <= store.tasks@.len(),
            store@ == old(store)@,
            task_row_views(rows@) == store@.tasks.take(i as int).filter(local_row()),
        decreases store.tasks@.len() - i,
    {
        proof {
            assert(store@.tasks[i as int] == store.tasks@[i as int]@);
            lemma_filter_step(store@.tasks, local_row(), i as int);
        }
        if is_local_list(store.tasks[i].calendar_href.as_str()) {
            let ghost before = task_row_views(rows@);
            let row = store.tasks[i].copy();
            rows.push(row);
            assert(task_row_views(rows@) =~= before.push(row@));
        }
        i += 1;
    }
    let mut cals: Vec<CalendarRow> = Vec::new();
    let mut j: usize = 0;
    proof {
        reveal(Seq::filter);
        assert(store@.calendars.take(0) =~= Seq::empty());
        assert(calendar_views(cals@) =~= Seq::empty());
    }
    while j < store.calendars.len()
        invariant
            j <= store.calendars@.len(),
            store@ == old(store)@,
            calendar_views(cals@) == store@.calendars.take(j as int).filter(local_calendar()),
        decreases store.calendars@.len() - j,
    {
        proof {
            assert(store@.calendars[j as int] == store.calendars@[j as int]@);
            lemma_filter_step(store@.calendars, local_calendar(), j as int);
        }
        if is_local_list(store.calendars[j].href.as_str()) {
            let c = CalendarRow {
                href: store.calendars[j].href.clone(),
                display_name: store.calendars[j].display_name.clone(),
                sync_token: copy_opt(&store.calendars[j].sync_token),
                last_synced_at: store.calendars[j].last_synced_at,
            };
            let ghost before = calendar_views(cals@);
            cals.push(c);
            assert(calendar_views(cals@) =~= before.push(c@));
        }
        j += 1;
    }
    proof {
        assert(store@.tasks.take(i as int) =~= store@.tasks);
        assert(store@.calendars.take(j as int) =~= store@.calendars);
        lemma_filter_tasks(store@.tasks, local_row());
        lemma_filter_calendars(store@.calendars, local_calendar());
    }
    store.tasks = rows;
    store.calendars = cals;
    store.ops = Vec::new();
    assert(store@.ops =~= Seq::empty());
}

} // verus!
