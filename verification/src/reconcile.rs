//! Putting what a sync brought into the tables, and saying what it did.
use vstd::prelude::*;
use crate::cache::{
    clear_sync_token, delete_task, delete_tasks_not_in, not_keyed, not_stale, set_last_synced,
    set_sync_token, stale, synced_at, task_upserted, token_of, token_set, upsert_task,
};
use crate::config::{CaldavConfig, CaldavConfigV};
use crate::failure::{plain, Failure, FailureV};
use crate::multistatus::{
    calendar_list, record_views, Calendar, CalendarV, SyncDelta, SyncDeltaV, TaskRecord,
    TaskRecordV,
};
use crate::pending::{has_open_change, is_change_open};
use crate::queue::{no_activity, FlushSummary, FlushSummaryV};
use crate::seqs::{count, find, lemma_find_is};
use crate::store::{keyed, PendingOpV, Store, StoreV, TaskRowV};
use crate::text::{
    debug_quoted, debug_text, decimal, decimal_of, join, joined, opt_str, str_eq, texts,
};

verus! {

// --- Which list to sync ---

pub open spec fn with_href(href: Seq<char>) -> spec_fn(CalendarV) -> bool {
    |c: CalendarV| c.href == href
}

pub open spec fn with_name(name: Seq<char>) -> spec_fn(CalendarV) -> bool {
    |c: CalendarV| c.display_name == name
}

/// The list that the settings name, by its address or else by its display name;
/// the number of lists where there is none.
pub open spec fn picked(cfg: CaldavConfigV, cals: Seq<CalendarV>) -> nat {
    match cfg.calendar_href {
        Some(h) => find(cals, with_href(h), 0),
        None => match cfg.calendar {
            Some(n) => find(cals, with_name(n), 0),
            None => cals.len(),
        },
    }
}

/// The display names, quoted.
pub open spec fn quoted_names(cals: Seq<CalendarV>) -> Seq<Seq<char>> {
    cals.map_values(|c: CalendarV| debug_text(c.display_name))
}

pub open spec fn list_not_found(cals: Seq<CalendarV>) -> FailureV {
    plain(
        "configured task list not found among discovered calendars: ["@ + joined(
            quoted_names(cals),
            ", "@,
        ) + "]"@,
    )
}

/// Picks the list that the settings name out of those that were found.
pub fn pick_calendar(cfg: &CaldavConfig, calendars: &Vec<Calendar>) -> (r: Result<usize, Failure>)
    ensures
        match r {
            Ok(k) => k < calendars@.len() && k == picked(cfg@, calendar_list(calendars@)),
            Err(e) => picked(cfg@, calendar_list(calendars@)) == calendars@.len() && e@
                == list_not_found(calendar_list(calendars@)),
        },
{
    let ghost cals = calendar_list(calendars@);
    let mut k: usize = 0;
    match &cfg.calendar_href {
        Some(h) => {
            while k < calendars.len() && !str_eq(calendars[k].href.as_str(), h.as_str())
                invariant
                    k <= calendars@.len(),
                    cals == calendar_list(calendars@),
                    forall|i: int| 0 <= i < k ==> !with_href(h@)(#[trigger] cals[i]),
                decreases calendars@.len() - k,
            {
                k += 1;
            }
            proof {
                lemma_find_is(cals, with_href(h@), k as nat);
            }
        },
        None => match &cfg.calendar {
            Some(n) => {
                while k < calendars.len() && !str_eq(
                    calendars[k].display_name.as_str(),
                    n.as_str(),
                )
                    invariant
                        k <= calendars@.len(),
                        cals == calendar_list(calendars@),
                        forall|i: int| 0 <= i < k ==> !with_name(n@)(#[trigger] cals[i]),
                    decreases calendars@.len() - k,
                {
                    k += 1;
                }
                proof {
                    lemma_find_is(cals, with_name(n@), k as nat);
                }
            },
            None => {
                k = calendars.len();
            },
        },
    }
    if k < calendars.len() {
        return Ok(k);
    }
    let mut names: Vec<String> = Vec::new();
    let mut i: usize = 0;
    while i < calendars.len()
        invariant
            i <= calendars@.len(),
            cals == calendar_list(calendars@),
            names@.len() == i,
            forall|j: int| 0 <= j < i ==> (#[trigger] names@[j])@ == debug_text(cals[j].display_name),
        decreases calendars@.len() - i,
    {
        names.push(debug_quoted(calendars[i].display_name.as_str()));
        i += 1;
    }
    assert(texts(names@) =~= quoted_names(cals));
    let mut m = "configured task list not found among discovered calendars: [".to_owned();
    m.append(join(&names, ", ").as_str());
    m.append("]");
    Err(Failure::from_message(m))
}

// --- What a sync brought ---

/// The rows with a record put in. A row stays as it is while a change of its task waits or
/// is a conflict that the user can resolve: it holds what the user wants.
pub open spec fn record_put(
    tasks: Seq<TaskRowV>,
    ops: Seq<PendingOpV>,
    cal: Seq<char>,
    r: TaskRecordV,
) -> Seq<TaskRowV> {
    let k = find(tasks, keyed(cal, r.href), 0) as int;
    if k < tasks.len() && has_open_change(ops, cal, tasks[k].uid) {
        tasks
    } else {
        task_upserted(tasks, cal, r.href, r.etag, r.ical_text, r.task.uid, r.task)
    }
}

/// The rows with the first `n` records put in.
pub open spec fn records_put(
    tasks: Seq<TaskRowV>,
    ops: Seq<PendingOpV>,
    cal: Seq<char>,
    recs: Seq<TaskRecordV>,
    n: nat,
) -> Seq<TaskRowV>
    decreases n,
{
    if n == 0 {
        tasks
    } else {
        record_put(records_put(tasks, ops, cal, recs, (n - 1) as nat), ops, cal, recs[n - 1])
    }
}

/// The rows with the first `n` hrefs taken out.
pub open spec fn hrefs_taken(
    tasks: Seq<TaskRowV>,
    cal: Seq<char>,
    hrefs: Seq<Seq<char>>,
    n: nat,
) -> Seq<TaskRowV>
    decreases n,
{
    if n == 0 {
        tasks
    } else {
        hrefs_taken(tasks, cal, hrefs, (n - 1) as nat).filter(not_keyed(cal, hrefs[n - 1]))
    }
}

pub open spec fn record_hrefs(recs: Seq<TaskRecordV>) -> Seq<Seq<char>> {
    recs.map_values(|r: TaskRecordV| r.href)
}

/// The tables with the changes in, before the sync state is recorded.
pub open spec fn delta_in_place(s: StoreV, cal: Seq<char>, d: SyncDeltaV, was_full: bool) -> StoreV {
    let put = records_put(s.tasks, s.ops, cal, d.added_or_updated, d.added_or_updated.len());
    if was_full {
        StoreV {
            tasks: put.filter(not_stale(cal, record_hrefs(d.added_or_updated))),
            ..s
        }
    } else {
        StoreV {
            tasks: hrefs_taken(put, cal, d.deleted_hrefs, d.deleted_hrefs.len()),
            ..s
        }
    }
}

/// How many tasks the changes take out. After a full sync: those the server did
/// not list.
pub open spec fn delta_deletions(s: StoreV, cal: Seq<char>, d: SyncDeltaV, was_full: bool) -> nat {
    if was_full {
        count(
            records_put(s.tasks, s.ops, cal, d.added_or_updated, d.added_or_updated.len()),
            stale(cal, record_hrefs(d.added_or_updated)),
        )
    } else {
        d.deleted_hrefs.len()
    }
}

/// The tables after a sync that ended at `at`. Without a token the next sync
/// starts over, but the time counts.
pub open spec fn reconciled(
    s: StoreV,
    cal: Seq<char>,
    d: SyncDeltaV,
    was_full: bool,
    at: i64,
) -> StoreV {
    let t = delta_in_place(s, cal, d, was_full);
    match d.new_sync_token {
        Some(token) => StoreV {
            calendars: token_set(t.calendars, cal, Some(token), Some(at)),
            ..t
        },
        None => if was_full {
            StoreV {
                calendars: token_set(
                    token_set(t.calendars, cal, None, synced_at(t, cal)),
                    cal,
                    None,
                    Some(at),
                ),
                ..t
            }
        } else {
            t
        },
    }
}

fn put_records(store: &mut Store, cal: &str, recs: &Vec<TaskRecord>)
    requires
        old(store)@.wf(),
    ensures
        final(store)@.wf(),
        final(store)@ == (StoreV {
            tasks: records_put(
                old(store)@.tasks,
                old(store)@.ops,
                cal@,
                record_views(recs@),
                recs@.len(),
            ),
            ..old(store)@
        }),
{
    let ghost rs = record_views(recs@);
    let mut i: usize = 0;
    while i < recs.len()
        invariant
            i <= recs@.len(),
            rs == record_views(recs@),
            store@.wf(),
            store@ == (StoreV {
                tasks: records_put(old(store)@.tasks, old(store)@.ops, cal@, rs, i as nat),
                ..old(store)@
            }),
        decreases recs@.len() - i,
    {
        let r = &recs[i];
        assert(rs[i as int] == r@);
        let k = store.find_keyed(cal, r.href.as_str());
        let held = k < store.tasks.len() && is_change_open(
            &store.ops,
            cal,
            store.tasks[k].uid.as_str(),
        );
        assert(k < store@.tasks.len() ==> store@.tasks[k as int] == store.tasks@[k as int]@);
        if !held {
            upsert_task(
                store,
                cal,
                r.href.as_str(),
                r.etag.as_str(),
                r.ical_text.as_str(),
                r.task.uid.as_str(),
                &r.task,
            );
        }
        i += 1;
    }
}

fn take_hrefs(store: &mut Store, cal: &str, hrefs: &Vec<String>)
    requires
        old(store)@.wf(),
    ensures
        final(store)@.wf(),
        final(store)@ == (StoreV {
            tasks: hrefs_taken(old(store)@.tasks, cal@, texts(hrefs@), hrefs@.len()),
            ..old(store)@
        }),
{
    let ghost hs = texts(hrefs@);
    let mut i: usize = 0;
    while i < hrefs.len()
        invariant
            i <= hrefs@.len(),
            hs == texts(hrefs@),
            store@.wf(),
            store@ == (StoreV {
                tasks: hrefs_taken(old(store)@.tasks, cal@, hs, i as nat),
                ..old(store)@
            }),
        decreases hrefs@.len() - i,
    {
        assert(hs[i as int] == hrefs@[i as int]@);
        delete_task(store, cal, hrefs[i].as_str());
        i += 1;
    }
}

/// A sync token set twice keeps the second value.
proof fn lemma_token_after_clear(s: StoreV, cal: Seq<char>)
    ensures
        token_of(
            StoreV { calendars: token_set(s.calendars, cal, None, synced_at(s, cal)), ..s },
            cal,
        ) is None,
{
    let p = crate::store::calendar_with_href(cal);
    let k = find(s.calendars, p, 0);
    let after = token_set(s.calendars, cal, None, synced_at(s, cal));
    crate::seqs::lemma_find(s.calendars, p, 0);
    if k < s.calendars.len() {
        assert forall|i: int| 0 <= i < k implies !p(#[trigger] after[i]) by {
            assert(after[i] == s.calendars[i]);
        }
        lemma_find_is(after, p, k);
    } else {
        assert(after == s.calendars);
    }
}

/// Puts the changes of a sync that ended at the second `at` into the tables.
/// Returns how many tasks were put in and how many were taken out.
pub fn apply_delta(
    store: &mut Store,
    cal_href: &str,
    delta: &SyncDelta,
    was_full: bool,
    at: i64,
) -> (r: (usize, usize))
    requires
        old(store)@.wf(),
    ensures
        final(store)@.wf(),
        final(store)@ == reconciled(old(store)@, cal_href@, delta@, was_full, at),
        r.0 == delta@.added_or_updated.len(),
        r.1 == delta_deletions(old(store)@, cal_href@, delta@, was_full),
{
    put_records(store, cal_href, &delta.added_or_updated);
    let updated: usize = delta.added_or_updated.len();
    let deleted: usize;
    if was_full {
        let mut kept: Vec<String> = Vec::new();
        let mut i: usize = 0;
        while i < delta.added_or_updated.len()
            invariant
                i <= delta.added_or_updated@.len(),
                kept@.len() == i,
                forall|j: int|
                    0 <= j < i ==> (#[trigger] kept@[j])@
                        == delta@.added_or_updated[j].href,
            decreases delta.added_or_updated@.len() - i,
        {
            assert(delta@.added_or_updated[i as int] == delta.added_or_updated@[i as int]@);
            kept.push(delta.added_or_updated[i].href.clone());
            i += 1;
        }
        assert(texts(kept@) =~= record_hrefs(delta@.added_or_updated));
        deleted = delete_tasks_not_in(store, cal_href, &kept);
    } else {
        take_hrefs(store, cal_href, &delta.deleted_hrefs);
        deleted = delta.deleted_hrefs.len();
    }
    assert(store@ == delta_in_place(old(store)@, cal_href@, delta@, was_full));
    match &delta.new_sync_token {
        Some(token) => {
            set_sync_token(store, cal_href, token.as_str(), at);
        },
        None => {
            if was_full {
                proof {
                    lemma_token_after_clear(store@, cal_href@);
                }
                clear_sync_token(store, cal_href);
                set_last_synced(store, cal_href, at);
            }
        },
    }
    (updated, deleted)
}

// --- What a sync did, in words ---

/// The line about the queue.
pub open spec fn flush_line(f: FlushSummaryV) -> Seq<char> {
    "Flushed "@ + decimal(f.flushed as nat) + " / "@ + decimal(
        (f.newly_errored + f.cascade_errored) as nat,
    ) + " errored ("@ + decimal(f.retried as nat) + " retried)."@
}

/// The line about the changes.
pub open spec fn sync_line(kind: Option<Seq<char>>, updated: nat, deleted: nat) -> Seq<char> {
    match kind {
        Some(k) => "Sync complete: "@ + k + ", +"@ + decimal(updated) + " updated, -"@ + decimal(
            deleted,
        ) + " deleted."@,
        None => "network failed; sync-collection skipped"@,
    }
}

/// The report of a sync: about the queue only where it had something to do.
pub open spec fn sync_report(
    f: FlushSummaryV,
    kind: Option<Seq<char>>,
    updated: nat,
    deleted: nat,
) -> Seq<char> {
    if f == no_activity() {
        sync_line(kind, updated, deleted)
    } else {
        flush_line(f) + "\n"@ + sync_line(kind, updated, deleted)
    }
}

/// Reports on a sync. Without a kind, the pull was skipped.
pub fn compose_sync_response(
    flush: &FlushSummary,
    sync_kind: Option<&str>,
    updated: usize,
    deleted: usize,
) -> (s: String)
    requires
        flush.newly_errored + flush.cascade_errored <= usize::MAX,
    ensures
        s@ == sync_report(flush@, opt_str(sync_kind), updated as nat, deleted as nat),
{
    let line = match sync_kind {
        Some(k) => {
            let mut l = "Sync complete: ".to_owned();
            l.append(k);
            l.append(", +");
            l.append(decimal_of(updated as u64).as_str());
            l.append(" updated, -");
            l.append(decimal_of(deleted as u64).as_str());
            l.append(" deleted.");
            l
        },
        None => "network failed; sync-collection skipped".to_owned(),
    };
    if flush.is_empty() {
        return line;
    }
    let mut s = "Flushed ".to_owned();
    s.append(decimal_of(flush.flushed as u64).as_str());
    s.append(" / ");
    s.append(decimal_of((flush.newly_errored + flush.cascade_errored) as u64).as_str());
    s.append(" errored (");
    s.append(decimal_of(flush.retried as u64).as_str());
    s.append(" retried).");
    s.append("\n");
    s.append(line.as_str());
    s
}

} // verus!
