//! The exchanges of a whole request: a sync from the search for the list to the
//! report, and the resolution of a conflict on the list in hand.
use vstd::prelude::*;
use crate::cache::{
    calendar_upserted, get_sync_token, is_local_list, token_of, upsert_calendar, with_local_list,
};
use crate::clock::{Moment, MomentV};
use crate::config::{account_set_up, has_remote, Config, ConfigV, LOCAL_LIST_ID};
use crate::conflict::{
    apply_decision_inner, decided, first_preview, format_no_conflict_preview,
    resolve_first_conflict_inner, text_step,
};
use crate::failure::{plain, Failure, FailureV};
use crate::handlers::{active_href, active_list_href};
use crate::http::{reply_views, Reply, ReplyV, Request, RequestV, Step, StepV};
use crate::multistatus::{calendar_list, CalendarV};
use crate::pending::drainable;
use crate::queue::{
    counters_fit, flush_start, hand_fits, hand_next, hand_step, next_hand, no_activity,
    still_waits, take_hand, FlushAction, FlushActionV, FlushSummary, FlushSummaryV, Hand, HandV,
};
use crate::reconcile::{
    apply_delta, compose_sync_response, delta_deletions, list_not_found, pick_calendar, picked,
    reconciled, sync_report,
};
use crate::seqs::{count, first, lemma_filter_step, lemma_find};
use crate::store::{Store, StoreV};
use crate::sync::{discover_calendars, discovery, pull, sync_collection_with_fallback};
use crate::weburl::{parsed_url, read_url};

verus! {

// --- A sync ---

/// How far a sync has come. A stage starts with no replies.
#[derive(Debug)]
pub enum SyncStage {
    /// The task lists of the account are being looked for.
    Finding,
    /// The queue is being drained. The operation in hand, if there is one, asks the same
    /// of the server and keeps the same text whatever happens to the tables meanwhile.
    Flushing { href: String, url: String, summary: FlushSummary, hand: Option<Hand> },
    /// The changes of the list are being pulled.
    Pulling { href: String, url: String, summary: FlushSummary },
}

pub enum SyncStageV {
    Finding,
    Flushing { href: Seq<char>, url: Seq<char>, summary: FlushSummaryV, hand: Option<HandV> },
    Pulling { href: Seq<char>, url: Seq<char>, summary: FlushSummaryV },
}

/// The view of an optional operation in hand.
pub open spec fn opt_hand(h: Option<Hand>) -> Option<HandV> {
    match h {
        Some(x) => Some(x@),
        None => None,
    }
}

impl View for SyncStage {
    type V = SyncStageV;

    open spec fn view(&self) -> SyncStageV {
        match self {
            SyncStage::Finding => SyncStageV::Finding,
            SyncStage::Flushing { href, url, summary, hand } => SyncStageV::Flushing {
                href: href@,
                url: url@,
                summary: summary@,
                hand: opt_hand(*hand),
            },
            SyncStage::Pulling { href, url, summary } => SyncStageV::Pulling {
                href: href@,
                url: url@,
                summary: summary@,
            },
        }
    }
}

/// The next thing to do in a sync.
#[derive(Debug)]
pub enum SyncAction {
    /// Send this request, and go on with its reply behind the others.
    Send(Request),
    /// Go on with this stage and no replies.
    Next(SyncStage),
    /// The sync is over.
    Done(Result<String, Failure>),
}

pub enum SyncActionV {
    Send(RequestV),
    Next(SyncStageV),
    Done(Result<Seq<char>, FailureV>),
}

impl View for SyncAction {
    type V = SyncActionV;

    open spec fn view(&self) -> SyncActionV {
        match self {
            SyncAction::Send(r) => SyncActionV::Send(r@),
            SyncAction::Next(g) => SyncActionV::Next(g@),
            SyncAction::Done(Ok(t)) => SyncActionV::Done(Ok(t@)),
            SyncAction::Done(Err(e)) => SyncActionV::Done(Err(e@)),
        }
    }
}

/// The counters of a stage can hold what may still be counted.
pub open spec fn stage_fits(g: SyncStageV, s: StoreV) -> bool {
    match g {
        SyncStageV::Finding => true,
        SyncStageV::Flushing { href, url, summary, hand } => match hand {
            None => counters_fit(summary, s.ops),
            Some(h) => hand_fits(s, h, summary),
        },
        SyncStageV::Pulling { href, url, summary } => summary.newly_errored
            + summary.cascade_errored <= usize::MAX,
    }
}

fn count_waiting(store: &Store) -> (n: usize)
    ensures
        n == count(store@.ops, drainable()),
{
    let mut n: usize = 0;
    let mut i: usize = 0;
    while i < store.ops.len()
        invariant
            i <= store.ops@.len(),
            n <= i,
            n == store@.ops.take(i as int).filter(drainable()).len(),
        decreases store.ops@.len() - i,
    {
        proof {
            assert(store@.ops[i as int] == store.ops@[i as int]@);
            lemma_filter_step(store@.ops, drainable(), i as int);
        }
        if store.ops[i].errored == 0 {
            n += 1;
        }
        i += 1;
    }
    assert(store@.ops.take(i as int) =~= store@.ops);
    n
}

/// Tests a stage against tables that something else may have changed since.
pub fn stage_is_sound(stage: &SyncStage, store: &Store) -> (r: bool)
    ensures
        r == stage_fits(stage@, store@),
{
    match stage {
        SyncStage::Finding => true,
        SyncStage::Flushing { href, url, summary, hand } => {
            let total: u128 = (summary.flushed as u128) + (summary.newly_errored as u128) + (
            summary.cascade_errored as u128) + (count_waiting(store) as u128);
            let spare = match hand {
                None => true,
                Some(h) => total < usize::MAX as u128 || still_waits(store, &h.op),
            };
            spare && total <= usize::MAX as u128 && summary.retried <= summary.flushed
                && summary.transient_failed == 0
        },
        SyncStage::Pulling { href, url, summary } => (summary.newly_errored as u128) + (
        summary.cascade_errored as u128) <= usize::MAX as u128,
    }
}

/// The list is known: it gets its row, and the queue is next.
pub open spec fn list_entered(s: StoreV, c: CalendarV) -> (StoreV, SyncActionV) {
    let t = StoreV { calendars: calendar_upserted(s.calendars, c.href, c.display_name), ..s };
    match parsed_url(c.href) {
        Err(e) => (t, SyncActionV::Done(Err(plain(e)))),
        Ok(u) => (
            t,
            SyncActionV::Next(
                SyncStageV::Flushing {
                    href: c.href,
                    url: u.text,
                    summary: no_activity(),
                    hand: None,
                },
            ),
        ),
    }
}

/// The search for the list that the settings name.
pub open spec fn finding(s: StoreV, cfg: ConfigV, replies: Seq<ReplyV>) -> (StoreV, SyncActionV) {
    if !account_set_up(cfg) {
        (s, SyncActionV::Done(Ok("Local tasks saved. No CalDAV account configured."@)))
    } else {
        match discovery(cfg.caldav, replies) {
            StepV::Send(r) => (s, SyncActionV::Send(r)),
            StepV::Done(Err(e)) => (s, SyncActionV::Done(Err(e))),
            StepV::Done(Ok(cals)) => {
                let k = picked(cfg.caldav, cals);
                if k < cals.len() {
                    list_entered(s, cals[k as int])
                } else {
                    (s, SyncActionV::Done(Err(list_not_found(cals))))
                }
            },
        }
    }
}

/// What follows a pass over the queue. A failure that may pass ends the sync; else the
/// pull is next.
pub open spec fn pass_over(href: Seq<char>, url: Seq<char>, sum: FlushSummaryV) -> SyncActionV {
    if sum.transient_failed > 0 {
        SyncActionV::Done(Ok(sync_report(sum, None, 0, 0)))
    } else {
        SyncActionV::Next(SyncStageV::Pulling { href, url, summary: sum })
    }
}

/// The queue's turn. With no operation in hand the next one is taken up, stamped with
/// `now`; the one in hand asks for its next request or is settled.
pub open spec fn flushing(
    s: StoreV,
    href: Seq<char>,
    url: Seq<char>,
    summary: FlushSummaryV,
    hand: Option<HandV>,
    replies: Seq<ReplyV>,
    now: Seq<char>,
) -> (StoreV, SyncActionV) {
    match hand {
        None => match next_hand(s, now) {
            None => (s, pass_over(href, url, summary)),
            Some(h) => (
                s,
                SyncActionV::Next(SyncStageV::Flushing { href, url, summary, hand: Some(h) }),
            ),
        },
        Some(h) => match hand_next(s, url, h, summary, replies) {
            Err(e) => (s, SyncActionV::Done(Err(e))),
            Ok((t, sum, FlushActionV::Send(r))) => (t, SyncActionV::Send(r)),
            Ok((t, sum, FlushActionV::Continue)) => (
                t,
                SyncActionV::Next(SyncStageV::Flushing { href, url, summary: sum, hand: None }),
            ),
            Ok((t, sum, FlushActionV::Finished)) => (t, pass_over(href, url, sum)),
        },
    }
}

/// The word for the extent of a pull.
pub open spec fn pull_kind(was_full: bool) -> Seq<char> {
    if was_full {
        "full"@
    } else {
        "incremental"@
    }
}

/// The pull, from the last token on, and the report.
pub open spec fn pulling(
    s: StoreV,
    href: Seq<char>,
    url: Seq<char>,
    summary: FlushSummaryV,
    replies: Seq<ReplyV>,
    at: i64,
) -> (StoreV, SyncActionV) {
    match pull(url, token_of(s, href), replies) {
        StepV::Send(r) => (s, SyncActionV::Send(r)),
        StepV::Done(Err(e)) => (s, SyncActionV::Done(Err(e))),
        StepV::Done(Ok((d, was_full))) => (
            reconciled(s, href, d, was_full, at),
            SyncActionV::Done(
                Ok(
                    sync_report(
                        summary,
                        Some(pull_kind(was_full)),
                        d.added_or_updated.len(),
                        delta_deletions(s, href, d, was_full),
                    ),
                ),
            ),
        ),
    }
}

/// The tables and the next action of a sync, given the replies that the stage has
/// had.
pub open spec fn sync_next(
    s: StoreV,
    cfg: ConfigV,
    g: SyncStageV,
    replies: Seq<ReplyV>,
    m: MomentV,
) -> (StoreV, SyncActionV) {
    match g {
        SyncStageV::Finding => finding(s, cfg, replies),
        SyncStageV::Flushing { href, url, summary, hand } => flushing(
            s,
            href,
            url,
            summary,
            hand,
            replies,
            m.stamp,
        ),
        SyncStageV::Pulling { href, url, summary } => pulling(
            s,
            href,
            url,
            summary,
            replies,
            m.secs as i64,
        ),
    }
}

fn find_list(store: &mut Store, cfg: &Config, replies: &Vec<Reply>) -> (a: SyncAction)
    requires
        old(store)@.wf(),
    ensures
        final(store)@.wf(),
        (final(store)@, a@) == finding(old(store)@, cfg@, reply_views(replies@)),
        a matches SyncAction::Next(g) ==> stage_fits(g@, final(store)@),
{
    if !has_remote(cfg) {
        return SyncAction::Done(
            Ok("Local tasks saved. No CalDAV account configured.".to_owned()),
        );
    }
    let cals = match discover_calendars(&cfg.caldav, replies) {
        Step::Send(r) => {
            return SyncAction::Send(r);
        },
        Step::Done(Err(e)) => {
            return SyncAction::Done(Err(e));
        },
        Step::Done(Ok(c)) => c,
    };
    let k = match pick_calendar(&cfg.caldav, &cals) {
        Err(e) => {
            return SyncAction::Done(Err(e));
        },
        Ok(k) => k,
    };
    assert(calendar_list(cals@)[k as int] == cals@[k as int]@);
    let href = cals[k].href.clone();
    upsert_calendar(store, href.as_str(), cals[k].display_name.as_str());
    match read_url(href.as_str()) {
        Err(e) => SyncAction::Done(Err(Failure::from_message(e))),
        Ok(u) => {
            let summary = flush_start(store);
            SyncAction::Next(SyncStage::Flushing { href, url: u.text, summary, hand: None })
        },
    }
}

fn after_pass(href: &str, url: &str, sum: FlushSummary) -> (a: SyncAction)
    requires
        sum.newly_errored + sum.cascade_errored <= usize::MAX,
    ensures
        a@ == pass_over(href@, url@, sum@),
        a matches SyncAction::Next(SyncStage::Pulling { href, url, summary }) ==> summary == sum,
        a matches SyncAction::Next(g) ==> g is Pulling,
{
    if sum.transient_failed > 0 {
        SyncAction::Done(Ok(compose_sync_response(&sum, None, 0, 0)))
    } else {
        SyncAction::Next(
            SyncStage::Pulling { href: href.to_owned(), url: url.to_owned(), summary: sum },
        )
    }
}

fn drain(
    store: &mut Store,
    href: &str,
    url: &str,
    summary: &FlushSummary,
    hand: &Option<Hand>,
    replies: &Vec<Reply>,
    now: &str,
) -> (a: SyncAction)
    requires
        old(store)@.wf(),
        match hand {
            None => counters_fit(summary@, old(store)@.ops),
            Some(h) => hand_fits(old(store)@, h@, summary@),
        },
    ensures
        final(store)@.wf(),
        (final(store)@, a@) == flushing(
            old(store)@,
            href@,
            url@,
            summary@,
            opt_hand(*hand),
            reply_views(replies@),
            now@,
        ),
        a matches SyncAction::Next(g) ==> stage_fits(g@, final(store)@),
{
    let mut sum = *summary;
    proof {
        lemma_find(store@.ops, drainable(), 0);
        assert(first(store@.ops, drainable()) matches Some(op) ==> store@.ops.contains(op));
    }
    match hand {
        None => match take_hand(store, now) {
            None => after_pass(href, url, sum),
            Some(h) => SyncAction::Next(
                SyncStage::Flushing {
                    href: href.to_owned(),
                    url: url.to_owned(),
                    summary: sum,
                    hand: Some(h),
                },
            ),
        },
        Some(h) => match hand_step(store, url, h, &mut sum, replies) {
            Err(e) => SyncAction::Done(Err(e)),
            Ok(FlushAction::Send(r)) => SyncAction::Send(r),
            Ok(FlushAction::Continue) => SyncAction::Next(
                SyncStage::Flushing {
                    href: href.to_owned(),
                    url: url.to_owned(),
                    summary: sum,
                    hand: None,
                },
            ),
            Ok(FlushAction::Finished) => after_pass(href, url, sum),
        },
    }
}

fn pull_changes(
    store: &mut Store,
    href: &str,
    url: &str,
    summary: &FlushSummary,
    replies: &Vec<Reply>,
    at: i64,
) -> (a: SyncAction)
    requires
        old(store)@.wf(),
        summary.newly_errored + summary.cascade_errored <= usize::MAX,
    ensures
        final(store)@.wf(),
        (final(store)@, a@) == pulling(
            old(store)@,
            href@,
            url@,
            summary@,
            reply_views(replies@),
            at,
        ),
        !(a is Next),
{
    let token = get_sync_token(store, href);
    let known = match &token {
        Some(t) => Some(t.as_str()),
        None => None,
    };
    match sync_collection_with_fallback(url, known, replies) {
        Step::Send(r) => SyncAction::Send(r),
        Step::Done(Err(e)) => SyncAction::Done(Err(e)),
        Step::Done(Ok((delta, was_full))) => {
            let (updated, deleted) = apply_delta(store, href, &delta, was_full, at);
            let kind = if was_full {
                "full"
            } else {
                "incremental"
            };
            SyncAction::Done(
                Ok(compose_sync_response(summary, Some(kind), updated, deleted)),
            )
        },
    }
}

/// One step of a sync. It starts with `SyncStage::Finding`; the tables are to be
/// kept after each step.
pub fn sync_step(
    store: &mut Store,
    cfg: &Config,
    stage: &SyncStage,
    replies: &Vec<Reply>,
    m: &Moment,
) -> (a: SyncAction)
    requires
        old(store)@.wf(),
        stage_fits(stage@, old(store)@),
    ensures
        final(store)@.wf(),
        (final(store)@, a@) == sync_next(
            old(store)@,
            cfg@,
            stage@,
            reply_views(replies@),
            m@,
        ),
        a matches SyncAction::Next(g) ==> stage_fits(g@, final(store)@),
{
    match stage {
        SyncStage::Finding => find_list(store, cfg, replies),
        SyncStage::Flushing { href, url, summary, hand } => drain(
            store,
            href.as_str(),
            url.as_str(),
            summary,
            hand,
            replies,
            m.stamp.as_str(),
        ),
        SyncStage::Pulling { href, url, summary } => pull_changes(
            store,
            href.as_str(),
            url.as_str(),
            summary,
            replies,
            m.secs,
        ),
    }
}

// --- Conflicts on the list in hand ---

/// The preview of the first conflict. The device's own list has none.
pub open spec fn preview_in_hand(s: StoreV, cfg: ConfigV, replies: Seq<ReplyV>) -> StepV<
    Result<Seq<char>, FailureV>,
> {
    let cal = active_href(s, cfg);
    if cal == LOCAL_LIST_ID@ {
        StepV::Done(Ok("OPID:0\nNo conflicts to resolve."@))
    } else {
        match parsed_url(cal) {
            Err(e) => StepV::Done(Err(plain(e))),
            Ok(u) => first_preview(s, u.text, replies),
        }
    }
}

/// Shows the first conflict of the list in hand, given the replies so far.
pub fn resolve_first_conflict(store: &mut Store, cfg: &Config, replies: &Vec<Reply>) -> (s: Step<
    Result<String, Failure>,
>)
    requires
        old(store)@.wf(),
    ensures
        final(store)@.wf(),
        final(store)@ == with_local_list(old(store)@),
        text_step(s) == preview_in_hand(final(store)@, cfg@, reply_views(replies@)),
{
    let cal = active_list_href(store, cfg);
    if is_local_list(cal.as_str()) {
        return Step::Done(Ok(format_no_conflict_preview()));
    }
    match read_url(cal.as_str()) {
        Err(e) => Step::Done(Err(Failure::from_message(e))),
        Ok(u) => resolve_first_conflict_inner(store, u.text.as_str(), replies),
    }
}

/// Carrying out a decision. The device's own list has no conflicts.
pub open spec fn decision_in_hand(
    s: StoreV,
    cfg: ConfigV,
    payload: Seq<char>,
    replies: Seq<ReplyV>,
) -> (StoreV, StepV<Result<Seq<char>, FailureV>>) {
    let cal = active_href(s, cfg);
    if cal == LOCAL_LIST_ID@ {
        (s, StepV::Done(Err(plain("local tasks do not have sync conflicts"@))))
    } else {
        match parsed_url(cal) {
            Err(e) => (s, StepV::Done(Err(plain(e)))),
            Ok(u) => decided(s, u.text, payload, replies),
        }
    }
}

/// Carries out a decision on a conflict of the list in hand, given the replies so
/// far.
pub fn apply_decision(store: &mut Store, cfg: &Config, payload: &str, replies: &Vec<Reply>) -> (s: Step<
    Result<String, Failure>,
>)
    requires
        old(store)@.wf(),
    ensures
        final(store)@.wf(),
        (final(store)@, text_step(s)) == decision_in_hand(
            with_local_list(old(store)@),
            cfg@,
            payload@,
            reply_views(replies@),
        ),
{
    let cal = active_list_href(store, cfg);
    if is_local_list(cal.as_str()) {
        return Step::Done(Err(Failure::new("local tasks do not have sync conflicts")));
    }
    match read_url(cal.as_str()) {
        Err(e) => Step::Done(Err(Failure::from_message(e))),
        Ok(u) => apply_decision_inner(store, u.text.as_str(), payload, replies),
    }
}

} // verus!
