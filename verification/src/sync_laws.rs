//! What a sync asks of the server, and what it makes of the answers, step by step.
use vstd::prelude::*;
use crate::cache::{calendar_upserted, stale, token_of};
use crate::clock::MomentV;
use crate::config::{account_set_up, CaldavConfigV, ConfigV};
use crate::conflict::{decided, first_preview};
use crate::failure::FailureV;
use crate::handlers::active_href;
use crate::http::{ReplyV, RequestV, StepV};
use crate::multistatus::{
    calendars_among, delta_of, first_property, CalendarV, SyncDeltaV, TaskRecordV,
};
use crate::pending::drainable;
use crate::queue::{hand_next, row_of, FlushActionV, FlushSummaryV, HandV};
use crate::reconcile::{
    delta_deletions, picked, reconciled, record_hrefs, records_put, sync_line, sync_report,
};
use crate::seqs::{count, find, lemma_find};
use crate::session::{decision_in_hand, preview_in_hand, sync_next, SyncActionV, SyncStageV};
use crate::store::{keyed, StoreV, TaskRowV};
use crate::sync::{
    before_token, behind_token, discovery, fitting, probing, pull, report_meaning, says_unsupported,
    snippet, sync_body, utf8_width, xml_escaped, CALENDAR_LIST_BODY, CALENDAR_QUERY_BODY,
    HOME_SET_BODY, PRINCIPAL_BODY, PROBE_BODY,
};
use crate::text::{ascii_lower, decimal, trim_end_char};
use crate::weburl::{joined_url, parsed_url};
use crate::wire_laws::{carries, holds, is_fine, law_dav_request, lemma_holds};
use crate::xml::{parsed_xml, XmlNodeV};

verus! {

// --- Pulling ---

/// A WebDAV request with this method, depth and body.
pub open spec fn asks_dav(
    r: RequestV,
    method: Seq<char>,
    url: Seq<char>,
    depth: Seq<char>,
    body: Seq<char>,
) -> bool {
    &&& r.method == method && r.url == url && r.body == Some(body)
    &&& carries(r, "Depth"@, depth)
    &&& carries(r, "Content-Type"@, "application/xml; charset=utf-8"@)
}

/// The answer is a success, from the address `from`, whose body is the document `nodes`.
pub open spec fn brings(reply: ReplyV, from: Seq<char>, nodes: Seq<XmlNodeV>) -> bool {
    reply matches ReplyV::Answered(a) && is_fine(a) && a.final_url == from && a.body is Ok
        && parsed_xml(a.body->Ok_0) == Ok::<Seq<XmlNodeV>, Seq<char>>(nodes)
}

/// The server turned the request down, with these words in its status.
pub open spec fn turns_down(reply: ReplyV, words: Seq<char>) -> bool {
    reply matches ReplyV::Answered(a) && !is_fine(a) && a.body is Ok && holds(a.status_text, words)
}

/// A pull starts with one REPORT: from the token on where there is one, from the start where
/// there is none. The answer to it is what changed, read from the address that answered; it
/// is everything just where there was no token.
pub proof fn law_pull_starts(url: Seq<char>, token: Option<Seq<char>>, replies: Seq<ReplyV>)
    ensures
        replies.len() == 0 ==> (pull(url, token, replies) matches StepV::Send(r) && asks_dav(
            r,
            "REPORT"@,
            url,
            "1"@,
            sync_body(token),
        )),
        forall|from: Seq<char>, nodes: Seq<XmlNodeV>|
            replies.len() > 0 && #[trigger] brings(replies[0], from, nodes) ==> pull(
                url,
                token,
                replies,
            ) == StepV::<Result<(SyncDeltaV, bool), FailureV>>::Done(
                Ok((delta_of(nodes, from), token is None)),
            ),
{
    law_dav_request("REPORT"@, url, "1"@, sync_body(token));
}

/// What a text holds, it holds with more around it.
proof fn lemma_holds_within(a: Seq<char>, b: Seq<char>, c: Seq<char>, words: Seq<char>)
    requires
        holds(b, words),
    ensures
        holds(a + b + c, words),
{
    let i = choose|i: int|
        0 <= i && i + words.len() <= b.len() && #[trigger] b.subrange(i, i + words.len()) == words;
    let all = a + b + c;
    let j = a.len() + i;
    assert(all.subrange(j, j + words.len()) =~= b.subrange(i, i + words.len()));
}

/// Words without capitals stand in a text in lower case where they stand in the text.
proof fn lemma_lower_holds(text: Seq<char>, words: Seq<char>)
    requires
        holds(text, words),
        forall|i: int| 0 <= i < words.len() ==> !('A' <= #[trigger] words[i] && words[i] <= 'Z'),
    ensures
        holds(ascii_lower(text), words),
{
    let i = choose|i: int|
        0 <= i && i + words.len() <= text.len() && #[trigger] text.subrange(i, i + words.len())
            == words;
    let low = ascii_lower(text);
    assert forall|j: int| 0 <= j < words.len() implies low[i + j] == #[trigger] words[j] by {
        assert(text.subrange(i, i + words.len())[j] == text[i + j]);
    }
    assert(low.subrange(i, i + words.len()) =~= words);
}

/// The words of a REPORT that was turned down.
proof fn lemma_turned_down(url: Seq<char>, reply: ReplyV, words: Seq<char>)
    requires
        turns_down(reply, words),
    ensures
        report_meaning(url, reply, "REPORT sync-collection"@) matches Err(e) && holds(
            e.message,
            words,
        ) && holds(e.message, "sync-collection"@),
{
    let a = reply->Answered_0;
    let body = a.body->Ok_0;
    let e = report_meaning(url, reply, "REPORT sync-collection"@)->Err_0;
    let front = "REPORT sync-collection"@ + ": "@ + (url + " -> "@);
    assert(e.message =~= front + a.status_text + (": "@ + body));
    lemma_holds_within(front, a.status_text, ": "@ + body, words);
    reveal_strlit("REPORT sync-collection");
    reveal_strlit("sync-collection");
    let what = "REPORT sync-collection"@;
    let word = "sync-collection"@;
    let at: int = 7;
    assert(what.subrange(at, at + word.len()) =~= word);
    assert(holds(what, "sync-collection"@));
    let rest = ": "@ + (url + " -> "@ + a.status_text + ": "@ + body);
    assert(e.message =~= Seq::<char>::empty() + what + rest);
    lemma_holds_within(Seq::<char>::empty(), what, rest, "sync-collection"@);
}

/// Where the server rejects the token, the pull starts over without one; what it brings is
/// then everything.
pub proof fn law_rejected_token_starts_over(url: Seq<char>, token: Seq<char>, replies: Seq<ReplyV>)
    requires
        replies.len() > 0,
        turns_down(replies[0], "412"@) || turns_down(replies[0], "403"@),
    ensures
        replies.len() == 1 ==> (pull(url, Some(token), replies) matches StepV::Send(r) && asks_dav(
            r,
            "REPORT"@,
            url,
            "1"@,
            sync_body(None),
        )),
        forall|from: Seq<char>, nodes: Seq<XmlNodeV>|
            replies.len() > 1 && #[trigger] brings(replies[1], from, nodes) ==> pull(
                url,
                Some(token),
                replies,
            ) == StepV::<Result<(SyncDeltaV, bool), FailureV>>::Done(
                Ok((delta_of(nodes, from), true)),
            ),
{
    let words = if turns_down(replies[0], "412"@) {
        "412"@
    } else {
        "403"@
    };
    lemma_turned_down(url, replies[0], words);
    let e = report_meaning(url, replies[0], "REPORT sync-collection"@)->Err_0;
    lemma_holds(e.message, words);
    law_dav_request("REPORT"@, url, "1"@, sync_body(None));
}

/// Where the server does not know the REPORT for a sync, the to-dos are asked for by a
/// query; what it brings is everything.
pub proof fn law_unknown_report_queries(url: Seq<char>, replies: Seq<ReplyV>)
    requires
        replies.len() > 0,
        turns_down(replies[0], "501"@) || turns_down(replies[0], "400"@),
    ensures
        replies.len() == 1 ==> (pull(url, None, replies) matches StepV::Send(r) && asks_dav(
            r,
            "REPORT"@,
            url,
            "1"@,
            CALENDAR_QUERY_BODY@,
        )),
        forall|from: Seq<char>, nodes: Seq<XmlNodeV>|
            replies.len() > 1 && #[trigger] brings(replies[1], from, nodes) ==> pull(
                url,
                None,
                replies,
            ) == StepV::<Result<(SyncDeltaV, bool), FailureV>>::Done(
                Ok((delta_of(nodes, from), true)),
            ),
{
    let words = if turns_down(replies[0], "501"@) {
        "501"@
    } else {
        "400"@
    };
    lemma_turned_down(url, replies[0], words);
    let e = report_meaning(url, replies[0], "REPORT sync-collection"@)->Err_0;
    reveal_strlit("501");
    reveal_strlit("400");
    reveal_strlit("sync-collection");
    lemma_lower_holds(e.message, words);
    lemma_lower_holds(e.message, "sync-collection"@);
    lemma_holds(ascii_lower(e.message), words);
    lemma_holds(ascii_lower(e.message), "sync-collection"@);
    assert(says_unsupported(e.message));
    law_dav_request("REPORT"@, url, "1"@, CALENDAR_QUERY_BODY@);
}

/// A pull that cannot reach the server brings nothing.
pub proof fn law_pull_unanswered(
    url: Seq<char>,
    token: Option<Seq<char>>,
    f: FailureV,
    replies: Seq<ReplyV>,
)
    requires
        replies.len() == 1,
        replies[0] == ReplyV::Failed(f),
    ensures
        !(pull(url, token, replies) matches StepV::Done(Ok(_))),
{
}

// --- Finding the lists ---

/// The address that the answer gives for a property, resolved against the address that
/// answered.
pub open spec fn leads_on(reply: ReplyV, property: Seq<char>, url: Seq<char>) -> bool {
    exists|from: Seq<char>, nodes: Seq<XmlNodeV>| #[trigger]
        brings(reply, from, nodes) && (first_property(nodes, property, 0) matches Some(h)
            && joined_url(from, h) == Ok::<Seq<char>, Seq<char>>(url))
}

/// The search for the lists of an account asks three times: the well-known address for the
/// account's principal, the principal for the home of its calendars, and that for its
/// collections. Each address is resolved against the one that answered, and the lists are
/// those of the last answer.
pub proof fn law_search_for_lists(
    cfg: CaldavConfigV,
    start: Seq<char>,
    principal: Seq<char>,
    home: Seq<char>,
    replies: Seq<ReplyV>,
)
    requires
        parsed_url(trim_end_char(cfg.base_url, '/')) matches Ok(b) && joined_url(
            b.text,
            "/.well-known/caldav"@,
        ) == Ok::<Seq<char>, Seq<char>>(start),
    ensures
        replies.len() == 0 ==> (discovery(cfg, replies) matches StepV::Send(r) && asks_dav(
            r,
            "PROPFIND"@,
            start,
            "0"@,
            PRINCIPAL_BODY@,
        )),
        replies.len() >= 1 && leads_on(replies[0], "current-user-principal"@, principal) ==> {
            &&& replies.len() == 1 ==> (discovery(cfg, replies) matches StepV::Send(r) && asks_dav(
                r,
                "PROPFIND"@,
                principal,
                "0"@,
                HOME_SET_BODY@,
            ))
            &&& replies.len() >= 2 && leads_on(replies[1], "calendar-home-set"@, home) ==> {
                &&& replies.len() == 2 ==> (discovery(cfg, replies) matches StepV::Send(r)
                    && asks_dav(r, "PROPFIND"@, home, "1"@, CALENDAR_LIST_BODY@))
                &&& forall|from: Seq<char>, nodes: Seq<XmlNodeV>|
                    replies.len() >= 3 && #[trigger] brings(replies[2], from, nodes) ==> discovery(
                        cfg,
                        replies,
                    ) == StepV::<Result<Seq<CalendarV>, FailureV>>::Done(
                        Ok(calendars_among(nodes, from, nodes.len())),
                    )
            }
        },
{
    law_dav_request("PROPFIND"@, start, "0"@, PRINCIPAL_BODY@);
    law_dav_request("PROPFIND"@, principal, "0"@, HOME_SET_BODY@);
    law_dav_request("PROPFIND"@, home, "1"@, CALENDAR_LIST_BODY@);
}

/// A probe asks for the calendars of the user, and tells the status of the answer and the
/// start of its body.
pub proof fn law_probe(cfg: CaldavConfigV, url: Seq<char>, replies: Seq<ReplyV>)
    requires
        parsed_url(
            trim_end_char(cfg.base_url, '/') + "/remote.php/dav/calendars/"@ + cfg.username + "/"@,
        ) matches Ok(u) && u.text == url,
    ensures
        replies.len() == 0 ==> (probing(cfg, replies) matches StepV::Send(r) && asks_dav(
            r,
            "PROPFIND"@,
            url,
            "0"@,
            PROBE_BODY@,
        )),
        replies.len() > 0 && (replies[0] matches ReplyV::Answered(a) && is_fine(a) && a.body is Ok)
            ==> (probing(cfg, replies) matches StepV::Done(Ok(text)) && exists|n: int|
            0 <= n <= replies[0]->Answered_0.body->Ok_0.len() && text == "status="@ + decimal(
                replies[0]->Answered_0.status as nat,
            ) + "\n\n"@ + #[trigger] replies[0]->Answered_0.body->Ok_0.take(n)),
        replies.len() > 0 && (replies[0] matches ReplyV::Answered(a) && !is_fine(a))
            ==> (probing(cfg, replies) matches StepV::Done(Err(_))),
{
    law_dav_request("PROPFIND"@, url, "0"@, PROBE_BODY@);
    if replies.len() > 0 && (replies[0] matches ReplyV::Answered(a) && is_fine(a) && a.body is Ok) {
        let body = replies[0]->Answered_0.body->Ok_0;
        let n = crate::sync::fitting(body, 500) as int;
        lemma_fitting(body, 500);
        assert(probing(cfg, replies)->Done_0->Ok_0 == "status="@ + decimal(
            replies[0]->Answered_0.status as nat,
        ) + "\n\n"@ + body.take(n));
    }
}

proof fn lemma_fitting(s: Seq<char>, room: nat)
    ensures
        crate::sync::fitting(s, room) <= s.len(),
    decreases s.len(),
{
    if s.len() > 0 && crate::sync::utf8_width(s[0]) <= room {
        lemma_fitting(s.skip(1), (room - crate::sync::utf8_width(s[0])) as nat);
    }
}

// --- The stages of a sync ---

/// Once the list is found, it is made known under its name, and the queue is next, with
/// nothing counted yet. Where none of the lists fits the settings, nothing changes.
pub proof fn law_found_list_is_entered(
    s: StoreV,
    cfg: ConfigV,
    lists: Seq<CalendarV>,
    replies: Seq<ReplyV>,
    m: MomentV,
)
    requires
        account_set_up(cfg),
        discovery(cfg.caldav, replies) == StepV::<Result<Seq<CalendarV>, FailureV>>::Done(
            Ok(lists),
        ),
    ensures
        ({
            let next = sync_next(s, cfg, SyncStageV::Finding, replies, m);
            let k = picked(cfg.caldav, lists) as int;
            &&& k >= lists.len() ==> next.0 == s && (next.1 matches SyncActionV::Done(Err(_)))
            &&& k < lists.len() ==> {
                &&& next.0 == (StoreV {
                    calendars: calendar_upserted(
                        s.calendars,
                        lists[k].href,
                        lists[k].display_name,
                    ),
                    ..s
                })
                &&& parsed_url(lists[k].href) matches Ok(u) ==> (next.1 matches SyncActionV::Next(
                    SyncStageV::Flushing { href, url, summary, hand },
                ) && href == lists[k].href && url == u.text && hand is None && summary.flushed == 0
                    && summary.retried == 0 && summary.transient_failed == 0
                    && summary.newly_errored == 0 && summary.cascade_errored == 0)
            }
        }),
{
}

/// The queue's turn takes up the operation that waits with the lowest number, with the first
/// row of its task as it stands, and nothing is changed by that; where none waits, the pull
/// is next.
pub proof fn law_queue_takes_up_the_first(
    s: StoreV,
    cfg: ConfigV,
    href: Seq<char>,
    url: Seq<char>,
    summary: FlushSummaryV,
    replies: Seq<ReplyV>,
    m: MomentV,
)
    requires
        summary.transient_failed == 0,
    ensures
        ({
            let g = SyncStageV::Flushing { href, url, summary, hand: None };
            let next = sync_next(s, cfg, g, replies, m);
            &&& next.0 == s
            &&& (forall|i: int| 0 <= i < s.ops.len() ==> (#[trigger] s.ops[i]).errored != 0)
                ==> next.1 == SyncActionV::Next(SyncStageV::Pulling { href, url, summary })
            &&& forall|i: int|
                {
                    &&& 0 <= i < s.ops.len()
                    &&& (#[trigger] s.ops[i]).errored == 0
                    &&& forall|j: int| 0 <= j < i ==> (#[trigger] s.ops[j]).errored != 0
                } ==> next.1 == SyncActionV::Next(
                    SyncStageV::Flushing {
                        href,
                        url,
                        summary,
                        hand: Some(
                            HandV { op: s.ops[i], row: row_of(s, s.ops[i]), stamp: m.stamp },
                        ),
                    },
                )
        }),
{
    let p = drainable();
    lemma_find(s.ops, p, 0);
    let k = find(s.ops, p, 0) as int;
    if k < s.ops.len() {
        assert(p(s.ops[k]));
        assert(s.ops[k].errored == 0);
    }
    assert forall|i: int|
        {
            &&& 0 <= i < s.ops.len()
            &&& (#[trigger] s.ops[i]).errored == 0
            &&& forall|j: int| 0 <= j < i ==> (#[trigger] s.ops[j]).errored != 0
        } implies i == k by {
        assert(p(s.ops[i]));
        if k < i {
            assert(s.ops[k].errored != 0);
        }
    }
}

/// The pull goes on from the token that is remembered of its list. What it brings is put in
/// place with the time, and the report tells how many tasks came and went.
pub proof fn law_pull_is_reconciled(
    s: StoreV,
    cfg: ConfigV,
    href: Seq<char>,
    url: Seq<char>,
    summary: FlushSummaryV,
    replies: Seq<ReplyV>,
    m: MomentV,
)
    ensures
        ({
            let g = SyncStageV::Pulling { href, url, summary };
            let next = sync_next(s, cfg, g, replies, m);
            match pull(url, token_of(s, href), replies) {
                StepV::Send(r) => next.0 == s && next.1 == SyncActionV::Send(r),
                StepV::Done(Err(e)) => next.0 == s && next.1 == SyncActionV::Done(Err(e)),
                StepV::Done(Ok((d, full))) => {
                    &&& next.0 == reconciled(s, href, d, full, m.secs as i64)
                    &&& next.1 matches SyncActionV::Done(Ok(text)) && {
                        let line = "Sync complete: "@ + (if full {
                            "full"@
                        } else {
                            "incremental"@
                        }) + ", +"@ + decimal(d.added_or_updated.len()) + " updated, -"@ + decimal(
                            delta_deletions(s, href, d, full),
                        ) + " deleted."@;
                        ||| text == line
                        ||| holds(text, line) && (summary.flushed != 0 || summary.retried != 0
                            || summary.transient_failed != 0 || summary.newly_errored != 0
                            || summary.cascade_errored != 0)
                    }
                },
            }
        }),
{
    match pull(url, token_of(s, href), replies) {
        StepV::Done(Ok((d, full))) => {
            let line = sync_line(
                Some(crate::session::pull_kind(full)),
                d.added_or_updated.len(),
                delta_deletions(s, href, d, full),
            );
            let front = crate::reconcile::flush_line(summary) + "\n"@;
            let all = front + line;
            assert(all.subrange(front.len() as int, (front.len() + line.len()) as int) =~= line);
            assert(holds(all, line));
        },
        _ => {},
    }
}

/// The report tells of the queue where it had something to do: how many operations were
/// flushed, how many given up, with all that waited for them, and how many took a retry.
pub proof fn law_queue_is_reported(
    f: FlushSummaryV,
    kind: Option<Seq<char>>,
    updated: nat,
    deleted: nat,
)
    requires
        f.flushed != 0 || f.retried != 0 || f.transient_failed != 0 || f.newly_errored != 0
            || f.cascade_errored != 0,
    ensures
        sync_report(f, kind, updated, deleted) == "Flushed "@ + decimal(f.flushed as nat) + " / "@
            + decimal((f.newly_errored + f.cascade_errored) as nat) + " errored ("@ + decimal(
            f.retried as nat,
        ) + " retried)."@ + "\n"@ + sync_line(kind, updated, deleted),
        kind is None ==> sync_line(kind, updated, deleted)
            == "network failed; sync-collection skipped"@,
{
}

// --- How many tasks a pull takes out ---

proof fn lemma_count_update<T>(s: Seq<T>, p: spec_fn(T) -> bool, k: int, x: T)
    requires
        0 <= k < s.len(),
        p(s[k]) == p(x),
    ensures
        count(s.update(k, x), p) == count(s, p),
    decreases s.len(),
{
    reveal(Seq::filter);
    let t = s.update(k, x);
    if k == s.len() - 1 {
        assert(t.drop_last() =~= s.drop_last());
    } else {
        assert(t.drop_last() =~= s.drop_last().update(k, x));
        lemma_count_update(s.drop_last(), p, k, x);
    }
}

proof fn lemma_count_push<T>(s: Seq<T>, p: spec_fn(T) -> bool, x: T)
    requires
        !p(x),
    ensures
        count(s.push(x), p) == count(s, p),
{
    reveal(Seq::filter);
    assert(s.push(x).drop_last() =~= s);
}

proof fn lemma_put_stale(
    s: StoreV,
    cal: Seq<char>,
    recs: Seq<TaskRecordV>,
    n: nat,
)
    requires
        n <= recs.len(),
    ensures
        count(records_put(s.tasks, s.ops, cal, recs, n), stale(cal, record_hrefs(recs))) == count(
            s.tasks,
            stale(cal, record_hrefs(recs)),
        ),
    decreases n,
{
    if n > 0 {
        let m = (n - 1) as nat;
        lemma_put_stale(s, cal, recs, m);
        let before = records_put(s.tasks, s.ops, cal, recs, m);
        let after = records_put(s.tasks, s.ops, cal, recs, n);
        let p = stale(cal, record_hrefs(recs));
        let r = recs[m as int];
        let q = keyed(cal, r.href);
        lemma_find(before, q, 0);
        let k = find(before, q, 0) as int;
        assert(record_hrefs(recs)[m as int] == r.href);
        if k < before.len() {
            assert(q(before[k]));
            if after != before {
                assert(after == before.update(k, after[k]));
                lemma_count_update(before, p, k, after[k]);
            }
        } else {
            assert(after == before.push(after.last()));
            lemma_count_push(before, p, after.last());
        }
    }
}

/// What a full pull takes out, as it is reported, is the rows of the list that the server
/// did not list; an incremental one takes out what the server reported as gone.
pub proof fn law_deletions_are_counted(s: StoreV, cal: Seq<char>, d: SyncDeltaV, full: bool)
    ensures
        full ==> delta_deletions(s, cal, d, full) == s.tasks.filter(
            |r: TaskRowV|
                r.calendar_href == cal && !(exists|i: int|
                    0 <= i < d.added_or_updated.len() && (
                    #[trigger] d.added_or_updated[i]).href == r.href),
        ).len(),
        !full ==> delta_deletions(s, cal, d, full) == d.deleted_hrefs.len(),
{
    let recs = d.added_or_updated;
    lemma_put_stale(s, cal, recs, recs.len());
    let p = stale(cal, record_hrefs(recs));
    let q = |r: TaskRowV|
        r.calendar_href == cal && !(exists|i: int|
            0 <= i < d.added_or_updated.len() && (#[trigger] d.added_or_updated[i]).href == r.href);
    assert forall|r: TaskRowV| #[trigger] p(r) == q(r) by {
        let hrefs = record_hrefs(recs);
        if hrefs.contains(r.href) {
            let i = choose|i: int| 0 <= i < hrefs.len() && hrefs[i] == r.href;
            assert(recs[i].href == r.href);
        }
        if exists|i: int| 0 <= i < recs.len() && (#[trigger] recs[i]).href == r.href {
            let i = choose|i: int| 0 <= i < recs.len() && (#[trigger] recs[i]).href == r.href;
            assert(hrefs[i] == r.href);
        }
    }
    assert(p =~= q);
}

// --- Conflicts of the list in hand ---

/// Conflicts are shown and decided on the list to work on, at its address; the device's own
/// list has none, and a decision on it changes nothing.
pub proof fn law_conflicts_in_hand(
    s: StoreV,
    cfg: ConfigV,
    payload: Seq<char>,
    replies: Seq<ReplyV>,
)
    ensures
        active_href(s, cfg) == "local://default"@ ==> {
            &&& preview_in_hand(s, cfg, replies) == StepV::<Result<Seq<char>, FailureV>>::Done(
                Ok("OPID:0\nNo conflicts to resolve."@),
            )
            &&& decision_in_hand(s, cfg, payload, replies).0 == s
            &&& decision_in_hand(s, cfg, payload, replies).1 matches StepV::Done(Err(_))
        },
        active_href(s, cfg) != "local://default"@ ==> (parsed_url(active_href(s, cfg)) matches Ok(u)
            ==> {
            &&& preview_in_hand(s, cfg, replies) == first_preview(s, u.text, replies)
            &&& decision_in_hand(s, cfg, payload, replies) == decided(s, u.text, payload, replies)
        }),
{
}

/// The bytes that a text takes.
pub open spec fn bytes_of(s: Seq<char>) -> nat
    decreases s.len(),
{
    if s.len() == 0 {
        0
    } else {
        let n = s.last() as int;
        bytes_of(s.drop_last()) + if n < 128 {
            1nat
        } else if n < 2048 {
            2nat
        } else if n < 65536 {
            3nat
        } else {
            4nat
        }
    }
}

proof fn lemma_bytes_front(c: char, s: Seq<char>)
    ensures
        bytes_of(seq![c] + s) == utf8_width(c) + bytes_of(s),
    decreases s.len(),
{
    let all = seq![c] + s;
    if s.len() == 0 {
        assert(all.drop_last() =~= Seq::<char>::empty());
        assert(all.last() == c);
        assert(bytes_of(all.drop_last()) == 0);
    } else {
        lemma_bytes_front(c, s.drop_last());
        assert(all.drop_last() =~= seq![c] + s.drop_last());
        assert(all.last() == s.last());
    }
}

proof fn lemma_fitting_bytes(s: Seq<char>, room: nat)
    ensures
        ({
            let n = fitting(s, room) as int;
            &&& n <= s.len()
            &&& bytes_of(s.take(n)) <= room
            &&& n < s.len() ==> bytes_of(s.take(n + 1)) > room
        }),
    decreases s.len(),
{
    let n = fitting(s, room) as int;
    if s.len() == 0 {
        assert(s.take(0) =~= Seq::<char>::empty());
    } else if utf8_width(s[0]) > room {
        assert(s.take(0) =~= Seq::<char>::empty());
        assert(s.take(1) =~= seq![s[0]] + Seq::<char>::empty());
        lemma_bytes_front(s[0], Seq::empty());
    } else {
        let rest = s.skip(1);
        let left = (room - utf8_width(s[0])) as nat;
        lemma_fitting_bytes(rest, left);
        let m = fitting(rest, left) as int;
        assert(n == m + 1);
        assert(s.take(n) =~= seq![s[0]] + rest.take(m));
        lemma_bytes_front(s[0], rest.take(m));
        if n < s.len() {
            assert(s.take(n + 1) =~= seq![s[0]] + rest.take(m + 1));
            lemma_bytes_front(s[0], rest.take(m + 1));
        }
    }
}

/// A probe shows as much of the start of the body as fits into 500 bytes, and never a part of
/// a character.
pub proof fn law_probe_shows_the_start(body: Seq<char>)
    ensures
        ({
            let start = snippet(body);
            &&& start.len() <= body.len()
            &&& start == body.take(start.len() as int)
            &&& bytes_of(start) <= 500
            &&& start.len() < body.len() ==> bytes_of(body.take((start.len() + 1) as int)) > 500
        }),
{
    lemma_fitting_bytes(body, 500);
}

/// With an operation in hand, the queue's turn sends what the operation asks for, goes on
/// with the next one once it is settled, and ends where a failure may pass; the tables and
/// the counters are those after it. Where the pass has ended well, the pull is next.
pub proof fn law_queue_goes_on(
    s: StoreV,
    cfg: ConfigV,
    href: Seq<char>,
    url: Seq<char>,
    summary: FlushSummaryV,
    h: HandV,
    replies: Seq<ReplyV>,
    m: MomentV,
)
    ensures
        ({
            let g = SyncStageV::Flushing { href, url, summary, hand: Some(h) };
            let next = sync_next(s, cfg, g, replies, m);
            match hand_next(s, url, h, summary, replies) {
                Err(e) => next.0 == s && next.1 == SyncActionV::Done(Err(e)),
                Ok((t, sum, FlushActionV::Send(r))) => next.0 == t && next.1 == SyncActionV::Send(
                    r,
                ),
                Ok((t, sum, FlushActionV::Continue)) => next.0 == t && next.1 == SyncActionV::Next(
                    SyncStageV::Flushing { href, url, summary: sum, hand: None },
                ),
                Ok((t, sum, FlushActionV::Finished)) => {
                    &&& next.0 == t
                    &&& sum.transient_failed > 0 ==> (next.1 matches SyncActionV::Done(Ok(_)))
                    &&& sum.transient_failed <= 0 ==> next.1 == SyncActionV::Next(
                        SyncStageV::Pulling { href, url, summary: sum },
                    )
                },
            }
        }),
{
}

// --- What is asked for ---

proof fn lemma_probe_body()
    ensures
        holds(PROBE_BODY@, "<d:displayname/>"@),
        holds(PROBE_BODY@, "<d:resourcetype/>"@),
{
    reveal_strlit(
        "<?xml version=\"1.0\" encoding=\"utf-8\"?>\n<d:propfind xmlns:d=\"DAV:\">\n  <d:prop>\n    <d:displayname/>\n    <d:resourcetype/>\n  </d:prop>\n</d:propfind>\n",
    );
    reveal_strlit("<d:displayname/>");
    let i0: int = 82;
    assert(PROBE_BODY@.subrange(i0, i0 + "<d:displayname/>"@.len()) =~= "<d:displayname/>"@);
    reveal_strlit("<d:resourcetype/>");
    let i1: int = 103;
    assert(PROBE_BODY@.subrange(i1, i1 + "<d:resourcetype/>"@.len()) =~= "<d:resourcetype/>"@);
}

proof fn lemma_principal_body()
    ensures
        holds(PRINCIPAL_BODY@, "<d:current-user-principal/>"@),
{
    reveal_strlit(
        "<?xml version=\"1.0\" encoding=\"utf-8\"?>\n<d:propfind xmlns:d=\"DAV:\">\n  <d:prop>\n    <d:current-user-principal/>\n  </d:prop>\n</d:propfind>\n",
    );
    reveal_strlit("<d:current-user-principal/>");
    let i0: int = 82;
    assert(PRINCIPAL_BODY@.subrange(i0, i0 + "<d:current-user-principal/>"@.len()) =~= "<d:current-user-principal/>"@);
}

proof fn lemma_home_set_body()
    ensures
        holds(HOME_SET_BODY@, "<cal:calendar-home-set/>"@),
{
    reveal_strlit(
        "<?xml version=\"1.0\" encoding=\"utf-8\"?>\n<d:propfind xmlns:d=\"DAV:\" xmlns:cal=\"urn:ietf:params:xml:ns:caldav\">\n  <d:prop>\n    <cal:calendar-home-set/>\n  </d:prop>\n</d:propfind>\n",
    );
    reveal_strlit("<cal:calendar-home-set/>");
    let i0: int = 124;
    assert(HOME_SET_BODY@.subrange(i0, i0 + "<cal:calendar-home-set/>"@.len()) =~= "<cal:calendar-home-set/>"@);
}

proof fn lemma_calendar_list_body()
    ensures
        holds(CALENDAR_LIST_BODY@, "<d:displayname/>"@),
        holds(CALENDAR_LIST_BODY@, "<d:resourcetype/>"@),
        holds(CALENDAR_LIST_BODY@, "<cal:supported-calendar-component-set/>"@),
{
    reveal_strlit(
        "<?xml version=\"1.0\" encoding=\"utf-8\"?>\n<d:propfind xmlns:d=\"DAV:\" xmlns:cal=\"urn:ietf:params:xml:ns:caldav\">\n  <d:prop>\n    <d:displayname/>\n    <d:resourcetype/>\n    <cal:supported-calendar-component-set/>\n  </d:prop>\n</d:propfind>\n",
    );
    reveal_strlit("<d:displayname/>");
    let i0: int = 124;
    assert(CALENDAR_LIST_BODY@.subrange(i0, i0 + "<d:displayname/>"@.len()) =~= "<d:displayname/>"@);
    reveal_strlit("<d:resourcetype/>");
    let i1: int = 145;
    assert(CALENDAR_LIST_BODY@.subrange(i1, i1 + "<d:resourcetype/>"@.len()) =~= "<d:resourcetype/>"@);
    reveal_strlit("<cal:supported-calendar-component-set/>");
    let i2: int = 167;
    assert(CALENDAR_LIST_BODY@.subrange(i2, i2 + "<cal:supported-calendar-component-set/>"@.len()) =~= "<cal:supported-calendar-component-set/>"@);
}

proof fn lemma_calendar_query_body()
    ensures
        holds(CALENDAR_QUERY_BODY@, "<d:getetag/>"@),
        holds(CALENDAR_QUERY_BODY@, "<c:calendar-data/>"@),
        holds(CALENDAR_QUERY_BODY@, "<c:comp-filter name=\"VCALENDAR\">"@),
        holds(CALENDAR_QUERY_BODY@, "<c:comp-filter name=\"VTODO\"/>"@),
{
    reveal_strlit(
        "<?xml version=\"1.0\" encoding=\"utf-8\"?>\n<c:calendar-query xmlns:d=\"DAV:\" xmlns:c=\"urn:ietf:params:xml:ns:caldav\">\n  <d:prop>\n    <d:getetag/>\n    <c:calendar-data/>\n  </d:prop>\n  <c:filter>\n    <c:comp-filter name=\"VCALENDAR\">\n      <c:comp-filter name=\"VTODO\"/>\n    </c:comp-filter>\n  </c:filter>\n</c:calendar-query>\n",
    );
    reveal_strlit("<d:getetag/>");
    let i0: int = 128;
    assert(CALENDAR_QUERY_BODY@.subrange(i0, i0 + "<d:getetag/>"@.len()) =~= "<d:getetag/>"@);
    reveal_strlit("<c:calendar-data/>");
    let i1: int = 145;
    assert(CALENDAR_QUERY_BODY@.subrange(i1, i1 + "<c:calendar-data/>"@.len()) =~= "<c:calendar-data/>"@);
    reveal_strlit("<c:comp-filter name=\"VCALENDAR\">");
    let i2: int = 193;
    assert(CALENDAR_QUERY_BODY@.subrange(i2, i2 + "<c:comp-filter name=\"VCALENDAR\">"@.len()) =~= "<c:comp-filter name=\"VCALENDAR\">"@);
    reveal_strlit("<c:comp-filter name=\"VTODO\"/>");
    let i3: int = 232;
    assert(CALENDAR_QUERY_BODY@.subrange(i3, i3 + "<c:comp-filter name=\"VTODO\"/>"@.len()) =~= "<c:comp-filter name=\"VTODO\"/>"@);
}

/// What the requests of a search, a probe and a query ask for, by name: the search for the
/// principal, the home of the calendars, and the name, the type and the components of each
/// collection; a query for the version and the text of every to-do.
pub proof fn law_requests_ask_for()
    ensures
        holds(PROBE_BODY@, "<d:displayname/>"@),
        holds(PROBE_BODY@, "<d:resourcetype/>"@),
        holds(PRINCIPAL_BODY@, "<d:current-user-principal/>"@),
        holds(HOME_SET_BODY@, "<cal:calendar-home-set/>"@),
        holds(CALENDAR_LIST_BODY@, "<d:displayname/>"@),
        holds(CALENDAR_LIST_BODY@, "<d:resourcetype/>"@),
        holds(CALENDAR_LIST_BODY@, "<cal:supported-calendar-component-set/>"@),
        holds(CALENDAR_QUERY_BODY@, "<d:getetag/>"@),
        holds(CALENDAR_QUERY_BODY@, "<c:calendar-data/>"@),
        holds(CALENDAR_QUERY_BODY@, "<c:comp-filter name=\"VCALENDAR\">"@),
        holds(CALENDAR_QUERY_BODY@, "<c:comp-filter name=\"VTODO\"/>"@),
{
    lemma_probe_body();
    lemma_principal_body();
    lemma_home_set_body();
    lemma_calendar_list_body();
    lemma_calendar_query_body();
}

/// A REPORT for a sync has the token in its own element, and asks for the version and the
/// text of what changed in the collection itself.
pub proof fn law_report_asks_for(token: Option<Seq<char>>)
    ensures
        exists|a: Seq<char>, b: Seq<char>|
            sync_body(token) == #[trigger] (a + b) && a == before_token() + (match token {
                Some(t) => xml_escaped(t),
                None => Seq::<char>::empty(),
            }) && b == behind_token(),
        before_token().len() > 14 && before_token().skip(before_token().len() - 14)
            == "<d:sync-token>"@,
        behind_token().len() > 15 && behind_token().take(15) == "</d:sync-token>"@,
        holds(behind_token(), "<d:getetag/>"@),
        holds(behind_token(), "<c:calendar-data/>"@),
        holds(behind_token(), "<d:sync-level>1</d:sync-level>"@),
{
    reveal_strlit("");
    reveal_strlit("<d:sync-token>");
    reveal_strlit("</d:sync-token>");
    reveal_strlit(
        "<?xml version=\"1.0\" encoding=\"utf-8\"?>\n<d:sync-collection xmlns:d=\"DAV:\" xmlns:c=\"urn:ietf:params:xml:ns:caldav\">\n  <d:sync-token>",
    );
    reveal_strlit(
        "</d:sync-token>\n  <d:sync-level>1</d:sync-level>\n  <d:prop>\n    <d:getetag/>\n    <c:calendar-data/>\n  </d:prop>\n</d:sync-collection>\n",
    );
    reveal_strlit("<d:getetag/>");
    let i0: int = 64;
    assert(behind_token().subrange(i0, i0 + "<d:getetag/>"@.len()) =~= "<d:getetag/>"@);
    reveal_strlit("<c:calendar-data/>");
    let i1: int = 81;
    assert(behind_token().subrange(i1, i1 + "<c:calendar-data/>"@.len()) =~= "<c:calendar-data/>"@);
    reveal_strlit("<d:sync-level>1</d:sync-level>");
    let i2: int = 18;
    assert(behind_token().subrange(i2, i2 + "<d:sync-level>1</d:sync-level>"@.len()) =~= "<d:sync-level>1</d:sync-level>"@);
    assert(before_token().skip(before_token().len() - 14) =~= "<d:sync-token>"@);
    assert(behind_token().take(15) =~= "</d:sync-token>"@);
    let t = match token {
        Some(t) => xml_escaped(t),
        None => Seq::<char>::empty(),
    };
    assert(""@ =~= Seq::<char>::empty());
    assert(sync_body(token) == before_token() + t + behind_token());
}

/// The failure tells that the server does not know the REPORT for a sync.
pub open spec fn tells_unknown(e: FailureV) -> bool {
    let low = ascii_lower(e.message);
    holds(low, "sync-collection"@) && (holds(low, "unsupported"@) || holds(low, "not implemented"@)
        || holds(low, "400"@) || holds(low, "501"@))
}

/// A first REPORT that failed ends the pull with its failure, unless the failure names a
/// rejected token or an unknown REPORT: the one starts over where there was a token, the
/// other goes on to the query.
pub proof fn law_failed_report(
    url: Seq<char>,
    token: Option<Seq<char>>,
    replies: Seq<ReplyV>,
    e: FailureV,
)
    requires
        replies.len() == 1,
        report_meaning(url, replies[0], "REPORT sync-collection"@) == Err::<SyncDeltaV, FailureV>(
            e,
        ),
    ensures
        ({
            let out = pull(url, token, replies);
            let rejected = token is Some && (holds(e.message, "412"@) || holds(e.message, "403"@));
            &&& rejected ==> (out matches StepV::Send(r) && asks_dav(
                r,
                "REPORT"@,
                url,
                "1"@,
                sync_body(None),
            ))
            &&& !rejected && tells_unknown(e) ==> (out matches StepV::Send(r) && asks_dav(
                r,
                "REPORT"@,
                url,
                "1"@,
                CALENDAR_QUERY_BODY@,
            ))
            &&& !rejected && !tells_unknown(e) ==> out == StepV::<
                Result<(SyncDeltaV, bool), FailureV>,
            >::Done(Err(e))
        }),
{
    let low = ascii_lower(e.message);
    lemma_holds(e.message, "412"@);
    lemma_holds(e.message, "403"@);
    lemma_holds(low, "sync-collection"@);
    lemma_holds(low, "unsupported"@);
    lemma_holds(low, "not implemented"@);
    lemma_holds(low, "400"@);
    lemma_holds(low, "501"@);
    law_dav_request("REPORT"@, url, "1"@, sync_body(None));
    law_dav_request("REPORT"@, url, "1"@, CALENDAR_QUERY_BODY@);
}

} // verus!
