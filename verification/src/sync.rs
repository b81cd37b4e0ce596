//! Talking to the account: finding its task lists, and pulling what changed.
use vstd::prelude::*;
use crate::config::{CaldavConfig, CaldavConfigV};
use crate::failure::{in_context, plain, Failure, FailureV};
use crate::http::{
    dav_meaning, dav_outcome, dav_request, dav_request_of, reply_views, Reply, ReplyV, RequestV,
    Step, StepV,
};
use crate::multistatus::{
    calendar_list, calendars_in, delta_in, delta_result, href_property, parse_calendars,
    parse_href_property, parse_sync_response, Calendar, CalendarV, SyncDelta, SyncDeltaV,
};
use crate::text::{
    ascii_lower, chars_of, contains, decimal, decimal_of, expand, has_sub, opt_str,
    string_of_range, to_ascii_lower, trim_end_char, trim_end_of,
};
use crate::weburl::{join_url, joined_url, parsed_url, read_url};

verus! {

// --- Request bodies ---

pub const PROBE_BODY: &'static str =
    "<?xml version=\"1.0\" encoding=\"utf-8\"?>\n<d:propfind xmlns:d=\"DAV:\">\n  <d:prop>\n    <d:displayname/>\n    <d:resourcetype/>\n  </d:prop>\n</d:propfind>\n";

pub const PRINCIPAL_BODY: &'static str =
    "<?xml version=\"1.0\" encoding=\"utf-8\"?>\n<d:propfind xmlns:d=\"DAV:\">\n  <d:prop>\n    <d:current-user-principal/>\n  </d:prop>\n</d:propfind>\n";

pub const HOME_SET_BODY: &'static str =
    "<?xml version=\"1.0\" encoding=\"utf-8\"?>\n<d:propfind xmlns:d=\"DAV:\" xmlns:cal=\"urn:ietf:params:xml:ns:caldav\">\n  <d:prop>\n    <cal:calendar-home-set/>\n  </d:prop>\n</d:propfind>\n";

pub const CALENDAR_LIST_BODY: &'static str =
    "<?xml version=\"1.0\" encoding=\"utf-8\"?>\n<d:propfind xmlns:d=\"DAV:\" xmlns:cal=\"urn:ietf:params:xml:ns:caldav\">\n  <d:prop>\n    <d:displayname/>\n    <d:resourcetype/>\n    <cal:supported-calendar-component-set/>\n  </d:prop>\n</d:propfind>\n";

/// A REPORT for every to-do of a collection.
pub const CALENDAR_QUERY_BODY: &'static str =
    "<?xml version=\"1.0\" encoding=\"utf-8\"?>\n<c:calendar-query xmlns:d=\"DAV:\" xmlns:c=\"urn:ietf:params:xml:ns:caldav\">\n  <d:prop>\n    <d:getetag/>\n    <c:calendar-data/>\n  </d:prop>\n  <c:filter>\n    <c:comp-filter name=\"VCALENDAR\">\n      <c:comp-filter name=\"VTODO\"/>\n    </c:comp-filter>\n  </c:filter>\n</c:calendar-query>\n";

/// The escaped form of one character of XML text.
pub open spec fn xml_escape_char(c: char) -> Seq<char> {
    if c == '&' {
        "&amp;"@
    } else if c == '<' {
        "&lt;"@
    } else if c == '>' {
        "&gt;"@
    } else {
        seq![c]
    }
}

/// The escaped form of XML text.
pub open spec fn xml_escaped(s: Seq<char>) -> Seq<char> {
    expand(s, |c: char| xml_escape_char(c))
}

/// Escapes text for an XML element.
pub fn xml_escape(s: &str) -> (r: String)
    ensures
        r@ == xml_escaped(s@),
{
    let v = chars_of(s);
    let mut r = String::new();
    let mut i: usize = 0;
    while i < v.len()
        invariant
            i <= v@.len(),
            r@ == xml_escaped(v@.take(i as int)),
        decreases v@.len() - i,
    {
        let c = v[i];
        proof {
            assert(v@.take(i + 1).drop_last() =~= v@.take(i as int));
        }
        if c == '&' {
            r.append("&amp;");
        } else if c == '<' {
            r.append("&lt;");
        } else if c == '>' {
            r.append("&gt;");
        } else {
            let ghost before = r@;
            r.push(c);
            assert(before + seq![c] =~= r@);
        }
        i += 1;
    }
    assert(v@.take(i as int) =~= s@);
    r
}

/// What stands before the token in the body of a sync REPORT.
pub open spec fn before_token() -> Seq<char> {
    "<?xml version=\"1.0\" encoding=\"utf-8\"?>\n<d:sync-collection xmlns:d=\"DAV:\" xmlns:c=\"urn:ietf:params:xml:ns:caldav\">\n  <d:sync-token>"@
}

/// What stands behind it.
pub open spec fn behind_token() -> Seq<char> {
    "</d:sync-token>\n  <d:sync-level>1</d:sync-level>\n  <d:prop>\n    <d:getetag/>\n    <c:calendar-data/>\n  </d:prop>\n</d:sync-collection>\n"@
}

/// The body of a sync REPORT. An empty token asks for everything.
pub open spec fn sync_body(token: Option<Seq<char>>) -> Seq<char> {
    before_token() + (match token {
        Some(t) => xml_escaped(t),
        None => ""@,
    }) + behind_token()
}

/// Writes the body of a sync REPORT.
pub fn sync_collection_body(sync_token: Option<&str>) -> (r: String)
    ensures
        r@ == sync_body(opt_str(sync_token)),
{
    let token = match sync_token {
        Some(t) => xml_escape(t),
        None => "".to_owned(),
    };
    let mut r =
        "<?xml version=\"1.0\" encoding=\"utf-8\"?>\n<d:sync-collection xmlns:d=\"DAV:\" xmlns:c=\"urn:ietf:params:xml:ns:caldav\">\n  <d:sync-token>".to_owned();
    r.append(token.as_str());
    r.append(
        "</d:sync-token>\n  <d:sync-level>1</d:sync-level>\n  <d:prop>\n    <d:getetag/>\n    <c:calendar-data/>\n  </d:prop>\n</d:sync-collection>\n",
    );
    r
}

// --- Pulling changes ---

/// The changes, and whether they are everything the server has.
pub open spec fn pull_step(s: Step<Result<(SyncDelta, bool), Failure>>) -> StepV<
    Result<(SyncDeltaV, bool), FailureV>,
> {
    match s {
        Step::Send(r) => StepV::Send(r@),
        Step::Done(Ok(p)) => StepV::Done(Ok((p.0@, p.1))),
        Step::Done(Err(e)) => StepV::Done(Err(e@)),
    }
}

/// Does a failure say that the server does not know the sync REPORT?
pub open spec fn says_unsupported(msg: Seq<char>) -> bool {
    let m = ascii_lower(msg);
    has_sub(m, "sync-collection"@) && (has_sub(m, "unsupported"@) || has_sub(m, "not implemented"@)
        || has_sub(m, "400"@) || has_sub(m, "501"@))
}

/// Recognises a server without the sync REPORT.
pub fn sync_collection_unsupported(msg: &str) -> (r: bool)
    ensures
        r == says_unsupported(msg@),
{
    let low = to_ascii_lower(msg);
    let m = low.as_str();
    contains(m, "sync-collection") && (contains(m, "unsupported") || contains(m, "not implemented")
        || contains(m, "400") || contains(m, "501"))
}

/// Does a failure say that the token is no longer good?
pub open spec fn says_token_rejected(msg: Seq<char>) -> bool {
    has_sub(msg, "412"@) || has_sub(msg, "403"@)
}

/// A REPORT on a collection.
pub open spec fn report_request(url: Seq<char>, body: Seq<char>) -> RequestV {
    dav_request_of("REPORT"@, url, "1"@, body)
}

/// The changes in the reply to a REPORT.
pub open spec fn report_meaning(url: Seq<char>, reply: ReplyV, what: Seq<char>) -> Result<
    SyncDeltaV,
    FailureV,
> {
    match dav_meaning(url, reply) {
        Ok(resp) => delta_in(resp.body, resp.final_url),
        Err(e) => Err(in_context(e, what)),
    }
}

/// Asking for every to-do, as the exchange's request number `n`.
pub open spec fn query_pull(url: Seq<char>, replies: Seq<ReplyV>, n: int) -> StepV<
    Result<(SyncDeltaV, bool), FailureV>,
> {
    if replies.len() <= n {
        StepV::Send(report_request(url, CALENDAR_QUERY_BODY@))
    } else {
        match report_meaning(url, replies[n], "REPORT calendar-query"@) {
            Ok(d) => StepV::Done(Ok((d, true))),
            Err(e) => StepV::Done(Err(e)),
        }
    }
}

/// A full sync, as the exchange's request number `n`.
pub open spec fn full_pull(url: Seq<char>, replies: Seq<ReplyV>, n: int) -> StepV<
    Result<(SyncDeltaV, bool), FailureV>,
> {
    if replies.len() <= n {
        StepV::Send(report_request(url, sync_body(None)))
    } else {
        match report_meaning(url, replies[n], "REPORT sync-collection"@) {
            Ok(d) => StepV::Done(Ok((d, true))),
            Err(e) => if says_unsupported(e.message) {
                query_pull(url, replies, n + 1)
            } else {
                StepV::Done(Err(e))
            },
        }
    }
}

/// The pull of a collection's changes: from the token where there is one, from
/// the start where it is no longer good, and by query where the server has no
/// sync REPORT.
pub open spec fn pull(url: Seq<char>, token: Option<Seq<char>>, replies: Seq<ReplyV>) -> StepV<
    Result<(SyncDeltaV, bool), FailureV>,
> {
    match token {
        None => full_pull(url, replies, 0),
        Some(t) => if replies.len() == 0 {
            StepV::Send(report_request(url, sync_body(Some(t))))
        } else {
            match report_meaning(url, replies[0], "REPORT sync-collection"@) {
                Ok(d) => StepV::Done(Ok((d, false))),
                Err(e) => if says_token_rejected(e.message) {
                    full_pull(url, replies, 1)
                } else if says_unsupported(e.message) {
                    query_pull(url, replies, 1)
                } else {
                    StepV::Done(Err(e))
                },
            }
        },
    }
}

fn report_outcome(url: &str, reply: &Reply, what: &str) -> (r: Result<SyncDelta, Failure>)
    ensures
        delta_result(r) == report_meaning(url@, reply@, what@),
{
    match dav_outcome(url, reply) {
        Ok(resp) => parse_sync_response(resp.body.as_str(), resp.final_url.as_str()),
        Err(e) => Err(e.context(what)),
    }
}

fn pull_by_query(url: &str, replies: &Vec<Reply>, n: usize) -> (s: Step<
    Result<(SyncDelta, bool), Failure>,
>)
    ensures
        pull_step(s) == query_pull(url@, reply_views(replies@), n as int),
{
    if replies.len() <= n {
        return Step::Send(dav_request("REPORT", url, "1", CALENDAR_QUERY_BODY));
    }
    match report_outcome(url, &replies[n], "REPORT calendar-query") {
        Ok(d) => Step::Done(Ok((d, true))),
        Err(e) => Step::Done(Err(e)),
    }
}

fn pull_everything(url: &str, replies: &Vec<Reply>, n: usize) -> (s: Step<
    Result<(SyncDelta, bool), Failure>,
>)
    requires
        n < usize::MAX,
    ensures
        pull_step(s) == full_pull(url@, reply_views(replies@), n as int),
{
    if replies.len() <= n {
        let body = sync_collection_body(None);
        return Step::Send(dav_request("REPORT", url, "1", body.as_str()));
    }
    match report_outcome(url, &replies[n], "REPORT sync-collection") {
        Ok(d) => Step::Done(Ok((d, true))),
        Err(e) => if sync_collection_unsupported(e.message.as_str()) {
            pull_by_query(url, replies, n + 1)
        } else {
            Step::Done(Err(e))
        },
    }
}

/// Pulls the changes of a collection, given the replies so far.
pub fn sync_collection_with_fallback(
    calendar_url: &str,
    sync_token: Option<&str>,
    replies: &Vec<Reply>,
) -> (s: Step<Result<(SyncDelta, bool), Failure>>)
    ensures
        pull_step(s) == pull(calendar_url@, opt_str(sync_token), reply_views(replies@)),
{
    match sync_token {
        None => pull_everything(calendar_url, replies, 0),
        Some(t) => {
            if replies.len() == 0 {
                let body = sync_collection_body(Some(t));
                return Step::Send(dav_request("REPORT", calendar_url, "1", body.as_str()));
            }
            match report_outcome(calendar_url, &replies[0], "REPORT sync-collection") {
                Ok(d) => Step::Done(Ok((d, false))),
                Err(e) => {
                    let msg = e.message.as_str();
                    if contains(msg, "412") || contains(msg, "403") {
                        pull_everything(calendar_url, replies, 1)
                    } else if sync_collection_unsupported(msg) {
                        pull_by_query(calendar_url, replies, 1)
                    } else {
                        Step::Done(Err(e))
                    }
                },
            }
        },
    }
}

// --- Finding the task lists of an account ---

pub open spec fn discover_step(s: Step<Result<Vec<Calendar>, Failure>>) -> StepV<
    Result<Seq<CalendarV>, FailureV>,
> {
    match s {
        Step::Send(r) => StepV::Send(r@),
        Step::Done(Ok(c)) => StepV::Done(Ok(calendar_list(c@))),
        Step::Done(Err(e)) => StepV::Done(Err(e@)),
    }
}

/// The URL that a reply's property leads to.
pub open spec fn followed(
    url: Seq<char>,
    reply: ReplyV,
    property: Seq<char>,
    asking: Seq<char>,
    parsing: Seq<char>,
    resolving: Seq<char>,
) -> Result<Seq<char>, FailureV> {
    match dav_meaning(url, reply) {
        Err(e) => Err(in_context(e, asking)),
        Ok(resp) => match href_property(resp.body, property) {
            Err(e) => Err(in_context(e, parsing)),
            Ok(href) => match joined_url(resp.final_url, href) {
                Err(e) => Err(in_context(plain(e), resolving)),
                Ok(u) => Ok(u),
            },
        },
    }
}

/// The lists in the collection of the account's calendars.
pub open spec fn list_home(home: Seq<char>, replies: Seq<ReplyV>) -> StepV<
    Result<Seq<CalendarV>, FailureV>,
> {
    if replies.len() <= 2 {
        StepV::Send(dav_request_of("PROPFIND"@, home, "1"@, CALENDAR_LIST_BODY@))
    } else {
        match dav_meaning(home, replies[2]) {
            Err(e) => StepV::Done(
                Err(in_context(e, "step 3: PROPFIND calendar-home Depth:1"@)),
            ),
            Ok(resp) => match calendars_in(resp.body, resp.final_url) {
                Ok(c) => StepV::Done(Ok(c)),
                Err(e) => StepV::Done(
                    Err(in_context(e, "parsing calendar list from step 3"@)),
                ),
            },
        }
    }
}

/// From the account's principal to its calendars.
pub open spec fn ask_principal(principal: Seq<char>, replies: Seq<ReplyV>) -> StepV<
    Result<Seq<CalendarV>, FailureV>,
> {
    if replies.len() <= 1 {
        StepV::Send(dav_request_of("PROPFIND"@, principal, "0"@, HOME_SET_BODY@))
    } else {
        match followed(
            principal,
            replies[1],
            "calendar-home-set"@,
            "step 2: PROPFIND principal for calendar-home-set"@,
            "parsing calendar-home-set from step 2"@,
            "resolving calendar-home-set href"@,
        ) {
            Err(e) => StepV::Done(Err(e)),
            Ok(home) => list_home(home, replies),
        }
    }
}

/// Where the search for an account's calendars starts.
pub open spec fn well_known_url(base_url: Seq<char>) -> Result<Seq<char>, FailureV> {
    match parsed_url(trim_end_char(base_url, '/')) {
        Err(e) => Err(in_context(plain(e), "parsing base_url"@)),
        Ok(base) => match joined_url(base.text, "/.well-known/caldav"@) {
            Err(e) => Err(in_context(plain(e), "building .well-known/caldav URL"@)),
            Ok(u) => Ok(u),
        },
    }
}

/// The search: from the server to the account, to its calendars, to those that
/// hold to-dos.
pub open spec fn discovery(cfg: CaldavConfigV, replies: Seq<ReplyV>) -> StepV<
    Result<Seq<CalendarV>, FailureV>,
> {
    match well_known_url(cfg.base_url) {
        Err(e) => StepV::Done(Err(e)),
        Ok(start) => if replies.len() == 0 {
            StepV::Send(dav_request_of("PROPFIND"@, start, "0"@, PRINCIPAL_BODY@))
        } else {
            match followed(
                start,
                replies[0],
                "current-user-principal"@,
                "step 1: PROPFIND .well-known/caldav for current-user-principal"@,
                "parsing current-user-principal from step 1"@,
                "resolving principal href"@,
            ) {
                Err(e) => StepV::Done(Err(e)),
                Ok(principal) => ask_principal(principal, replies),
            }
        },
    }
}

fn follow(
    url: &str,
    reply: &Reply,
    property: &str,
    asking: &str,
    parsing: &str,
    resolving: &str,
) -> (r: Result<String, Failure>)
    ensures
        crate::multistatus::href_result(r) == followed(
            url@,
            reply@,
            property@,
            asking@,
            parsing@,
            resolving@,
        ),
{
    match dav_outcome(url, reply) {
        Err(e) => Err(e.context(asking)),
        Ok(resp) => match parse_href_property(resp.body.as_str(), property) {
            Err(e) => Err(e.context(parsing)),
            Ok(href) => match join_url(resp.final_url.as_str(), href.as_str()) {
                Err(e) => Err(Failure::from_message(e).context(resolving)),
                Ok(u) => Ok(u),
            },
        },
    }
}

fn find_start(base_url: &str) -> (r: Result<String, Failure>)
    ensures
        crate::multistatus::href_result(r) == well_known_url(base_url@),
{
    match read_url(trim_end_of(base_url, '/').as_str()) {
        Err(e) => Err(Failure::from_message(e).context("parsing base_url")),
        Ok(base) => match join_url(base.text.as_str(), "/.well-known/caldav") {
            Err(e) => Err(Failure::from_message(e).context("building .well-known/caldav URL")),
            Ok(u) => Ok(u),
        },
    }
}

/// Finds the task lists of an account, given the replies so far.
pub fn discover_calendars(cfg: &CaldavConfig, replies: &Vec<Reply>) -> (s: Step<
    Result<Vec<Calendar>, Failure>,
>)
    ensures
        discover_step(s) == discovery(cfg@, reply_views(replies@)),
{
    let start = match find_start(cfg.base_url.as_str()) {
        Err(e) => {
            return Step::Done(Err(e));
        },
        Ok(u) => u,
    };
    if replies.len() == 0 {
        return Step::Send(dav_request("PROPFIND", start.as_str(), "0", PRINCIPAL_BODY));
    }
    let principal = match follow(
        start.as_str(),
        &replies[0],
        "current-user-principal",
        "step 1: PROPFIND .well-known/caldav for current-user-principal",
        "parsing current-user-principal from step 1",
        "resolving principal href",
    ) {
        Err(e) => {
            return Step::Done(Err(e));
        },
        Ok(u) => u,
    };
    if replies.len() == 1 {
        return Step::Send(dav_request("PROPFIND", principal.as_str(), "0", HOME_SET_BODY));
    }
    let home = match follow(
        principal.as_str(),
        &replies[1],
        "calendar-home-set",
        "step 2: PROPFIND principal for calendar-home-set",
        "parsing calendar-home-set from step 2",
        "resolving calendar-home-set href",
    ) {
        Err(e) => {
            return Step::Done(Err(e));
        },
        Ok(u) => u,
    };
    if replies.len() == 2 {
        return Step::Send(dav_request("PROPFIND", home.as_str(), "1", CALENDAR_LIST_BODY));
    }
    match dav_outcome(home.as_str(), &replies[2]) {
        Err(e) => Step::Done(Err(e.context("step 3: PROPFIND calendar-home Depth:1"))),
        Ok(resp) => match parse_calendars(resp.body.as_str(), resp.final_url.as_str()) {
            Ok(c) => Step::Done(Ok(c)),
            Err(e) => Step::Done(Err(e.context("parsing calendar list from step 3"))),
        },
    }
}

// --- Probing the server ---

/// The number of bytes that UTF-8 takes for a character.
pub open spec fn utf8_width(c: char) -> nat {
    let n = c as int;
    if n < 0x80 {
        1
    } else if n < 0x800 {
        2
    } else if n < 0x10000 {
        3
    } else {
        4
    }
}

/// The number of leading characters that fit into `room` bytes.
pub open spec fn fitting(s: Seq<char>, room: nat) -> nat
    decreases s.len(),
{
    if s.len() == 0 || utf8_width(s[0]) > room {
        0
    } else {
        1 + fitting(s.skip(1), (room - utf8_width(s[0])) as nat)
    }
}

/// The start of a body, up to 500 bytes and never within a character.
pub open spec fn snippet(body: Seq<char>) -> Seq<char> {
    body.take(fitting(body, 500) as int)
}

/// The collection that a probe asks about.
pub open spec fn probe_url(cfg: CaldavConfigV) -> Result<Seq<char>, FailureV> {
    match parsed_url(
        trim_end_char(cfg.base_url, '/') + "/remote.php/dav/calendars/"@ + cfg.username + "/"@,
    ) {
        Ok(u) => Ok(u.text),
        Err(e) => Err(in_context(plain(e), "parsing calendar-home URL"@)),
    }
}

/// A probe: the status of the account's calendar collection and the start of the
/// answer.
pub open spec fn probing(cfg: CaldavConfigV, replies: Seq<ReplyV>) -> StepV<
    Result<Seq<char>, FailureV>,
> {
    match probe_url(cfg) {
        Err(e) => StepV::Done(Err(e)),
        Ok(url) => if replies.len() == 0 {
            StepV::Send(dav_request_of("PROPFIND"@, url, "0"@, PROBE_BODY@))
        } else {
            match dav_meaning(url, replies[0]) {
                Err(e) => StepV::Done(Err(e)),
                Ok(resp) => StepV::Done(
                    Ok("status="@ + decimal(resp.status as nat) + "\n\n"@ + snippet(resp.body)),
                ),
            }
        },
    }
}

pub open spec fn probe_step(s: Step<Result<String, Failure>>) -> StepV<
    Result<Seq<char>, FailureV>,
> {
    match s {
        Step::Send(r) => StepV::Send(r@),
        Step::Done(Ok(t)) => StepV::Done(Ok(t@)),
        Step::Done(Err(e)) => StepV::Done(Err(e@)),
    }
}

fn width(c: char) -> (n: usize)
    ensures
        n == utf8_width(c),
{
    let k: u32 = c as u32;
    if k < 0x80 {
        1
    } else if k < 0x800 {
        2
    } else if k < 0x10000 {
        3
    } else {
        4
    }
}

fn body_start(body: &str) -> (s: String)
    ensures
        s@ == snippet(body@),
{
    let v = chars_of(body);
    let mut room: usize = 500;
    let mut i: usize = 0;
    assert(v@.skip(0) =~= v@);
    while i < v.len() && width(v[i]) <= room
        invariant
            i <= v@.len(),
            v@ == body@,
            fitting(body@, 500) == i + fitting(v@.skip(i as int), room as nat),
        decreases v@.len() - i,
    {
        proof {
            assert(v@.skip(i as int).skip(1) =~= v@.skip(i + 1));
        }
        room -= width(v[i]);
        i += 1;
    }
    let s = string_of_range(&v, 0, i);
    assert(s@ =~= snippet(body@));
    s
}

/// Probes the server, given the replies so far.
pub fn probe(cfg: &CaldavConfig, replies: &Vec<Reply>) -> (s: Step<Result<String, Failure>>)
    ensures
        probe_step(s) == probing(cfg@, reply_views(replies@)),
{
    let mut address = trim_end_of(cfg.base_url.as_str(), '/');
    address.append("/remote.php/dav/calendars/");
    address.append(cfg.username.as_str());
    address.append("/");
    let url = match read_url(address.as_str()) {
        Ok(u) => u.text,
        Err(e) => {
            return Step::Done(
                Err(Failure::from_message(e).context("parsing calendar-home URL")),
            );
        },
    };
    if replies.len() == 0 {
        return Step::Send(dav_request("PROPFIND", url.as_str(), "0", PROBE_BODY));
    }
    match dav_outcome(url.as_str(), &replies[0]) {
        Err(e) => Step::Done(Err(e)),
        Ok(resp) => {
            let mut t = "status=".to_owned();
            t.append(decimal_of(resp.status as u64).as_str());
            t.append("\n\n");
            t.append(body_start(resp.body.as_str()).as_str());
            Step::Done(Ok(t))
        },
    }
}

} // verus!
