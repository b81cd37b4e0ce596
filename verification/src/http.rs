//! Requests that the program sends and the replies it gets, as plain values, and
//! what a reply to each kind of request means.
use vstd::prelude::*;
use crate::failure::{in_context, plain, Failure, FailureV};
use crate::ical::{crlf, ensure_crlf};
use crate::store::{copy_opt, own_opt};
use crate::text::{opt_str, opt_text};

verus! {

/// A request. The account's credentials are added when it is sent.
#[derive(Debug)]
pub struct Request {
    pub method: String,
    pub url: String,
    pub headers: Vec<(String, String)>,
    pub body: Option<String>,
}

#[verifier::ext_equal]
pub struct RequestV {
    pub method: Seq<char>,
    pub url: Seq<char>,
    pub headers: Seq<(Seq<char>, Seq<char>)>,
    pub body: Option<Seq<char>>,
}

pub open spec fn header_views(v: Seq<(String, String)>) -> Seq<(Seq<char>, Seq<char>)> {
    v.map_values(|h: (String, String)| (h.0@, h.1@))
}

impl View for Request {
    type V = RequestV;

    open spec fn view(&self) -> RequestV {
        RequestV {
            method: self.method@,
            url: self.url@,
            headers: header_views(self.headers@),
            body: opt_text(self.body),
        }
    }
}

/// An answer of the server. `status_text` is the status with its reason, such as
/// `404 Not Found`; the body may have failed to arrive.
#[derive(Debug)]
pub struct Answer {
    pub status: u16,
    pub status_text: String,
    pub etag: Option<String>,
    pub body: Result<String, Failure>,
    pub final_url: String,
}

pub struct AnswerV {
    pub status: u16,
    pub status_text: Seq<char>,
    pub etag: Option<Seq<char>>,
    pub body: Result<Seq<char>, FailureV>,
    pub final_url: Seq<char>,
}

impl View for Answer {
    type V = AnswerV;

    open spec fn view(&self) -> AnswerV {
        AnswerV {
            status: self.status,
            status_text: self.status_text@,
            etag: opt_text(self.etag),
            body: match self.body {
                Ok(s) => Ok(s@),
                Err(e) => Err(e@),
            },
            final_url: self.final_url@,
        }
    }
}

/// What became of a request.
#[derive(Debug)]
pub enum Reply {
    Answered(Answer),
    Failed(Failure),
}

pub enum ReplyV {
    Answered(AnswerV),
    Failed(FailureV),
}

impl View for Reply {
    type V = ReplyV;

    open spec fn view(&self) -> ReplyV {
        match self {
            Reply::Answered(a) => ReplyV::Answered(a@),
            Reply::Failed(f) => ReplyV::Failed(f@),
        }
    }
}

pub open spec fn reply_views(v: Seq<Reply>) -> Seq<ReplyV> {
    v.map_values(|r: Reply| r@)
}

/// The next thing to do in an exchange: send a request, or be done.
pub enum Step<T> {
    Send(Request),
    Done(T),
}

pub enum StepV<T> {
    Send(RequestV),
    Done(T),
}

impl Failure {
    pub fn copy(&self) -> (f: Failure)
        ensures
            f@ == self@,
    {
        Failure { network: copy_opt(&self.network), message: self.message.clone() }
    }
}

/// A status that reports success.
pub open spec fn succeeded(status: u16) -> bool {
    200 <= status && status < 300
}

/// A status that reports that the resource is not there.
pub open spec fn gone(status: u16) -> bool {
    status == 404 || status == 410
}

/// The body, or nothing where it did not arrive.
pub open spec fn body_or_empty(a: AnswerV) -> Seq<char> {
    match a.body {
        Ok(s) => s,
        Err(_) => ""@,
    }
}

/// The failure of a request that the server turned down.
pub open spec fn refused(what: Seq<char>, a: AnswerV, body: Seq<char>) -> FailureV {
    plain(what + " -> "@ + a.status_text + ": "@ + body)
}

// --- Requests ---

pub open spec fn dav_request_of(
    method: Seq<char>,
    url: Seq<char>,
    depth: Seq<char>,
    body: Seq<char>,
) -> RequestV {
    RequestV {
        method,
        url,
        headers: seq![
            ("Depth"@, depth),
            ("Content-Type"@, "application/xml; charset=utf-8"@),
        ],
        body: Some(body),
    }
}

pub open spec fn put_request_of(url: Seq<char>, ical: Seq<char>, etag: Seq<char>) -> RequestV {
    RequestV {
        method: "PUT"@,
        url,
        headers: seq![
            ("If-Match"@, etag),
            ("Content-Type"@, "text/calendar; charset=utf-8"@),
        ],
        body: Some(ical),
    }
}

pub open spec fn create_request_of(url: Seq<char>, ical: Seq<char>) -> RequestV {
    RequestV {
        method: "PUT"@,
        url,
        headers: seq![
            ("If-None-Match"@, "*"@),
            ("Content-Type"@, "text/calendar; charset=utf-8"@),
        ],
        body: Some(ical),
    }
}

pub open spec fn delete_request_of(url: Seq<char>, etag: Seq<char>) -> RequestV {
    RequestV { method: "DELETE"@, url, headers: seq![("If-Match"@, etag)], body: None }
}

pub open spec fn get_request_of(url: Seq<char>) -> RequestV {
    RequestV { method: "GET"@, url, headers: Seq::empty(), body: None }
}

fn request(
    method: &str,
    url: &str,
    headers: Vec<(String, String)>,
    body: Option<&str>,
) -> (r: Request)
    ensures
        r@ == (RequestV {
            method: method@,
            url: url@,
            headers: header_views(headers@),
            body: opt_str(body),
        }),
{
    Request { method: method.to_owned(), url: url.to_owned(), headers, body: own_opt(body) }
}

/// A WebDAV request with an XML body.
pub fn dav_request(method: &str, url: &str, depth: &str, body: &str) -> (r: Request)
    ensures
        r@ == dav_request_of(method@, url@, depth@, body@),
{
    let mut h: Vec<(String, String)> = Vec::new();
    h.push(("Depth".to_owned(), depth.to_owned()));
    h.push(("Content-Type".to_owned(), "application/xml; charset=utf-8".to_owned()));
    assert(header_views(h@) =~= dav_request_of(method@, url@, depth@, body@).headers);
    request(method, url, h, Some(body))
}

/// A write of a task that the server must still have in the given version.
pub fn put_task_request(url: &str, ical_text: &str, if_match_etag: &str) -> (r: Request)
    ensures
        r@ == put_request_of(url@, ical_text@, if_match_etag@),
{
    let mut h: Vec<(String, String)> = Vec::new();
    h.push(("If-Match".to_owned(), if_match_etag.to_owned()));
    h.push(("Content-Type".to_owned(), "text/calendar; charset=utf-8".to_owned()));
    assert(header_views(h@) =~= put_request_of(url@, ical_text@, if_match_etag@).headers);
    request("PUT", url, h, Some(ical_text))
}

/// A write of a task that the server must not have yet.
pub fn create_task_request(url: &str, ical_text: &str) -> (r: Request)
    ensures
        r@ == create_request_of(url@, ical_text@),
{
    let mut h: Vec<(String, String)> = Vec::new();
    h.push(("If-None-Match".to_owned(), "*".to_owned()));
    h.push(("Content-Type".to_owned(), "text/calendar; charset=utf-8".to_owned()));
    assert(header_views(h@) =~= create_request_of(url@, ical_text@).headers);
    request("PUT", url, h, Some(ical_text))
}

/// A delete of a task that the server must still have in the given version.
pub fn delete_task_request(url: &str, if_match_etag: &str) -> (r: Request)
    ensures
        r@ == delete_request_of(url@, if_match_etag@),
{
    let mut h: Vec<(String, String)> = Vec::new();
    h.push(("If-Match".to_owned(), if_match_etag.to_owned()));
    assert(header_views(h@) =~= delete_request_of(url@, if_match_etag@).headers);
    request("DELETE", url, h, None)
}

/// A read of a task.
pub fn get_task_request(url: &str) -> (r: Request)
    ensures
        r@ == get_request_of(url@),
{
    let h: Vec<(String, String)> = Vec::new();
    assert(header_views(h@) =~= Seq::empty());
    request("GET", url, h, None)
}

// --- What a reply means ---

/// What became of a conditional write.
#[derive(Debug)]
pub enum WriteOutcome {
    Updated(String),
    PreconditionFailed,
}

pub enum WriteOutcomeV {
    Updated(Seq<char>),
    PreconditionFailed,
}

impl View for WriteOutcome {
    type V = WriteOutcomeV;

    open spec fn view(&self) -> WriteOutcomeV {
        match self {
            WriteOutcome::Updated(e) => WriteOutcomeV::Updated(e@),
            WriteOutcome::PreconditionFailed => WriteOutcomeV::PreconditionFailed,
        }
    }
}

/// What became of a conditional delete.
#[derive(Debug, Clone, Copy, PartialEq, Eq, Structural)]
pub enum DeleteOutcome {
    Deleted,
    NotFound,
    PreconditionFailed,
}

/// A successful answer to a WebDAV request.
#[derive(Debug)]
pub struct DavResp {
    pub status: u16,
    pub body: String,
    pub final_url: String,
}

pub struct DavRespV {
    pub status: u16,
    pub body: Seq<char>,
    pub final_url: Seq<char>,
}

impl View for DavResp {
    type V = DavRespV;

    open spec fn view(&self) -> DavRespV {
        DavRespV { status: self.status, body: self.body@, final_url: self.final_url@ }
    }
}

pub open spec fn dav_meaning(url: Seq<char>, reply: ReplyV) -> Result<DavRespV, FailureV> {
    match reply {
        ReplyV::Failed(f) => Err(in_context(f, "sending request to "@ + url)),
        ReplyV::Answered(a) => match a.body {
            Err(f) => Err(in_context(f, "reading body from "@ + url)),
            Ok(body) => if succeeded(a.status) {
                Ok(DavRespV { status: a.status, body, final_url: a.final_url })
            } else {
                Err(refused(url, a, body))
            },
        },
    }
}

pub open spec fn put_meaning(url: Seq<char>, reply: ReplyV) -> Result<WriteOutcomeV, FailureV> {
    match reply {
        ReplyV::Failed(f) => Err(in_context(f, "PUT "@ + url)),
        ReplyV::Answered(a) => if a.status == 412 {
            Ok(WriteOutcomeV::PreconditionFailed)
        } else if !succeeded(a.status) {
            Err(refused("PUT "@ + url, a, body_or_empty(a)))
        } else {
            match a.etag {
                Some(e) => Ok(WriteOutcomeV::Updated(e)),
                None => Err(
                    plain(
                        "PUT "@ + url + " succeeded ("@ + a.status_text
                            + ") but no ETag in response"@,
                    ),
                ),
            }
        },
    }
}

pub open spec fn delete_meaning(url: Seq<char>, reply: ReplyV) -> Result<DeleteOutcome, FailureV> {
    match reply {
        ReplyV::Failed(f) => Err(in_context(f, "DELETE "@ + url)),
        ReplyV::Answered(a) => if a.status == 412 {
            Ok(DeleteOutcome::PreconditionFailed)
        } else if gone(a.status) {
            Ok(DeleteOutcome::NotFound)
        } else if !succeeded(a.status) {
            Err(refused("DELETE "@ + url, a, body_or_empty(a)))
        } else {
            Ok(DeleteOutcome::Deleted)
        },
    }
}

/// The version and text of the task, none where the server does not have it.
pub open spec fn get_meaning(url: Seq<char>, reply: ReplyV) -> Result<
    Option<(Seq<char>, Seq<char>)>,
    FailureV,
> {
    match reply {
        ReplyV::Failed(f) => Err(in_context(f, "GET "@ + url)),
        ReplyV::Answered(a) => if gone(a.status) {
            Ok(None)
        } else {
            match a.body {
                Err(f) => Err(in_context(f, "reading GET body from "@ + url)),
                Ok(body) => if !succeeded(a.status) {
                    Err(refused("GET "@ + url, a, body))
                } else {
                    match a.etag {
                        Some(e) => Ok(Some((e, crlf(body)))),
                        None => Err(
                            plain("GET "@ + url + " succeeded but no ETag in response"@),
                        ),
                    }
                },
            }
        },
    }
}

pub open spec fn dav_result(r: Result<DavResp, Failure>) -> Result<DavRespV, FailureV> {
    match r {
        Ok(d) => Ok(d@),
        Err(e) => Err(e@),
    }
}

pub open spec fn write_result(r: Result<WriteOutcome, Failure>) -> Result<WriteOutcomeV, FailureV> {
    match r {
        Ok(d) => Ok(d@),
        Err(e) => Err(e@),
    }
}

pub open spec fn delete_result(r: Result<DeleteOutcome, Failure>) -> Result<
    DeleteOutcome,
    FailureV,
> {
    match r {
        Ok(d) => Ok(d),
        Err(e) => Err(e@),
    }
}

pub open spec fn got(o: Option<(String, String)>) -> Option<(Seq<char>, Seq<char>)> {
    match o {
        Some(p) => Some((p.0@, p.1@)),
        None => None,
    }
}

pub open spec fn get_result(r: Result<Option<(String, String)>, Failure>) -> Result<
    Option<(Seq<char>, Seq<char>)>,
    FailureV,
> {
    match r {
        Ok(o) => Ok(got(o)),
        Err(e) => Err(e@),
    }
}

fn is_success(status: u16) -> (r: bool)
    ensures
        r == succeeded(status),
{
    200 <= status && status < 300
}

fn prefixed(prefix: &str, s: &str) -> (r: String)
    ensures
        r@ == prefix@ + s@,
{
    let mut r = prefix.to_owned();
    r.append(s);
    r
}

fn refusal(what: &str, a: &Answer, body: &str) -> (f: Failure)
    ensures
        f@ == refused(what@, a@, body@),
{
    let mut m = what.to_owned();
    m.append(" -> ");
    m.append(a.status_text.as_str());
    m.append(": ");
    m.append(body);
    Failure::from_message(m)
}

fn body_text(a: &Answer) -> (s: &str)
    ensures
        s@ == body_or_empty(a@),
{
    match &a.body {
        Ok(s) => s.as_str(),
        Err(_) => "",
    }
}

/// Reads the reply to a WebDAV request.
pub fn dav_outcome(url: &str, reply: &Reply) -> (r: Result<DavResp, Failure>)
    ensures
        dav_result(r) == dav_meaning(url@, reply@),
{
    match reply {
        Reply::Failed(f) => Err(f.copy().context(prefixed("sending request to ", url).as_str())),
        Reply::Answered(a) => match &a.body {
            Err(f) => Err(f.copy().context(prefixed("reading body from ", url).as_str())),
            Ok(body) => if is_success(a.status) {
                Ok(
                    DavResp {
                        status: a.status,
                        body: body.clone(),
                        final_url: a.final_url.clone(),
                    },
                )
            } else {
                Err(refusal(url, a, body.as_str()))
            },
        },
    }
}

/// Reads the reply to a conditional write.
pub fn put_task_outcome(url: &str, reply: &Reply) -> (r: Result<WriteOutcome, Failure>)
    ensures
        write_result(r) == put_meaning(url@, reply@),
{
    let what = prefixed("PUT ", url);
    match reply {
        Reply::Failed(f) => Err(f.copy().context(what.as_str())),
        Reply::Answered(a) => {
            if a.status == 412 {
                return Ok(WriteOutcome::PreconditionFailed);
            }
            if !is_success(a.status) {
                return Err(refusal(what.as_str(), a, body_text(a)));
            }
            match &a.etag {
                Some(e) => Ok(WriteOutcome::Updated(e.clone())),
                None => {
                    let mut m = what;
                    m.append(" succeeded (");
                    m.append(a.status_text.as_str());
                    m.append(") but no ETag in response");
                    Err(Failure::from_message(m))
                },
            }
        },
    }
}

/// Reads the reply to a conditional delete.
pub fn delete_task_outcome(url: &str, reply: &Reply) -> (r: Result<DeleteOutcome, Failure>)
    ensures
        delete_result(r) == delete_meaning(url@, reply@),
{
    let what = prefixed("DELETE ", url);
    match reply {
        Reply::Failed(f) => Err(f.copy().context(what.as_str())),
        Reply::Answered(a) => {
            if a.status == 412 {
                return Ok(DeleteOutcome::PreconditionFailed);
            }
            if a.status == 404 || a.status == 410 {
                return Ok(DeleteOutcome::NotFound);
            }
            if !is_success(a.status) {
                return Err(refusal(what.as_str(), a, body_text(a)));
            }
            Ok(DeleteOutcome::Deleted)
        },
    }
}

/// Reads the reply to a read of a task: its version and its text with every line
/// ending as CRLF, or nothing where the server does not have it.
pub fn get_task_outcome(url: &str, reply: &Reply) -> (r: Result<
    Option<(String, String)>,
    Failure,
>)
    ensures
        get_result(r) == get_meaning(url@, reply@),
{
    let what = prefixed("GET ", url);
    match reply {
        Reply::Failed(f) => Err(f.copy().context(what.as_str())),
        Reply::Answered(a) => {
            if a.status == 404 || a.status == 410 {
                return Ok(None);
            }
            match &a.body {
                Err(f) => Err(f.copy().context(prefixed("reading GET body from ", url).as_str())),
                Ok(body) => {
                    if !is_success(a.status) {
                        return Err(refusal(what.as_str(), a, body.as_str()));
                    }
                    match &a.etag {
                        Some(e) => Ok(Some((e.clone(), ensure_crlf(body.as_str())))),
                        None => {
                            let mut m = what;
                            m.append(" succeeded but no ETag in response");
                            Err(Failure::from_message(m))
                        },
                    }
                },
            }
        },
    }
}

} // verus!
