//! Exchanges of several requests with the server. Each is driven by the replies
//! so far: it names the next request, or the result.
use vstd::prelude::*;
use crate::clock::{fresh_uuid, stamp_like, utc_stamp, uuid_like};
use crate::failure::{in_context, plain, Failure, FailureV};
use crate::http::{
    create_request_of, create_task_request, delete_meaning, delete_request_of, delete_task_outcome,
    delete_task_request, get_meaning, get_request_of, get_task_outcome, get_task_request,
    put_meaning, put_request_of, put_task_outcome, put_task_request, reply_views, DeleteOutcome,
    Reply, ReplyV, Step, StepV, WriteOutcome, WriteOutcomeV,
};
use crate::task::{
    edit_text_at, edited, new_todo, new_todo_body, toggle_completion_at, toggled,
};
use crate::text::{borrow_opt, opt_str, opt_text};
use crate::weburl::{build_create_url, create_url};

verus! {

/// A change to a task that can be applied again to a newer text of it.
#[derive(Debug)]
pub enum Change {
    Toggle,
    /// A new summary, and a new due date where one is given: an empty one removes it.
    Edit { summary: String, due: Option<String> },
}

pub enum ChangeV {
    Toggle,
    Edit { summary: Seq<char>, due: Option<Seq<char>> },
}

impl View for Change {
    type V = ChangeV;

    open spec fn view(&self) -> ChangeV {
        match self {
            Change::Toggle => ChangeV::Toggle,
            Change::Edit { summary, due } => ChangeV::Edit {
                summary: summary@,
                due: opt_text(*due),
            },
        }
    }
}

/// `text` with the change applied at the time `now`.
pub open spec fn reapplied(change: ChangeV, text: Seq<char>, now: Seq<char>) -> Result<
    Seq<char>,
    FailureV,
> {
    match change {
        ChangeV::Toggle => match toggled(text, now) {
            Ok(t) => Ok(t.0),
            Err(e) => Err(
                in_context(e, "reapplying mutation to fresh iCalendar body for 412 retry"@),
            ),
        },
        ChangeV::Edit { summary, due } => Ok(edited(text, summary, due, now)),
    }
}

fn reapply(change: &Change, text: &str, now: &str) -> (r: Result<String, Failure>)
    ensures
        match reapplied(change@, text@, now@) {
            Ok(t) => r is Ok && r->Ok_0@ == t,
            Err(e) => r is Err && r->Err_0@ == e,
        },
{
    match change {
        Change::Toggle => match toggle_completion_at(text, now) {
            Ok((t, _, _)) => Ok(t),
            Err(e) => Err(
                e.context("reapplying mutation to fresh iCalendar body for 412 retry"),
            ),
        },
        Change::Edit { summary, due } => Ok(
            edit_text_at(text, summary.as_str(), borrow_opt(due), now),
        ),
    }
}

// --- Writing with one retry ---

/// The new version, the text that was written, and whether it took a retry.
pub type Written = (String, String, bool);

pub type WrittenV = (Seq<char>, Seq<char>, bool);

pub open spec fn put_step(s: Step<Result<Written, Failure>>) -> StepV<Result<WrittenV, FailureV>> {
    match s {
        Step::Send(r) => StepV::Send(r@),
        Step::Done(Ok(w)) => StepV::Done(Ok((w.0@, w.1@, w.2))),
        Step::Done(Err(e)) => StepV::Done(Err(e@)),
    }
}

/// The second write, of `text` over the version `etag`.
pub open spec fn second_put(
    url: Seq<char>,
    text: Seq<char>,
    etag: Seq<char>,
    replies: Seq<ReplyV>,
) -> StepV<Result<WrittenV, FailureV>> {
    if replies.len() <= 2 {
        StepV::Send(put_request_of(url, text, etag))
    } else {
        match put_meaning(url, replies[2]) {
            Err(e) => StepV::Done(Err(e)),
            Ok(WriteOutcomeV::Updated(e)) => StepV::Done(Ok((e, text, true))),
            Ok(WriteOutcomeV::PreconditionFailed) => StepV::Done(
                Err(
                    plain(
                        "412 Precondition Failed twice in a row -- task keeps being modified concurrently. Tap Sync, then try again."@,
                    ),
                ),
            ),
        }
    }
}

/// The read of the server's version after a refused write.
pub open spec fn put_refetch(
    url: Seq<char>,
    change: ChangeV,
    replies: Seq<ReplyV>,
    now: Seq<char>,
) -> StepV<Result<WrittenV, FailureV>> {
    if replies.len() <= 1 {
        StepV::Send(get_request_of(url))
    } else {
        match get_meaning(url, replies[1]) {
            Err(e) => StepV::Done(Err(e)),
            Ok(None) => StepV::Done(
                Err(
                    plain(
                        "412 on PUT, then 404 on refetch -- task was deleted between attempts. Tap Sync to reconcile."@,
                    ),
                ),
            ),
            Ok(Some(fresh)) => match reapplied(change, fresh.1, now) {
                Err(e) => StepV::Done(Err(e)),
                Ok(text) => second_put(url, text, fresh.0, replies),
            },
        }
    }
}

/// A write of `ical` over the version `etag`. Where the server has a newer
/// version, that one is read, changed, and written, once.
pub open spec fn put_exchange(
    url: Seq<char>,
    etag: Seq<char>,
    ical: Seq<char>,
    change: ChangeV,
    replies: Seq<ReplyV>,
    now: Seq<char>,
) -> StepV<Result<WrittenV, FailureV>> {
    if replies.len() == 0 {
        StepV::Send(put_request_of(url, ical, etag))
    } else {
        match put_meaning(url, replies[0]) {
            Err(e) => StepV::Done(Err(e)),
            Ok(WriteOutcomeV::Updated(e)) => StepV::Done(Ok((e, ical, false))),
            Ok(WriteOutcomeV::PreconditionFailed) => put_refetch(url, change, replies, now),
        }
    }
}

fn after_refetch(
    task_url: &str,
    change: &Change,
    replies: &Vec<Reply>,
    now: &str,
) -> (s: Step<Result<Written, Failure>>)
    ensures
        put_step(s) == put_refetch(task_url@, change@, reply_views(replies@), now@),
{
    if replies.len() <= 1 {
        return Step::Send(get_task_request(task_url));
    }
    match get_task_outcome(task_url, &replies[1]) {
        Err(e) => Step::Done(Err(e)),
        Ok(None) => Step::Done(
            Err(
                Failure::new(
                    "412 on PUT, then 404 on refetch -- task was deleted between attempts. Tap Sync to reconcile.",
                ),
            ),
        ),
        Ok(Some((fresh_etag, fresh_ical))) => match reapply(change, fresh_ical.as_str(), now) {
            Err(e) => Step::Done(Err(e)),
            Ok(text) => {
                if replies.len() <= 2 {
                    return Step::Send(
                        put_task_request(task_url, text.as_str(), fresh_etag.as_str()),
                    );
                }
                match put_task_outcome(task_url, &replies[2]) {
                    Err(e) => Step::Done(Err(e)),
                    Ok(WriteOutcome::Updated(e)) => Step::Done(Ok((e, text, true))),
                    Ok(WriteOutcome::PreconditionFailed) => Step::Done(
                        Err(
                            Failure::new(
                                "412 Precondition Failed twice in a row -- task keeps being modified concurrently. Tap Sync, then try again.",
                            ),
                        ),
                    ),
                }
            },
        },
    }
}

/// Writes a task, with one retry on the server's newer version. `cached_ical`
/// holds the change already; `change` is applied again to what the server has. `now`
/// stamps that, and stays the same over the steps of one write.
pub fn put_task_with_retry(
    task_url: &str,
    cached_etag: &str,
    cached_ical: &str,
    change: &Change,
    replies: &Vec<Reply>,
    now: &str,
) -> (s: Step<Result<Written, Failure>>)
    ensures
        put_step(s) == put_exchange(
            task_url@,
            cached_etag@,
            cached_ical@,
            change@,
            reply_views(replies@),
            now@,
        ),
{
    if replies.len() == 0 {
        return Step::Send(put_task_request(task_url, cached_ical, cached_etag));
    }
    match put_task_outcome(task_url, &replies[0]) {
        Err(e) => Step::Done(Err(e)),
        Ok(WriteOutcome::Updated(e)) => Step::Done(Ok((e, cached_ical.to_owned(), false))),
        Ok(WriteOutcome::PreconditionFailed) => after_refetch(task_url, change, replies, now),
    }
}

// --- Deleting with one retry ---

pub open spec fn delete_step(s: Step<Result<bool, Failure>>) -> StepV<Result<bool, FailureV>> {
    match s {
        Step::Send(r) => StepV::Send(r@),
        Step::Done(Ok(b)) => StepV::Done(Ok(b)),
        Step::Done(Err(e)) => StepV::Done(Err(e@)),
    }
}

/// A delete of the version `etag`, done where the task is gone. Where the server
/// has a newer version, that one is deleted, once. The result says whether that
/// was needed.
pub open spec fn delete_exchange(url: Seq<char>, etag: Seq<char>, replies: Seq<ReplyV>) -> StepV<
    Result<bool, FailureV>,
> {
    if replies.len() == 0 {
        StepV::Send(delete_request_of(url, etag))
    } else {
        match delete_meaning(url, replies[0]) {
            Err(e) => StepV::Done(Err(e)),
            Ok(DeleteOutcome::PreconditionFailed) => if replies.len() <= 1 {
                StepV::Send(get_request_of(url))
            } else {
                match get_meaning(url, replies[1]) {
                    Err(e) => StepV::Done(Err(e)),
                    Ok(None) => StepV::Done(Ok(true)),
                    Ok(Some(fresh)) => if replies.len() <= 2 {
                        StepV::Send(delete_request_of(url, fresh.0))
                    } else {
                        match delete_meaning(url, replies[2]) {
                            Err(e) => StepV::Done(Err(e)),
                            Ok(DeleteOutcome::PreconditionFailed) => StepV::Done(
                                Err(
                                    plain(
                                        "412 Precondition Failed twice in a row on DELETE -- task keeps being modified concurrently. Tap Sync, then try again."@,
                                    ),
                                ),
                            ),
                            Ok(_) => StepV::Done(Ok(true)),
                        }
                    },
                }
            },
            Ok(_) => StepV::Done(Ok(false)),
        }
    }
}

/// Deletes a task, with one retry on the server's newer version.
pub fn delete_task_with_retry(
    task_url: &str,
    cached_etag: &str,
    replies: &Vec<Reply>,
) -> (s: Step<Result<bool, Failure>>)
    ensures
        delete_step(s) == delete_exchange(task_url@, cached_etag@, reply_views(replies@)),
{
    if replies.len() == 0 {
        return Step::Send(delete_task_request(task_url, cached_etag));
    }
    match delete_task_outcome(task_url, &replies[0]) {
        Err(e) => Step::Done(Err(e)),
        Ok(DeleteOutcome::PreconditionFailed) => {
            if replies.len() <= 1 {
                return Step::Send(get_task_request(task_url));
            }
            match get_task_outcome(task_url, &replies[1]) {
                Err(e) => Step::Done(Err(e)),
                Ok(None) => Step::Done(Ok(true)),
                Ok(Some((fresh_etag, _))) => {
                    if replies.len() <= 2 {
                        return Step::Send(delete_task_request(task_url, fresh_etag.as_str()));
                    }
                    match delete_task_outcome(task_url, &replies[2]) {
                        Err(e) => Step::Done(Err(e)),
                        Ok(DeleteOutcome::PreconditionFailed) => Step::Done(
                            Err(
                                Failure::new(
                                    "412 Precondition Failed twice in a row on DELETE -- task keeps being modified concurrently. Tap Sync, then try again.",
                                ),
                            ),
                        ),
                        Ok(_) => Step::Done(Ok(true)),
                    }
                },
            }
        },
        Ok(_) => Step::Done(Ok(false)),
    }
}

// --- Creating ---

/// The version and the text of a created task.
pub open spec fn create_step(s: Step<Result<(String, String), Failure>>) -> StepV<
    Result<(Seq<char>, Seq<char>), FailureV>,
> {
    match s {
        Step::Send(r) => StepV::Send(r@),
        Step::Done(Ok(p)) => StepV::Done(Ok((p.0@, p.1@))),
        Step::Done(Err(e)) => StepV::Done(Err(e@)),
    }
}

/// A write of a new task, refused where there is one already.
pub open spec fn create_exchange(url: Seq<char>, ical: Seq<char>, replies: Seq<ReplyV>) -> StepV<
    Result<(Seq<char>, Seq<char>), FailureV>,
> {
    if replies.len() == 0 {
        StepV::Send(create_request_of(url, ical))
    } else {
        match put_meaning(url, replies[0]) {
            Err(e) => StepV::Done(Err(e)),
            Ok(WriteOutcomeV::Updated(e)) => StepV::Done(Ok((e, ical))),
            Ok(WriteOutcomeV::PreconditionFailed) => StepV::Done(
                Err(
                    plain(
                        "412 on create -- UID collision (should never happen with v4 UUIDs). Tap Create again."@,
                    ),
                ),
            ),
        }
    }
}

/// Writes a new task at its URL.
pub fn put_task_create(task_url: &str, ical_text: &str, replies: &Vec<Reply>) -> (s: Step<
    Result<(String, String), Failure>,
>)
    ensures
        create_step(s) == create_exchange(task_url@, ical_text@, reply_views(replies@)),
{
    if replies.len() == 0 {
        return Step::Send(create_task_request(task_url, ical_text));
    }
    match put_task_outcome(task_url, &replies[0]) {
        Err(e) => Step::Done(Err(e)),
        Ok(WriteOutcome::Updated(e)) => Step::Done(Ok((e, ical_text.to_owned()))),
        Ok(WriteOutcome::PreconditionFailed) => Step::Done(
            Err(
                Failure::new(
                    "412 on create -- UID collision (should never happen with v4 UUIDs). Tap Create again.",
                ),
            ),
        ),
    }
}

/// Writes a new task whose identifier was chosen before, with its due date.
pub fn put_task_create_with_due(
    task_url: &str,
    uid: &str,
    summary: &str,
    due: Option<&str>,
    replies: &Vec<Reply>,
    now: &str,
) -> (s: Step<Result<(String, String), Failure>>)
    ensures
        create_step(s) == create_exchange(
            task_url@,
            new_todo(uid@, summary@, opt_str(due), now@),
            reply_views(replies@),
        ),
{
    let ical = new_todo_body(uid, summary, due, now);
    put_task_create(task_url, ical.as_str(), replies)
}

/// Writes a new task whose identifier was chosen before, without a due date.
pub fn put_task_create_with_uid(
    task_url: &str,
    uid: &str,
    summary: &str,
    replies: &Vec<Reply>,
    now: &str,
) -> (s: Step<Result<(String, String), Failure>>)
    ensures
        create_step(s) == create_exchange(
            task_url@,
            new_todo(uid@, summary@, None, now@),
            reply_views(replies@),
        ),
{
    put_task_create_with_due(task_url, uid, summary, None, replies, now)
}

/// The URL and the text of a new task with the identifier `uid`.
pub open spec fn task_to_create(
    calendar_url: Seq<char>,
    summary: Seq<char>,
    uid: Seq<char>,
    now: Seq<char>,
) -> Result<(Seq<char>, Seq<char>), FailureV> {
    match create_url(calendar_url, uid) {
        Ok(u) => Ok((u, new_todo(uid, summary, None, now))),
        Err(e) => Err(in_context(plain(e), "building task URL"@)),
    }
}

pub open spec fn create_plan(r: Result<(String, String), Failure>) -> Result<
    (Seq<char>, Seq<char>),
    FailureV,
> {
    match r {
        Ok(p) => Ok((p.0@, p.1@)),
        Err(e) => Err(e@),
    }
}

/// Lays out a new task with a given identifier.
pub fn plan_create_task_at(calendar_url: &str, summary: &str, uid: &str, now: &str) -> (r: Result<
    (String, String),
    Failure,
>)
    ensures
        create_plan(r) == task_to_create(calendar_url@, summary@, uid@, now@),
{
    match build_create_url(calendar_url, uid) {
        Ok(u) => Ok((u, new_todo_body(uid, summary, None, now))),
        Err(e) => Err(e.context("building task URL")),
    }
}

/// Lays out a new task with a fresh identifier. The pair of URL and text is what
/// `put_task_create` writes.
pub fn create_task(calendar_url: &str, summary: &str) -> (r: Result<(String, String), Failure>)
    ensures
        exists|uid: Seq<char>, now: Seq<char>|
            uuid_like(uid) && stamp_like(now) && create_plan(r) == #[trigger] task_to_create(
                calendar_url@,
                summary@,
                uid,
                now,
            ),
{
    let uid = fresh_uuid();
    let now = utc_stamp();
    let r = plan_create_task_at(calendar_url, summary, uid.as_str(), now.as_str());
    assert(uuid_like(uid@) && stamp_like(now@) && create_plan(r) == task_to_create(
        calendar_url@,
        summary@,
        uid@,
        now@,
    ));
    r
}

} // verus!
