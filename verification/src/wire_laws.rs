//! What goes over the wire for every operation, and what the answers to it mean, by the
//! requests and the statuses themselves.
use vstd::prelude::*;
use crate::exchange::{reapplied, task_to_create, ChangeV};
use crate::failure::{in_context, plain, FailureV};
use crate::http::{
    create_request_of, dav_meaning, dav_request_of, delete_meaning, delete_request_of, get_meaning,
    get_request_of, put_meaning, put_request_of, AnswerV, DeleteOutcome, ReplyV, RequestV, StepV,
    WriteOutcomeV,
};
use crate::ical::crlf;
use crate::queue::{
    classified, dispatched_on, names_status, payload_due, payload_summary, text_to_create,
    with_change, ExecOutcomeV,
};
use crate::queue_laws::{law_double_refusal_is_conflict, law_double_refused_delete};
use crate::store::{PendingOpV, TaskRowV};
use crate::task::new_todo;
use crate::text::{decimal, digit, has_sub, stands_at};
use crate::weburl::{create_url, task_url};

verus! {

// --- Requests ---

/// The request has this header.
pub open spec fn carries(r: RequestV, name: Seq<char>, value: Seq<char>) -> bool {
    exists|i: int| 0 <= i < r.headers.len() && #[trigger] r.headers[i] == (name, value)
}

/// A conditional write of `text` over the version `etag`.
pub open spec fn writes_over(r: RequestV, url: Seq<char>, text: Seq<char>, etag: Seq<char>) -> bool {
    &&& r.method == "PUT"@ && r.url == url && r.body == Some(text)
    &&& r.headers.len() == 2
    &&& carries(r, "If-Match"@, etag)
    &&& carries(r, "Content-Type"@, "text/calendar; charset=utf-8"@)
}

/// A write of `text` where nothing is yet.
pub open spec fn writes_new(r: RequestV, url: Seq<char>, text: Seq<char>) -> bool {
    &&& r.method == "PUT"@ && r.url == url && r.body == Some(text)
    &&& r.headers.len() == 2
    &&& carries(r, "If-None-Match"@, "*"@)
    &&& carries(r, "Content-Type"@, "text/calendar; charset=utf-8"@)
}

/// A conditional delete of the version `etag`.
pub open spec fn deletes(r: RequestV, url: Seq<char>, etag: Seq<char>) -> bool {
    &&& r.method == "DELETE"@ && r.url == url && r.body is None
    &&& r.headers.len() == 1
    &&& carries(r, "If-Match"@, etag)
}

/// A plain read.
pub open spec fn fetches(r: RequestV, url: Seq<char>) -> bool {
    r.method == "GET"@ && r.url == url && r.body is None && r.headers.len() == 0
}

/// What each request for a task is: a write or a delete is conditional on the version that
/// is handed in, a create on there being none.
pub proof fn law_requests(url: Seq<char>, text: Seq<char>, etag: Seq<char>)
    ensures
        writes_over(put_request_of(url, text, etag), url, text, etag),
        writes_new(create_request_of(url, text), url, text),
        deletes(delete_request_of(url, etag), url, etag),
        fetches(get_request_of(url), url),
{
    let a = put_request_of(url, text, etag);
    assert(a.headers[0] == ("If-Match"@, etag));
    assert(a.headers[1] == ("Content-Type"@, "text/calendar; charset=utf-8"@));
    let b = create_request_of(url, text);
    assert(b.headers[0] == ("If-None-Match"@, "*"@));
    assert(b.headers[1] == ("Content-Type"@, "text/calendar; charset=utf-8"@));
    let c = delete_request_of(url, etag);
    assert(c.headers[0] == ("If-Match"@, etag));
}

/// What a WebDAV request is: the method, the address, the depth and the XML body that are
/// handed in.
pub proof fn law_dav_request(method: Seq<char>, url: Seq<char>, depth: Seq<char>, body: Seq<char>)
    ensures
        ({
            let r = dav_request_of(method, url, depth, body);
            &&& r.method == method && r.url == url && r.body == Some(body)
            &&& r.headers.len() == 2
            &&& carries(r, "Depth"@, depth)
            &&& carries(r, "Content-Type"@, "application/xml; charset=utf-8"@)
        }),
{
    let r = dav_request_of(method, url, depth, body);
    assert(r.headers[0] == ("Depth"@, depth));
    assert(r.headers[1] == ("Content-Type"@, "application/xml; charset=utf-8"@));
}

// --- Answers ---

/// The answer reports success.
pub open spec fn is_fine(a: AnswerV) -> bool {
    200 <= a.status <= 299
}

/// What an answer to a write means: the new version where it succeeded and has one, a
/// refusal where the version is not the server's, and else a failure.
pub proof fn law_write_answers(url: Seq<char>, a: AnswerV)
    ensures
        match put_meaning(url, ReplyV::Answered(a)) {
            Ok(WriteOutcomeV::Updated(e)) => is_fine(a) && a.etag == Some(e),
            Ok(WriteOutcomeV::PreconditionFailed) => a.status == 412,
            Err(f) => a.status != 412 && (is_fine(a) ==> a.etag is None) && f.network is None,
        },
{
}

/// What an answer to a delete means: gone is as good as deleted.
pub proof fn law_delete_answers(url: Seq<char>, a: AnswerV)
    ensures
        match delete_meaning(url, ReplyV::Answered(a)) {
            Ok(DeleteOutcome::Deleted) => is_fine(a),
            Ok(DeleteOutcome::NotFound) => a.status == 404 || a.status == 410,
            Ok(DeleteOutcome::PreconditionFailed) => a.status == 412,
            Err(f) => !is_fine(a) && a.status != 412 && a.status != 404 && a.status != 410
                && f.network is None,
        },
{
}

/// What an answer to a read means: the version and the body of one answer, none where the
/// task is gone, and else a failure.
pub proof fn law_read_answers(url: Seq<char>, a: AnswerV)
    ensures
        match get_meaning(url, ReplyV::Answered(a)) {
            Ok(Some(fresh)) => is_fine(a) && a.etag == Some(fresh.0) && a.body is Ok && fresh.1
                == crlf(a.body->Ok_0),
            Ok(None) => a.status == 404 || a.status == 410,
            Err(_) => a.status != 404 && a.status != 410 && (is_fine(a) ==> a.etag is None || a.body
                is Err),
        },
{
}

/// What an answer to a WebDAV request means: its body, and the address that it came from.
pub proof fn law_dav_answers(url: Seq<char>, a: AnswerV)
    ensures
        match dav_meaning(url, ReplyV::Answered(a)) {
            Ok(d) => is_fine(a) && a.body is Ok && d.body == a.body->Ok_0 && d.final_url
                == a.final_url && d.status == a.status,
            Err(_) => is_fine(a) ==> a.body is Err,
        },
{
}

/// A request that got no answer is a failure of the same kind whatever was asked: one of the
/// network stays one of the network.
pub proof fn law_unanswered(url: Seq<char>, f: FailureV)
    ensures
        put_meaning(url, ReplyV::Failed(f)) matches Err(e) && e.network == f.network,
        delete_meaning(url, ReplyV::Failed(f)) matches Err(e) && e.network == f.network,
        get_meaning(url, ReplyV::Failed(f)) matches Err(e) && e.network == f.network,
        dav_meaning(url, ReplyV::Failed(f)) matches Err(e) && e.network == f.network,
{
}

// --- What a failure means ---

/// The text `words` stands in `text`.
pub open spec fn holds(text: Seq<char>, words: Seq<char>) -> bool {
    exists|i: int|
        0 <= i && i + words.len() <= text.len() && #[trigger] text.subrange(i, i + words.len())
            == words
}

/// The two ways to say that words stand in a text.
pub proof fn lemma_holds(text: Seq<char>, words: Seq<char>)
    ensures
        has_sub(text, words) == holds(text, words),
{
    if has_sub(text, words) {
        let i = choose|i: int| stands_at(text, words, i);
        assert(text.subrange(i, i + words.len()) == words);
    }
    if holds(text, words) {
        let i = choose|i: int|
            0 <= i && i + words.len() <= text.len() && #[trigger] text.subrange(
                i,
                i + words.len(),
            ) == words;
        assert(stands_at(text, words, i));
    }
}

/// A failure is final where it is not the network's and names a conflict, a taken
/// identifier, a vanished task, or one of the statuses after which a retry is pointless; and
/// nowhere else.
pub proof fn law_final_failures(f: FailureV)
    ensures
        classified(f) is Terminal == (f.network is None && (holds(
            f.message,
            "412 Precondition Failed twice in a row"@,
        ) || holds(f.message, "412 on create -- UID collision"@) || holds(
            f.message,
            "then 404 on refetch"@,
        ) || holds(f.message, " 401 "@) || holds(f.message, " 403 "@) || holds(f.message, " 404 "@)
            || holds(f.message, " 409 "@) || holds(f.message, " 410 "@))),
        classified(f) is Transient == !(classified(f) is Terminal),
        classified(f) == ExecOutcomeV::Terminal("double-412 (server-side conflict)"@) || !(
        f.network is None && holds(f.message, "412 Precondition Failed twice in a row"@)),
{
    lemma_holds(f.message, "412 Precondition Failed twice in a row"@);
    lemma_holds(f.message, "412 on create -- UID collision"@);
    lemma_holds(f.message, "then 404 on refetch"@);
    reveal_strlit(" 401 ");
    reveal_strlit(" 403 ");
    reveal_strlit(" 404 ");
    reveal_strlit(" 409 ");
    reveal_strlit(" 410 ");
    lemma_code(f.message, 401, " 401 "@);
    lemma_code(f.message, 403, " 403 "@);
    lemma_code(f.message, 404, " 404 "@);
    lemma_code(f.message, 409, " 409 "@);
    lemma_code(f.message, 410, " 410 "@);
}

proof fn lemma_code(msg: Seq<char>, code: nat, words: Seq<char>)
    requires
        100 <= code < 1000,
        words.len() == 5,
        words[0] == ' ' && words[4] == ' ',
        words[1] == digit(code / 100),
        words[2] == digit(code / 10 % 10),
        words[3] == digit(code % 10),
    ensures
        names_status(msg, code) == holds(msg, words),
{
    reveal_strlit(" ");
    reveal_with_fuel(decimal, 4);
    assert(" "@ + decimal(code) + " "@ =~= words);
    lemma_holds(msg, words);
}

// --- What an operation asks for ---

/// The answer is a success with the version `etag`.
pub open spec fn grants(reply: ReplyV, etag: Seq<char>) -> bool {
    reply matches ReplyV::Answered(a) && is_fine(a) && a.etag == Some(etag)
}

/// The answer has this status.
pub open spec fn answers(reply: ReplyV, status: u16) -> bool {
    reply matches ReplyV::Answered(a) && a.status == status
}

/// The answer is a success with the version `etag` and the body `text`.
pub open spec fn hands_back(reply: ReplyV, etag: Seq<char>, text: Seq<char>) -> bool {
    reply matches ReplyV::Answered(a) && is_fine(a) && a.etag == Some(etag) && a.body is Ok
        && a.body->Ok_0 == text
}

/// The operation makes this change to the text of its task.
pub open spec fn asks_for(op: PendingOpV, change: ChangeV) -> bool {
    match change {
        ChangeV::Toggle => op.op_type == "toggle"@,
        ChangeV::Edit { summary, due } => op.op_type == "edit"@ && payload_summary(op.payload)
            == Some(summary) && payload_due(op.payload) == due,
    }
}

proof fn lemma_kinds()
    ensures
        "create"@ != "toggle"@ && "create"@ != "edit"@ && "create"@ != "delete"@,
        "toggle"@ != "edit"@ && "toggle"@ != "delete"@ && "edit"@ != "delete"@,
{
    reveal_strlit("create");
    reveal_strlit("toggle");
    reveal_strlit("edit");
    reveal_strlit("delete");
    assert("create"@[0] == 'c' && "toggle"@[0] == 't' && "delete"@[0] == 'd' && "edit"@[0] == 'e');
}

/// A toggle or an edit writes the text of its row, with the change, over the version of its
/// row. Where the server has a newer version it reads that, and writes the change of that
/// text over that version. What it ends with is the version of the last answer and the text
/// of the last write; a second refusal is a conflict, and a task that is gone is given up.
pub proof fn law_update_asks(
    row: TaskRowV,
    calendar_url: Seq<char>,
    op: PendingOpV,
    change: ChangeV,
    replies: Seq<ReplyV>,
    now: Seq<char>,
)
    requires
        asks_for(op, change),
        task_url(calendar_url, row.href) is Ok,
    ensures
        ({
            let url = task_url(calendar_url, row.href)->Ok_0;
            let text = with_change(row.ical_text, row.status, change, now);
            let out = dispatched_on(Some(row), calendar_url, op, replies, now);
            &&& replies.len() == 0 ==> (out matches StepV::Send(r) && writes_over(
                r,
                url,
                text,
                row.etag,
            ))
            &&& forall|e: Seq<char>|
                replies.len() > 0 && #[trigger] grants(replies[0], e) ==> out == StepV::Done(
                    ExecOutcomeV::SuccessUpdate { new_etag: e, new_ical: text, retried: false },
                )
            &&& replies.len() == 1 && answers(replies[0], 412) ==> (out matches StepV::Send(r)
                && fetches(r, url))
            &&& replies.len() > 1 && answers(replies[0], 412) && (answers(replies[1], 404)
                || answers(replies[1], 410)) ==> out == StepV::Done(
                ExecOutcomeV::Terminal("task disappeared during PUT retry"@),
            )
            &&& forall|e: Seq<char>, fresh: Seq<char>|
                replies.len() > 1 && answers(replies[0], 412) && #[trigger] hands_back(
                    replies[1],
                    e,
                    fresh,
                ) && reapplied(change, crlf(fresh), now) is Ok ==> {
                    let again = reapplied(change, crlf(fresh), now)->Ok_0;
                    &&& replies.len() == 2 ==> (out matches StepV::Send(r) && writes_over(
                        r,
                        url,
                        again,
                        e,
                    ))
                    &&& replies.len() > 2 && answers(replies[2], 412) ==> out == StepV::Done(
                        ExecOutcomeV::Terminal("double-412 (server-side conflict)"@),
                    )
                    &&& forall|e2: Seq<char>|
                        replies.len() > 2 && #[trigger] grants(replies[2], e2) ==> out
                            == StepV::Done(
                            ExecOutcomeV::SuccessUpdate {
                                new_etag: e2,
                                new_ical: again,
                                retried: true,
                            },
                        )
                }
            &&& replies.len() > 0 && (replies[0] matches ReplyV::Failed(f) && f.network is Some)
                ==> (out matches StepV::Done(o) && o is Transient)
        }),
{
    lemma_kinds();
    let url = task_url(calendar_url, row.href)->Ok_0;
    let text = with_change(row.ical_text, row.status, change, now);
    law_requests(url, text, row.etag);
    if replies.len() > 1 && answers(replies[0], 412) {
        if answers(replies[1], 404) || answers(replies[1], 410) {
            lemma_vanished();
        }
        assert forall|e: Seq<char>, fresh: Seq<char>| #[trigger]
            hands_back(replies[1], e, fresh) && reapplied(change, crlf(fresh), now) is Ok implies {
            let out = dispatched_on(Some(row), calendar_url, op, replies, now);
            let again = reapplied(change, crlf(fresh), now)->Ok_0;
            &&& replies.len() == 2 ==> (out matches StepV::Send(r) && writes_over(
                r,
                url,
                again,
                e,
            ))
            &&& replies.len() > 2 && answers(replies[2], 412) ==> out == StepV::Done(
                ExecOutcomeV::Terminal("double-412 (server-side conflict)"@),
            )
            &&& forall|e2: Seq<char>|
                replies.len() > 2 && #[trigger] grants(replies[2], e2) ==> out == StepV::Done(
                    ExecOutcomeV::SuccessUpdate { new_etag: e2, new_ical: again, retried: true },
                )
        } by {
            let again = reapplied(change, crlf(fresh), now)->Ok_0;
            law_requests(url, again, e);
            assert(get_meaning(url, replies[1]) == Ok::<_, FailureV>(Some((e, crlf(fresh)))));
            if replies.len() > 2 && answers(replies[2], 412) {
                law_double_refusal_is_conflict(url, row.etag, text, change, replies, now);
            }
        }
    }
}

proof fn lemma_starts(s: Seq<char>, p: Seq<char>, i: int)
    requires
        0 <= i,
        i + p.len() <= s.len(),
        forall|j: int| 0 <= j < p.len() ==> s[i + j] == #[trigger] p[j],
    ensures
        has_sub(s, p),
{
    assert(s.subrange(i, i + p.len()) =~= p);
    assert(stands_at(s, p, i));
}

proof fn lemma_vanished()
    ensures
        classified(
            plain(
                "412 on PUT, then 404 on refetch -- task was deleted between attempts. Tap Sync to reconcile."@,
            ),
        ) == ExecOutcomeV::Terminal("task disappeared during PUT retry"@),
{
    let m =
        "412 on PUT, then 404 on refetch -- task was deleted between attempts. Tap Sync to reconcile."@;
    reveal_strlit(
        "412 on PUT, then 404 on refetch -- task was deleted between attempts. Tap Sync to reconcile.",
    );
    reveal_strlit("then 404 on refetch");
    reveal_strlit("412 Precondition Failed twice in a row");
    reveal_strlit("412 on create -- UID collision");
    lemma_starts(m, "then 404 on refetch"@, 12);
    let p = "412 Precondition Failed twice in a row"@;
    assert(!has_sub(m, p)) by {
        if has_sub(m, p) {
            let i = choose|i: int| stands_at(m, p, i);
            assert(m.subrange(i, i + p.len())[4] == 'P');
            assert(m[i + 4] == 'P');
            assert(m.subrange(i, i + p.len())[5] == 'r');
            assert(m[i + 5] == 'r');
        }
    }
    let q = "412 on create -- UID collision"@;
    assert(!has_sub(m, q)) by {
        if has_sub(m, q) {
            let i = choose|i: int| stands_at(m, q, i);
            assert(m.subrange(i, i + q.len())[17] == 'U');
            assert(m[i + 17] == 'U');
            assert(m.subrange(i, i + q.len())[18] == 'I');
            assert(m[i + 18] == 'I');
        }
    }
}

/// A delete asks for the version of its row. Where the server has a newer version it reads
/// and deletes that one. It is done where the task is deleted or gone; a second refusal is a
/// conflict. Where the cache has no such task there is nothing to ask.
pub proof fn law_delete_asks(
    row: TaskRowV,
    calendar_url: Seq<char>,
    op: PendingOpV,
    replies: Seq<ReplyV>,
    now: Seq<char>,
)
    requires
        op.op_type == "delete"@,
        task_url(calendar_url, row.href) is Ok,
    ensures
        dispatched_on(None, calendar_url, op, replies, now) == StepV::Done(
            ExecOutcomeV::SuccessDelete { retried: false },
        ),
        ({
            let url = task_url(calendar_url, row.href)->Ok_0;
            let out = dispatched_on(Some(row), calendar_url, op, replies, now);
            let done = |reply: ReplyV|
                reply matches ReplyV::Answered(a) && (is_fine(a) || a.status == 404 || a.status
                    == 410);
            &&& replies.len() == 0 ==> (out matches StepV::Send(r) && deletes(r, url, row.etag))
            &&& replies.len() > 0 && done(replies[0]) ==> out == StepV::Done(
                ExecOutcomeV::SuccessDelete { retried: false },
            )
            &&& replies.len() == 1 && answers(replies[0], 412) ==> (out matches StepV::Send(r)
                && fetches(r, url))
            &&& replies.len() > 1 && answers(replies[0], 412) && (answers(replies[1], 404)
                || answers(replies[1], 410)) ==> out == StepV::Done(
                ExecOutcomeV::SuccessDelete { retried: true },
            )
            &&& forall|e: Seq<char>, fresh: Seq<char>|
                replies.len() > 1 && answers(replies[0], 412) && #[trigger] hands_back(
                    replies[1],
                    e,
                    fresh,
                ) ==> {
                    &&& replies.len() == 2 ==> (out matches StepV::Send(r) && deletes(r, url, e))
                    &&& replies.len() > 2 && done(replies[2]) ==> out == StepV::Done(
                        ExecOutcomeV::SuccessDelete { retried: true },
                    )
                    &&& replies.len() > 2 && answers(replies[2], 412) ==> out == StepV::Done(
                        ExecOutcomeV::Terminal("double-412 (server-side conflict)"@),
                    )
                }
        }),
{
    lemma_kinds();
    let url = task_url(calendar_url, row.href)->Ok_0;
    law_requests(url, Seq::empty(), row.etag);
    if replies.len() > 1 && answers(replies[0], 412) {
        let done = |reply: ReplyV|
            reply matches ReplyV::Answered(a) && (is_fine(a) || a.status == 404 || a.status == 410);
        assert forall|e: Seq<char>, fresh: Seq<char>| #[trigger] hands_back(
            replies[1],
            e,
            fresh,
        ) implies {
            let out = dispatched_on(Some(row), calendar_url, op, replies, now);
            &&& replies.len() == 2 ==> (out matches StepV::Send(r) && deletes(r, url, e))
            &&& replies.len() > 2 && done(replies[2]) ==> out == StepV::Done(
                ExecOutcomeV::SuccessDelete { retried: true },
            )
            &&& replies.len() > 2 && answers(replies[2], 412) ==> out == StepV::Done(
                ExecOutcomeV::Terminal("double-412 (server-side conflict)"@),
            )
        } by {
            law_requests(url, Seq::empty(), e);
            if replies.len() > 2 && answers(replies[2], 412) {
                law_double_refused_delete(url, row.etag, replies);
            }
        }
    }
}

/// A create writes the text of its row, or else one made of what was queued, where nothing
/// is yet. It ends with the version of the answer and that text, at the address that was
/// written to; an identifier that is taken is given up.
pub proof fn law_create_asks(
    row: Option<TaskRowV>,
    calendar_url: Seq<char>,
    op: PendingOpV,
    replies: Seq<ReplyV>,
    now: Seq<char>,
)
    requires
        op.op_type == "create"@,
        create_url(calendar_url, op.target_uid) is Ok,
    ensures
        ({
            let url = create_url(calendar_url, op.target_uid)->Ok_0;
            let text = match row {
                Some(r) => r.ical_text,
                None => new_todo(
                    op.target_uid,
                    match payload_summary(op.payload) {
                        Some(summary) => summary,
                        None => "(no summary)"@,
                    },
                    payload_due(op.payload),
                    now,
                ),
            };
            let out = dispatched_on(row, calendar_url, op, replies, now);
            &&& replies.len() == 0 ==> (out matches StepV::Send(r) && writes_new(r, url, text))
            &&& forall|e: Seq<char>|
                replies.len() > 0 && #[trigger] grants(replies[0], e) ==> out == StepV::Done(
                    ExecOutcomeV::SuccessCreate { task_url: url, etag: e, ical_text: text },
                )
            &&& replies.len() > 0 && answers(replies[0], 412) ==> out == StepV::Done(
                ExecOutcomeV::Terminal("UID collision on create"@),
            )
            &&& replies.len() > 0 && (replies[0] matches ReplyV::Failed(f) && f.network is Some)
                ==> (out matches StepV::Done(o) && o is Transient)
        }),
{
    lemma_kinds();
    let url = create_url(calendar_url, op.target_uid)->Ok_0;
    law_requests(url, text_to_create(row, op, now), Seq::empty());
    if replies.len() > 0 && answers(replies[0], 412) {
        lemma_collision();
    }
}

proof fn lemma_collision()
    ensures
        classified(
            plain(
                "412 on create -- UID collision (should never happen with v4 UUIDs). Tap Create again."@,
            ),
        ) == ExecOutcomeV::Terminal("UID collision on create"@),
{
    let m =
        "412 on create -- UID collision (should never happen with v4 UUIDs). Tap Create again."@;
    reveal_strlit(
        "412 on create -- UID collision (should never happen with v4 UUIDs). Tap Create again.",
    );
    reveal_strlit("412 on create -- UID collision");
    reveal_strlit("412 Precondition Failed twice in a row");
    lemma_starts(m, "412 on create -- UID collision"@, 0);
    let p = "412 Precondition Failed twice in a row"@;
    assert(!has_sub(m, p)) by {
        if has_sub(m, p) {
            let i = choose|i: int| stands_at(m, p, i);
            assert(m.subrange(i, i + p.len())[4] == 'P');
            assert(m[i + 4] == 'P');
        }
    }
}

/// An operation on a task that is not in the cache, or of a kind that is not known, is given
/// up: a toggle and an edit want a row, and an edit a summary in what was queued.
pub proof fn law_nothing_to_ask(
    row: Option<TaskRowV>,
    calendar_url: Seq<char>,
    op: PendingOpV,
    replies: Seq<ReplyV>,
    now: Seq<char>,
)
    ensures
        row is None && (op.op_type == "toggle"@ || op.op_type == "edit"@) ==> (dispatched_on(
            row,
            calendar_url,
            op,
            replies,
            now,
        ) matches StepV::Done(o) && o is Terminal),
        op.op_type == "edit"@ && payload_summary(op.payload) is None ==> (dispatched_on(
            row,
            calendar_url,
            op,
            replies,
            now,
        ) matches StepV::Done(o) && o is Terminal),
        op.op_type != "create"@ && op.op_type != "toggle"@ && op.op_type != "edit"@ && op.op_type
            != "delete"@ ==> (dispatched_on(row, calendar_url, op, replies, now) matches StepV::Done(
            o,
        ) && o is Terminal),
{
    lemma_kinds();
}

/// A task that is created at once goes to its address in the list, as a new to-do without a
/// due date.
pub proof fn law_task_to_create(
    calendar_url: Seq<char>,
    summary: Seq<char>,
    uid: Seq<char>,
    now: Seq<char>,
)
    ensures
        match task_to_create(calendar_url, summary, uid, now) {
            Ok(p) => create_url(calendar_url, uid) == Ok::<Seq<char>, Seq<char>>(p.0) && p.1
                == new_todo(uid, summary, None, now),
            Err(_) => create_url(calendar_url, uid) is Err,
        },
{
}

// --- The words of a refusal ---

/// A write, a delete or a read that the server turned down is told by its method, its
/// address, the status in words and the body.
pub proof fn law_words_of_refusals(url: Seq<char>, a: AnswerV)
    requires
        !is_fine(a),
        a.status != 412,
        a.status != 404,
        a.status != 410,
        a.body is Ok,
    ensures
        ({
            let rest = url + " -> "@ + a.status_text + ": "@ + a.body->Ok_0;
            let answer = ReplyV::Answered(a);
            &&& put_meaning(url, answer) matches Err(e) && e.message == "PUT "@ + rest
            &&& delete_meaning(url, answer) matches Err(e) && e.message == "DELETE "@ + rest
            &&& get_meaning(url, answer) matches Err(e) && e.message == "GET "@ + rest
            &&& dav_meaning(url, answer) matches Err(e) && e.message == rest
        }),
{
    let body = a.body->Ok_0;
    let rest = url + " -> "@ + a.status_text + ": "@ + body;
    assert("PUT "@ + url + " -> "@ + a.status_text + ": "@ + body =~= "PUT "@ + rest);
    assert("DELETE "@ + url + " -> "@ + a.status_text + ": "@ + body =~= "DELETE "@ + rest);
    assert("GET "@ + url + " -> "@ + a.status_text + ": "@ + body =~= "GET "@ + rest);
}

/// A write that the server turns down for good is given up: where the status in words begins
/// with one of the numbers after which a retry is pointless.
pub proof fn law_refused_write_is_final(url: Seq<char>, a: AnswerV)
    requires
        !is_fine(a),
        a.status != 412,
        a.status_text.len() > 4,
        a.status_text.take(4) == "401 "@ || a.status_text.take(4) == "403 "@
            || a.status_text.take(4) == "404 "@ || a.status_text.take(4) == "409 "@
            || a.status_text.take(4) == "410 "@,
    ensures
        put_meaning(url, ReplyV::Answered(a)) matches Err(e) && classified(e) is Terminal,
{
    let e = put_meaning(url, ReplyV::Answered(a))->Err_0;
    law_final_failures(e);
    reveal_strlit(" -> ");
    let front = "PUT "@ + url + " -> "@;
    let i = front.len() - 1;
    let m = e.message;
    assert(front.last() == ' ');
    reveal_strlit("401 ");
    reveal_strlit("403 ");
    reveal_strlit("404 ");
    reveal_strlit("409 ");
    reveal_strlit("410 ");
    reveal_strlit(" 401 ");
    reveal_strlit(" 403 ");
    reveal_strlit(" 404 ");
    reveal_strlit(" 409 ");
    reveal_strlit(" 410 ");
    let t = a.status_text.take(4);
    let words = if t == "401 "@ {
        " 401 "@
    } else if t == "403 "@ {
        " 403 "@
    } else if t == "404 "@ {
        " 404 "@
    } else if t == "409 "@ {
        " 409 "@
    } else {
        " 410 "@
    };
    assert(words =~= seq![' '] + t);
    assert forall|j: int| 0 <= j < 4 implies m[i + 1 + j] == #[trigger] t[j] by {}
    assert(m[i] == ' ');
    assert(m.subrange(i, i + words.len()) =~= words);
    assert(holds(m, words));
}

/// The words that are kept of a failure: those of the network behind its name, the short
/// ones of a conflict, of a taken identifier and of a vanished task, and else the failure's
/// own.
pub proof fn law_words_of_failures(f: FailureV)
    ensures
        match f.network {
            Some(n) => classified(f) == ExecOutcomeV::Transient("network: "@ + n),
            None => {
                let twice = holds(f.message, "412 Precondition Failed twice in a row"@);
                let taken = holds(f.message, "412 on create -- UID collision"@);
                let lost = holds(f.message, "then 404 on refetch"@);
                &&& !twice && taken ==> classified(f) == ExecOutcomeV::Terminal(
                    "UID collision on create"@,
                )
                &&& !twice && !taken && lost ==> classified(f) == ExecOutcomeV::Terminal(
                    "task disappeared during PUT retry"@,
                )
                &&& !twice && !taken && !lost ==> classified(f) == ExecOutcomeV::Terminal(
                    f.message,
                ) || classified(f) == ExecOutcomeV::Transient(f.message)
            },
        },
{
    lemma_holds(f.message, "412 Precondition Failed twice in a row"@);
    lemma_holds(f.message, "412 on create -- UID collision"@);
    lemma_holds(f.message, "then 404 on refetch"@);
}

// --- Failures ---

/// A failure in a context has the words of the context, a colon and its own words, and is
/// the network's just where it was before; a plain one is not the network's.
pub proof fn law_failure_in_context(f: FailureV, context: Seq<char>, message: Seq<char>)
    ensures
        in_context(f, context).message == context + ": "@ + f.message,
        in_context(f, context).network == f.network,
        plain(message).message == message,
        plain(message).network is None,
{
}

} // verus!
