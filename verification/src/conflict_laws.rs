//! What becomes of the tables when a conflict is resolved, for every state of them and
//! every answer of the server.
use vstd::prelude::*;
use crate::cache::{not_of_uid, task_upserted};
use crate::change_laws::is_first_row;
use crate::conflict::{
    conflict_preview, decided, decision_in, first_preview, keep_mine, resolvable_op, short_uid,
    take_theirs,
};
use crate::db::status_name;
use crate::failure::FailureV;
use crate::http::{get_meaning, ReplyV, StepV};
use crate::ical::crlf;
use crate::list_laws::law_decision_reads_back;
use crate::listing::cached_by_uid;
use crate::pending::{not_errored_on, resolvable};
use crate::seqs::{find, lemma_find, lemma_find_is};
use crate::store::{keyed, of_uid, op_with_id, PendingOpV, StoreV, TaskRowV};
use crate::task::{first_task_in, TaskStatus, TaskV};
use crate::text::{ascii_lower, decimal, has_sub, signed_decimal, stands_at};
use crate::weburl::task_url;
use crate::wire_laws::{
    answers, fetches, grants, hands_back, holds, law_requests, lemma_holds, writes_over,
};

verus! {

/// The operation was given up over a conflict that the user can resolve.
pub open spec fn is_conflict(op: PendingOpV) -> bool {
    &&& op.errored == 1
    &&& op.op_type == "toggle"@ || op.op_type == "edit"@
    &&& op.last_error matches Some(m) && holds(m, "double-412"@)
}

/// The conflict of the operation `op` on the task in the row at `j`, which the server has at
/// `url`.
pub open spec fn in_conflict(
    s: StoreV,
    calendar_url: Seq<char>,
    op: PendingOpV,
    j: int,
    url: Seq<char>,
) -> bool {
    &&& s.wf()
    &&& s.ops.contains(op)
    &&& is_conflict(op)
    &&& is_first_row(s.tasks, j, op.target_calendar_href, op.target_uid)
    &&& task_url(calendar_url, s.tasks[j].href) == Ok::<Seq<char>, Seq<char>>(url)
}

/// The status column stands for `status`.
pub open spec fn reads_as(column: Option<Seq<char>>, status: TaskStatus) -> bool {
    match status {
        TaskStatus::NeedsAction => column == Some("needs-action"@),
        TaskStatus::InProcess => column == Some("in-process"@),
        TaskStatus::Completed => column == Some("completed"@),
        TaskStatus::Cancelled => column == Some("cancelled"@),
        TaskStatus::Unknown => column != Some("needs-action"@) && column != Some("in-process"@)
            && column != Some("completed"@) && column != Some("cancelled"@),
    }
}

/// The operation and what was given up with it are gone from the queue, and nothing else
/// but the tasks has changed.
pub open spec fn settles(s: StoreV, t: StoreV, uid: Seq<char>) -> bool {
    &&& t.ops == s.ops.filter(|o: PendingOpV| o.target_uid != uid || o.errored != 1)
    &&& t.calendars == s.calendars
    &&& t.last_op_id == s.last_op_id
}

proof fn lemma_settles(s: StoreV, uid: Seq<char>)
    ensures
        s.ops.filter(not_errored_on(uid)) == s.ops.filter(
            |o: PendingOpV| o.target_uid != uid || o.errored != 1,
        ),
{
    assert(not_errored_on(uid) =~= (|o: PendingOpV| o.target_uid != uid || o.errored != 1));
}

proof fn lemma_in_conflict(
    s: StoreV,
    calendar_url: Seq<char>,
    op: PendingOpV,
    j: int,
    url: Seq<char>,
)
    requires
        in_conflict(s, calendar_url, op, j, url),
    ensures
        resolvable_op(s, op.id) == Ok::<PendingOpV, Seq<char>>(op),
        cached_by_uid(s, op.target_calendar_href, op.target_uid) matches Some(c) && c.href
            == s.tasks[j].href && c.ical_text == s.tasks[j].ical_text && c.etag
            == s.tasks[j].etag,
{
    let k = choose|k: int| 0 <= k < s.ops.len() && s.ops[k] == op;
    assert forall|i: int| 0 <= i < k implies !op_with_id(op.id)(#[trigger] s.ops[i]) by {
        assert(s.ops[i].id < s.ops[k].id);
    }
    lemma_find_is(s.ops, op_with_id(op.id), k as nat);
    lemma_holds(op.last_error->Some_0, "double-412"@);
    let p = of_uid(op.target_calendar_href, op.target_uid);
    assert forall|i: int| 0 <= i < j implies !p(#[trigger] s.tasks[i]) by {}
    lemma_find_is(s.tasks, p, j as nat);
}

/// Taking the server's version: the task is read once. Where the server has it, every row of
/// the task gets the version and the text of the answer, and the summary, the due date and
/// the status of the first VTODO in that text; its other columns and all other rows stay.
/// Where the server has it no more, its rows go. Either way the conflict is settled. Where
/// the text cannot be read, nothing changes.
pub proof fn law_theirs_is_taken(
    s: StoreV,
    calendar_url: Seq<char>,
    op: PendingOpV,
    j: int,
    url: Seq<char>,
    replies: Seq<ReplyV>,
)
    requires
        in_conflict(s, calendar_url, op, j, url),
    ensures
        ({
            let out = take_theirs(s, calendar_url, op.id, replies);
            let t = out.0;
            let cal = op.target_calendar_href;
            let uid = op.target_uid;
            &&& replies.len() == 0 ==> t == s && (out.1 matches StepV::Send(r) && fetches(r, url))
            &&& forall|etag: Seq<char>, body: Seq<char>|
                replies.len() > 0 && #[trigger] hands_back(replies[0], etag, body) ==> match first_task_in(
                    crlf(body),
                ) {
                    Ok(theirs) => {
                        &&& out.1 matches StepV::Done(Ok(_))
                        &&& settles(s, t, uid)
                        &&& t.tasks.len() == s.tasks.len()
                        &&& forall|i: int|
                            0 <= i < s.tasks.len() ==> {
                                let old = s.tasks[i];
                                let new = #[trigger] t.tasks[i];
                                if old.calendar_href == cal && old.uid == uid {
                                    &&& new.etag == etag
                                    &&& new.ical_text == crlf(body)
                                    &&& new.summary == theirs.summary
                                    &&& new.due == theirs.due
                                    &&& reads_as(new.status, theirs.status)
                                    &&& new.calendar_href == old.calendar_href && new.href
                                        == old.href && new.uid == old.uid && new.anchor
                                        == old.anchor && new.pending_delete == old.pending_delete
                                } else {
                                    new == old
                                }
                            }
                    },
                    Err(_) => t == s && (out.1 matches StepV::Done(Err(_))),
                }
            &&& replies.len() > 0 && (answers(replies[0], 404) || answers(replies[0], 410)) ==> {
                &&& out.1 matches StepV::Done(Ok(_))
                &&& settles(s, t, uid)
                &&& t.tasks == s.tasks.filter(
                    |r: TaskRowV| r.calendar_href != cal || r.uid != uid,
                )
            }
            &&& replies.len() > 0 && replies[0] is Failed ==> t == s && (out.1 matches StepV::Done(
                Err(_),
            ))
        }),
{
    let cal = op.target_calendar_href;
    let uid = op.target_uid;
    lemma_in_conflict(s, calendar_url, op, j, url);
    law_requests(url, Seq::empty(), Seq::empty());
    lemma_settles(s, uid);
    lemma_statuses_differ();
    assert(not_of_uid(cal, uid) =~= (|r: TaskRowV| r.calendar_href != cal || r.uid != uid));
    assert forall|etag: Seq<char>, body: Seq<char>|
        replies.len() > 0 && #[trigger] hands_back(replies[0], etag, body) implies get_meaning(
        url,
        replies[0],
    ) == Ok::<_, FailureV>(Some((etag, crlf(body)))) by {}
}

proof fn lemma_statuses_differ()
    ensures
        ""@ != "needs-action"@ && ""@ != "in-process"@ && ""@ != "completed"@ && ""@
            != "cancelled"@,
        "unknown"@ != "needs-action"@ && "unknown"@ != "in-process"@ && "unknown"@ != "completed"@
            && "unknown"@ != "cancelled"@,
{
    reveal_strlit("");
    reveal_strlit("unknown");
    reveal_strlit("needs-action");
    reveal_strlit("in-process");
    reveal_strlit("completed");
    reveal_strlit("cancelled");
    assert(""@.len() == 0 && "unknown"@.len() == 7);
    assert("needs-action"@.len() == 12 && "in-process"@.len() == 10);
    assert("completed"@.len() == 9 && "cancelled"@.len() == 9);
}

/// The columns of two rows are the same, but for the address, the identifier, the place of
/// capture and whether the row is hidden. The status is the same where it reads the same.
pub open spec fn same_content(a: TaskRowV, b: TaskRowV) -> bool {
    &&& a.calendar_href == b.calendar_href && a.etag == b.etag && a.ical_text == b.ical_text
    &&& a.summary == b.summary && a.due == b.due
    &&& forall|st: TaskStatus| #[trigger] reads_as(a.status, st) == reads_as(b.status, st)
}

/// A row that was taken from the server is the row that a pull of that same text would store.
pub proof fn law_taken_row_is_pulled_row(
    s: StoreV,
    calendar_url: Seq<char>,
    op: PendingOpV,
    j: int,
    url: Seq<char>,
    replies: Seq<ReplyV>,
    etag: Seq<char>,
    body: Seq<char>,
    i: int,
)
    requires
        in_conflict(s, calendar_url, op, j, url),
        replies.len() > 0,
        hands_back(replies[0], etag, body),
        first_task_in(crlf(body)) is Ok,
        0 <= i < s.tasks.len(),
        s.tasks[i].calendar_href == op.target_calendar_href,
        s.tasks[i].uid == op.target_uid,
    ensures
        ({
            let pulled = task_upserted(
                s.tasks,
                op.target_calendar_href,
                s.tasks[i].href,
                etag,
                crlf(body),
                op.target_uid,
                first_task_in(crlf(body))->Ok_0,
            );
            same_content(take_theirs(s, calendar_url, op.id, replies).0.tasks[i], pulled[i])
        }),
{
    law_theirs_is_taken(s, calendar_url, op, j, url, replies);
    let cal = op.target_calendar_href;
    let p = keyed(cal, s.tasks[i].href);
    assert forall|k: int| 0 <= k < i implies !p(#[trigger] s.tasks[k]) by {
        assert(!(s.tasks[k].calendar_href == s.tasks[i].calendar_href && s.tasks[k].href
            == s.tasks[i].href));
    }
    lemma_find_is(s.tasks, p, i as nat);
    lemma_statuses_differ();
    let theirs = first_task_in(crlf(body))->Ok_0;
    let a = take_theirs(s, calendar_url, op.id, replies).0.tasks[i];
    assert(reads_as(a.status, theirs.status));
    assert(reads_as(Some(status_name(theirs.status)), theirs.status));
    assert forall|st: TaskStatus| #[trigger] reads_as(a.status, st) == reads_as(
        Some(status_name(theirs.status)),
        st,
    ) by {
        lemma_reads_as_one(a.status, theirs.status, st);
        lemma_reads_as_one(Some(status_name(theirs.status)), theirs.status, st);
    }
}

/// A column stands for one status.
proof fn lemma_reads_as_one(column: Option<Seq<char>>, a: TaskStatus, b: TaskStatus)
    requires
        reads_as(column, a),
    ensures
        reads_as(column, b) == (a == b),
{
    reveal_strlit("needs-action");
    reveal_strlit("in-process");
    reveal_strlit("completed");
    reveal_strlit("cancelled");
    assert("needs-action"@.len() == 12 && "in-process"@.len() == 10);
    assert("completed"@.len() == 9 && "cancelled"@.len() == 9);
    assert("completed"@[1] == 'o' && "cancelled"@[1] == 'a');
}

/// Keeping the user's version: the task is read for its version, and the text of the row is
/// written over that version, once. Where that succeeds, every row of the task gets the new
/// version, and nothing else of the tasks changes; the conflict is settled. Where the task
/// is gone, where the server has changed again, or where it cannot be reached, nothing
/// changes.
pub proof fn law_mine_is_kept(
    s: StoreV,
    calendar_url: Seq<char>,
    op: PendingOpV,
    j: int,
    url: Seq<char>,
    replies: Seq<ReplyV>,
)
    requires
        in_conflict(s, calendar_url, op, j, url),
    ensures
        ({
            let out = keep_mine(s, calendar_url, op.id, replies);
            let t = out.0;
            let cal = op.target_calendar_href;
            let uid = op.target_uid;
            &&& replies.len() == 0 ==> t == s && (out.1 matches StepV::Send(r) && fetches(r, url))
            &&& replies.len() > 0 && (answers(replies[0], 404) || answers(replies[0], 410)) ==> t
                == s && (out.1 matches StepV::Done(Ok(_)))
            &&& replies.len() > 0 && replies[0] is Failed ==> t == s && (out.1 matches StepV::Done(
                Err(_),
            ))
            &&& forall|etag: Seq<char>, body: Seq<char>|
                replies.len() > 0 && #[trigger] hands_back(replies[0], etag, body) ==> {
                    &&& replies.len() == 1 ==> t == s && (out.1 matches StepV::Send(r)
                        && writes_over(r, url, s.tasks[j].ical_text, etag))
                    &&& replies.len() > 1 && answers(replies[1], 412) ==> t == s && (
                    out.1 matches StepV::Done(Ok(_)))
                    &&& replies.len() > 1 && replies[1] is Failed ==> t == s && (
                    out.1 matches StepV::Done(Err(_)))
                    &&& forall|e: Seq<char>|
                        replies.len() > 1 && #[trigger] grants(replies[1], e) ==> {
                            &&& out.1 is Done
                            &&& settles(s, t, uid)
                            &&& t.tasks.len() == s.tasks.len()
                            &&& forall|i: int|
                                0 <= i < s.tasks.len() ==> {
                                    let old = s.tasks[i];
                                    let new = #[trigger] t.tasks[i];
                                    if old.calendar_href == cal && old.uid == uid {
                                        new == (TaskRowV { etag: e, ..old })
                                    } else {
                                        new == old
                                    }
                                }
                        }
                }
        }),
{
    let uid = op.target_uid;
    lemma_in_conflict(s, calendar_url, op, j, url);
    lemma_settles(s, uid);
    law_requests(url, Seq::empty(), Seq::empty());
    assert forall|etag: Seq<char>, body: Seq<char>|
        replies.len() > 0 && #[trigger] hands_back(replies[0], etag, body) implies get_meaning(
        url,
        replies[0],
    ) == Ok::<_, FailureV>(Some((etag, crlf(body)))) && (replies.len() == 1 ==> (keep_mine(
        s,
        calendar_url,
        op.id,
        replies,
    ).1 matches StepV::Send(r) && writes_over(r, url, s.tasks[j].ical_text, etag))) by {
        law_requests(url, s.tasks[j].ical_text, etag);
    }
}

/// What cannot be resolved is left as it is, whichever side is chosen: an operation that is
/// not in the queue, or that was not given up over a conflict.
pub proof fn law_nothing_to_resolve(
    s: StoreV,
    calendar_url: Seq<char>,
    id: int,
    replies: Seq<ReplyV>,
)
    requires
        forall|i: int|
            0 <= i < s.ops.len() && (#[trigger] s.ops[i]).id == id ==> !is_conflict(s.ops[i]),
    ensures
        keep_mine(s, calendar_url, id, replies).0 == s,
        keep_mine(s, calendar_url, id, replies).1 matches StepV::Done(Ok(_)),
        take_theirs(s, calendar_url, id, replies).0 == s,
        take_theirs(s, calendar_url, id, replies).1 matches StepV::Done(Ok(_)),
{
    lemma_find(s.ops, op_with_id(id), 0);
    let k = find(s.ops, op_with_id(id), 0) as int;
    if k < s.ops.len() {
        assert(s.ops[k].id == id);
        reveal_strlit("");
        reveal_strlit("double-412");
        match s.ops[k].last_error {
            Some(m) => {
                lemma_holds(m, "double-412"@);
            },
            None => {
                if has_sub(""@, "double-412"@) {
                    let i = choose|i: int| stands_at(""@, "double-412"@, i);
                    assert(stands_at(""@, "double-412"@, i));
                }
            },
        }
    }
}

/// A decision in words does what it names: keeping resolves to the user's version, taking to
/// the server's, of the operation that is numbered.
pub proof fn law_decision_is_carried_out(
    s: StoreV,
    calendar_url: Seq<char>,
    id: i64,
    replies: Seq<ReplyV>,
)
    requires
        id > 0,
    ensures
        decided(s, calendar_url, "keep:"@ + signed_decimal(id as int), replies) == keep_mine(
            s,
            calendar_url,
            id as int,
            replies,
        ),
        decided(s, calendar_url, "take:"@ + signed_decimal(id as int), replies) == take_theirs(
            s,
            calendar_url,
            id as int,
            replies,
        ),
{
    law_decision_reads_back(id);
}

/// A message that is no decision changes nothing.
pub proof fn law_no_decision(
    s: StoreV,
    calendar_url: Seq<char>,
    payload: Seq<char>,
    replies: Seq<ReplyV>,
)
    requires
        decision_in(payload) is Err,
    ensures
        decided(s, calendar_url, payload, replies).0 == s,
        decided(s, calendar_url, payload, replies).1 matches StepV::Done(Err(_)),
{
}

/// The words for whether a task is completed.
pub open spec fn state_words(completed: bool) -> Seq<char> {
    if completed {
        "completed"@
    } else {
        "not completed"@
    }
}

/// The preview of a conflict: the number of the operation in front; the summary on the
/// server, or the user's where the server has the task no more; the operation; and the
/// summary and the state on either side.
pub open spec fn is_preview(
    text: Seq<char>,
    op: PendingOpV,
    mine: TaskV,
    theirs: Option<TaskV>,
) -> bool {
    let shown = if op.target_uid.len() > 8 {
        "…"@ + op.target_uid.subrange(op.target_uid.len() - 8, op.target_uid.len() as int)
    } else {
        op.target_uid
    };
    let local = "Local:  \""@ + mine.summary + "\" ("@ + state_words(
        mine.status == TaskStatus::Completed,
    ) + ")\n"@;
    let server = match theirs {
        Some(t) => "Server: \""@ + t.summary + "\" ("@ + state_words(
            t.status == TaskStatus::Completed,
        ) + ")"@,
        None => "Server: (deleted server-side)"@,
    };
    let title = match theirs {
        Some(t) => t.summary,
        None => mine.summary,
    };
    text == "OPID:"@ + signed_decimal(op.id) + ("\nConflict on \""@ + title + "\" (UID "@ + shown
        + ")\nOp: "@ + op.op_type + "\n"@) + local + server
        + "\nTap Keep Mine, Take Theirs, or Cancel."@
}

proof fn lemma_preview(op: PendingOpV, mine: TaskV, theirs: Option<TaskV>)
    ensures
        is_preview(
            conflict_preview(
                op.id,
                op.op_type,
                op.target_uid,
                mine.summary,
                mine.status == TaskStatus::Completed,
                match theirs {
                    Some(t) => Some((t.summary, t.status == TaskStatus::Completed)),
                    None => None,
                },
            ),
            op,
            mine,
            theirs,
        ),
{
    reveal_strlit("\n");
    reveal_strlit("Local:  \"");
    reveal_strlit("\nLocal:  \"");
    assert("\nLocal:  \""@ =~= "\n"@ + "Local:  \""@);
    if op.target_uid.len() > 8 {
        let n = op.target_uid.len() as int;
        assert(op.target_uid.skip(n - 8) =~= op.target_uid.subrange(n - 8, n));
    }
    let server = match theirs {
        Some(t) => Some((t.summary, t.status == TaskStatus::Completed)),
        None => None,
    };
    let text = conflict_preview(
        op.id,
        op.op_type,
        op.target_uid,
        mine.summary,
        mine.status == TaskStatus::Completed,
        server,
    );
    let title = match theirs {
        Some(t) => t.summary,
        None => mine.summary,
    };
    let tail = match theirs {
        Some(t) => "Server: \""@ + t.summary + "\" ("@ + state_words(
            t.status == TaskStatus::Completed,
        ) + ")"@,
        None => "Server: (deleted server-side)"@,
    };
    let head = "OPID:"@ + signed_decimal(op.id);
    let shown = short_uid(op.target_uid);
    let s1 = head + "\nConflict on \""@ + title + "\" (UID "@ + shown + ")\nOp: "@ + op.op_type;
    let s2 = head + ("\nConflict on \""@ + title + "\" (UID "@ + shown + ")\nOp: "@ + op.op_type
        + "\n"@);
    let local = "Local:  \""@ + mine.summary + "\" ("@ + state_words(
        mine.status == TaskStatus::Completed,
    ) + ")\n"@;
    assert(s1 + "\n"@ =~= s2);
    let w = state_words(mine.status == TaskStatus::Completed);
    assert(s1 + ("\n"@ + "Local:  \""@) + mine.summary + "\" ("@ + w + ")\n"@ =~= s1 + "\n"@
        + local);
    assert(text =~= s2 + local + tail + "\nTap Keep Mine, Take Theirs, or Cancel."@);
}

/// The conflict that is shown is the first one in the queue. The server is asked for the
/// task, and the preview has the user's side from the row and the server's side from the
/// answer, or that the task is gone there. Without a conflict there is nothing to show.
pub proof fn law_first_conflict_is_shown(
    s: StoreV,
    calendar_url: Seq<char>,
    k: int,
    j: int,
    url: Seq<char>,
    mine: TaskV,
    replies: Seq<ReplyV>,
)
    requires
        0 <= k < s.ops.len(),
        in_conflict(s, calendar_url, s.ops[k], j, url),
        forall|i: int| 0 <= i < k ==> !resolvable()(#[trigger] s.ops[i]),
        first_task_in(s.tasks[j].ical_text) == Ok::<TaskV, FailureV>(mine),
    ensures
        ({
            let out = first_preview(s, calendar_url, replies);
            &&& replies.len() == 0 ==> (out matches StepV::Send(r) && fetches(r, url))
            &&& forall|etag: Seq<char>, body: Seq<char>|
                replies.len() > 0 && #[trigger] hands_back(replies[0], etag, body) ==> match first_task_in(
                    crlf(body),
                ) {
                    Ok(theirs) => out matches StepV::Done(Ok(text)) && is_preview(
                        text,
                        s.ops[k],
                        mine,
                        Some(theirs),
                    ),
                    Err(_) => out matches StepV::Done(Err(_)),
                }
            &&& replies.len() > 0 && (answers(replies[0], 404) || answers(replies[0], 410)) ==> (
            out matches StepV::Done(Ok(text)) && is_preview(text, s.ops[k], mine, None))
        }),
{
    let op = s.ops[k];
    lemma_in_conflict(s, calendar_url, op, j, url);
    law_requests(url, Seq::empty(), Seq::empty());
    lemma_conflict_shows(op);
    lemma_find_is(s.ops, resolvable(), k as nat);
    lemma_preview(op, mine, None);
    assert forall|etag: Seq<char>, body: Seq<char>|
        replies.len() > 0 && #[trigger] hands_back(replies[0], etag, body) implies get_meaning(
        url,
        replies[0],
    ) == Ok::<_, FailureV>(Some((etag, crlf(body)))) && match first_task_in(crlf(body)) {
        Ok(theirs) => first_preview(s, calendar_url, replies) matches StepV::Done(Ok(text))
            && is_preview(text, op, mine, Some(theirs)),
        Err(_) => first_preview(s, calendar_url, replies) matches StepV::Done(Err(_)),
    } by {
        if first_task_in(crlf(body)) is Ok {
            lemma_preview(op, mine, Some(first_task_in(crlf(body))->Ok_0));
        }
    }
}

/// A conflict is one of those to show, whatever the case of its words.
proof fn lemma_conflict_shows(op: PendingOpV)
    requires
        is_conflict(op),
    ensures
        resolvable()(op),
{
    reveal_strlit("double-412");
    let m = op.last_error->Some_0;
    let word = "double-412"@;
    lemma_holds(m, word);
    let i = choose|i: int| stands_at(m, word, i);
    let low = ascii_lower(m);
    assert forall|j: int| 0 <= j < word.len() implies low[i + j] == word[j] by {
        assert(m.subrange(i, i + word.len())[j] == m[i + j]);
    }
    assert(low.subrange(i, i + word.len()) =~= word);
    assert(stands_at(low, word, i));
}

/// What the user is told of the operations that went with a resolved conflict: its number,
/// and how many more went with it if any did.
pub open spec fn tells_resolved(line: Seq<char>, id: int, gone: nat) -> bool {
    line == if gone > 1 {
        "#"@ + signed_decimal(id) + " resolved ("@ + decimal((gone - 1) as nat)
            + " cascaded op(s) cleared)."@
    } else {
        "#"@ + signed_decimal(id) + " resolved."@
    }
}

/// What the user is told once a conflict is resolved: the summary and the state of the side
/// that stands, and what went from the queue.
pub proof fn law_resolution_is_told(
    s: StoreV,
    calendar_url: Seq<char>,
    op: PendingOpV,
    j: int,
    url: Seq<char>,
    replies: Seq<ReplyV>,
    etag: Seq<char>,
    body: Seq<char>,
)
    requires
        in_conflict(s, calendar_url, op, j, url),
        replies.len() > 0,
        hands_back(replies[0], etag, body),
    ensures
        ({
            let gone = s.ops.filter(
                |o: PendingOpV| o.target_uid == op.target_uid && o.errored == 1,
            ).len();
            &&& first_task_in(crlf(body)) matches Ok(theirs) ==> (take_theirs(
                s,
                calendar_url,
                op.id,
                replies,
            ).1 matches StepV::Done(Ok(text)) && exists|line: Seq<char>| #[trigger]
                tells_resolved(line, op.id, gone) && text == "Took server version: \""@
                    + theirs.summary + "\" ("@ + state_words(
                    theirs.status == TaskStatus::Completed,
                ) + ")."@ + "\n"@ + line)
            &&& forall|e: Seq<char>|
                replies.len() > 1 && #[trigger] grants(replies[1], e) ==> (first_task_in(
                    s.tasks[j].ical_text,
                ) matches Ok(mine) ==> (keep_mine(
                    s,
                    calendar_url,
                    op.id,
                    replies,
                ).1 matches StepV::Done(Ok(text)) && exists|line: Seq<char>| #[trigger]
                    tells_resolved(line, op.id, gone) && text == "Kept your version: \""@
                        + mine.summary + "\" ("@ + state_words(
                        mine.status == TaskStatus::Completed,
                    ) + ").\n"@ + line))
        }),
{
    lemma_in_conflict(s, calendar_url, op, j, url);
    let gone = s.ops.filter(
        |o: PendingOpV| o.target_uid == op.target_uid && o.errored == 1,
    ).len();
    assert(crate::pending::errored_on(op.target_uid) =~= (|o: PendingOpV|
        o.target_uid == op.target_uid && o.errored == 1));
    assert(get_meaning(url, replies[0]) == Ok::<_, FailureV>(Some((etag, crlf(body)))));
    let line = crate::conflict::resolved_line(op.id, gone);
    assert(tells_resolved(line, op.id, gone));
}

} // verus!
