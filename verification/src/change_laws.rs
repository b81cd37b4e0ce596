//! What the changes that the screen asks for do to the tables, for every state of them. The
//! tables are spoken of by their rows and the columns of each.
use vstd::prelude::*;
use crate::clock::MomentV;
use crate::config::LOCAL_LIST_ID;
use crate::db::{changed, committed, create_queued, pending_href};
use crate::failure::{Failure, FailureV};
use crate::handlers::{
    answers, created, first_deleted, first_edited, first_toggled, taken_in, uid_deleted, uid_edited,
    uid_toggled, IntakeItemV,
};
use crate::ical::ical_escaped;
use crate::json::json_object;
use crate::listing::{cached_by_uid, first_listed};
use crate::screen::transferred;
use crate::seqs::{count, find, lemma_filter_empty, lemma_find};
use crate::store::{keyed, live_of_uid, of_uid, StoreV, TaskRowV};
use crate::task::{edited, new_todo, toggled, TaskStatus};
use crate::text::{has_sub, signed_decimal, stands_at, trimmed};

verus! {

// --- Rows and operations ---

/// The row at `k` is the first visible one of the task `uid` of the list `cal`.
pub open spec fn is_first_live(
    tasks: Seq<TaskRowV>,
    k: int,
    cal: Seq<char>,
    uid: Seq<char>,
) -> bool {
    &&& 0 <= k < tasks.len()
    &&& tasks[k].calendar_href == cal && tasks[k].uid == uid && !tasks[k].pending_delete
    &&& forall|j: int|
        0 <= j < k ==> !((#[trigger] tasks[j]).calendar_href == cal && tasks[j].uid == uid
            && !tasks[j].pending_delete)
}

/// The row at `k` is the first one of the task, visible or not.
pub open spec fn is_first_row(
    tasks: Seq<TaskRowV>,
    k: int,
    cal: Seq<char>,
    uid: Seq<char>,
) -> bool {
    &&& 0 <= k < tasks.len()
    &&& tasks[k].calendar_href == cal && tasks[k].uid == uid
    &&& forall|j: int|
        0 <= j < k ==> !((#[trigger] tasks[j]).calendar_href == cal && tasks[j].uid == uid)
}

/// The rows are the same but for the one at `k`.
pub open spec fn only_changed(a: Seq<TaskRowV>, b: Seq<TaskRowV>, k: int) -> bool {
    a.len() == b.len() && forall|i: int|
        0 <= i < a.len() && i != k ==> #[trigger] b[i] == a[i]
}

/// One operation more waits, behind the others, under the next number.
pub open spec fn waits_anew(
    s: StoreV,
    t: StoreV,
    cal: Seq<char>,
    uid: Seq<char>,
    op_type: Seq<char>,
    payload: Option<Seq<char>>,
    at: int,
) -> bool {
    &&& t.ops.len() == s.ops.len() + 1
    &&& forall|i: int| 0 <= i < s.ops.len() ==> #[trigger] t.ops[i] == s.ops[i]
    &&& t.ops.last().id == s.last_op_id + 1
    &&& t.ops.last().op_type == op_type
    &&& t.ops.last().target_uid == uid
    &&& t.ops.last().target_calendar_href == cal
    &&& t.ops.last().payload == payload
    &&& t.ops.last().enqueued_at == at
    &&& t.ops.last().error_count == 0
    &&& t.ops.last().last_error is None
    &&& t.ops.last().errored == 0
    &&& t.last_op_id == s.last_op_id + 1
}

/// A change of the list `cal` is queued, but for the device's own list. The lists stay.
pub open spec fn goes_on(
    s: StoreV,
    t: StoreV,
    cal: Seq<char>,
    uid: Seq<char>,
    op_type: Seq<char>,
    payload: Option<Seq<char>>,
    at: int,
) -> bool {
    &&& t.calendars == s.calendars
    &&& if cal == "local://default"@ {
        t.ops == s.ops && t.last_op_id == s.last_op_id
    } else {
        waits_anew(s, t, cal, uid, op_type, payload, at)
    }
}

/// There is room for one operation more, or none is needed.
pub open spec fn finds_room(s: StoreV, cal: Seq<char>) -> bool {
    cal == "local://default"@ || s.last_op_id < i64::MAX
}

/// The answer to a change: `own` on the device's own list, else `others` with the number of
/// the operation.
pub open spec fn says(
    answer: Seq<char>,
    t: StoreV,
    cal: Seq<char>,
    own: Seq<char>,
    others: Seq<char>,
) -> bool {
    answer == if cal == "local://default"@ {
        own
    } else {
        others + " (#"@ + signed_decimal(t.last_op_id) + ")"@
    }
}

proof fn lemma_live(tasks: Seq<TaskRowV>, cal: Seq<char>, uid: Seq<char>)
    ensures
        ({
            let k = find(tasks, live_of_uid(cal, uid), 0) as int;
            &&& 0 <= k <= tasks.len()
            &&& k < tasks.len() ==> is_first_live(tasks, k, cal, uid)
            &&& forall|i: int| #[trigger] is_first_live(tasks, i, cal, uid) ==> i == k
        }),
{
    let p = live_of_uid(cal, uid);
    lemma_find(tasks, p, 0);
    let k = find(tasks, p, 0) as int;
    assert forall|i: int| #[trigger] is_first_live(tasks, i, cal, uid) implies i == k by {
        assert(p(tasks[i]));
        if k < i {
            assert(p(tasks[k]));
        }
    }
    assert forall|j: int| 0 <= j < k implies !((#[trigger] tasks[j]).calendar_href == cal
        && tasks[j].uid == uid && !tasks[j].pending_delete) by {
        assert(!p(tasks[j]));
    }
}

proof fn lemma_row(tasks: Seq<TaskRowV>, cal: Seq<char>, uid: Seq<char>)
    ensures
        ({
            let k = find(tasks, of_uid(cal, uid), 0) as int;
            &&& 0 <= k <= tasks.len()
            &&& k < tasks.len() ==> is_first_row(tasks, k, cal, uid)
            &&& forall|i: int| #[trigger] is_first_row(tasks, i, cal, uid) ==> i == k
        }),
{
    let p = of_uid(cal, uid);
    lemma_find(tasks, p, 0);
    let k = find(tasks, p, 0) as int;
    assert forall|i: int| #[trigger] is_first_row(tasks, i, cal, uid) implies i == k by {
        assert(p(tasks[i]));
        if k < i {
            assert(p(tasks[k]));
        }
    }
    assert forall|j: int| 0 <= j < k implies !((#[trigger] tasks[j]).calendar_href == cal
        && tasks[j].uid == uid) by {
        assert(!p(tasks[j]));
    }
}

// --- Creating ---

/// The line `line` stands in `text` between two line ends.
pub open spec fn has_line(text: Seq<char>, line: Seq<char>) -> bool {
    exists|i: int| stands_at(text, "\r\n"@ + line + "\r\n"@, i)
}

/// The line of a due date: one without a time of day is marked as a date.
pub open spec fn due_line_of(due: Seq<char>) -> Seq<char> {
    if exists|i: int| 0 <= i < due.len() && #[trigger] due[i] == 'T' {
        "DUE:"@ + ical_escaped(due)
    } else {
        "DUE;VALUE=DATE:"@ + ical_escaped(due)
    }
}

proof fn lemma_line_between(text: Seq<char>, a: Seq<char>, line: Seq<char>, b: Seq<char>)
    requires
        text == a + ("\r\n"@ + line + "\r\n"@) + b,
    ensures
        has_line(text, line),
{
    let sub = "\r\n"@ + line + "\r\n"@;
    assert(text.subrange(a.len() as int, (a.len() + sub.len()) as int) =~= sub);
    assert(stands_at(text, sub, a.len() as int));
}

/// The text of a new to-do holds its identifier, its summary, its due date if any, and that
/// it needs action, each on a line of its own, between the lines that open and close it.
pub proof fn law_new_todo_lines(
    uid: Seq<char>,
    summary: Seq<char>,
    due: Option<Seq<char>>,
    now: Seq<char>,
)
    ensures
        has_line(new_todo(uid, summary, due, now), "UID:"@ + uid),
        has_line(new_todo(uid, summary, due, now), "DTSTAMP:"@ + now),
        has_line(new_todo(uid, summary, due, now), "CREATED:"@ + now),
        has_line(new_todo(uid, summary, due, now), "LAST-MODIFIED:"@ + now),
        has_line(new_todo(uid, summary, due, now), "SUMMARY:"@ + ical_escaped(summary)),
        has_line(new_todo(uid, summary, due, now), "STATUS:NEEDS-ACTION"@),
        due matches Some(d) && d.len() > 0 ==> has_line(
            new_todo(uid, summary, due, now),
            due_line_of(due->Some_0),
        ),
        due is None || due->Some_0.len() == 0 ==> new_todo(uid, summary, due, now) == new_todo(
            uid,
            summary,
            None,
            now,
        ),
{
    let e = "\r\n"@;
    let line = crate::task::due_line(due);
    let head = "BEGIN:VCALENDAR\r\nVERSION:2.0\r\nPRODID:-//reTaskable//EN\r\nBEGIN:VTODO"@;
    let l1 = "UID:"@ + uid;
    let l2 = "DTSTAMP:"@ + now;
    let l3 = "CREATED:"@ + now;
    let l4 = "LAST-MODIFIED:"@ + now;
    let l5 = "SUMMARY:"@ + ical_escaped(summary);
    let l6 = "STATUS:NEEDS-ACTION"@;
    let text = new_todo(uid, summary, due, now);
    let r7 = e + "END:VTODO\r\nEND:VCALENDAR\r\n"@;
    let r6 = e + l6 + r7;
    let rd = line + r6;
    let r5 = e + l5 + rd;
    let r4 = e + l4 + r5;
    let r3 = e + l3 + r4;
    let r2 = e + l2 + r3;
    let r1 = e + l1 + r2;
    lemma_todo_parts(uid, summary, due, now);
    assert(text == head + r1);
    lemma_line_first(l6, r7);
    assert(begins(rd)) by {
        if due is Some && due->Some_0.len() > 0 {
            lemma_due_line(due->Some_0);
            assert(rd =~= e + (due_line_of(due->Some_0) + r6));
        } else {
            assert(rd =~= r6);
            assert(rd =~= e + (l6 + r7));
        }
    }
    if due is Some && due->Some_0.len() > 0 {
        lemma_due_line(due->Some_0);
        let ld = due_line_of(due->Some_0);
        assert(rd =~= e + ld + r6);
        assert(r6 =~= e + (l6 + r7));
        lemma_line_first(ld, r6);
        lemma_line_kept(e + l5, rd, ld);
        lemma_line_kept(e + l4, r5, ld);
        lemma_line_kept(e + l3, r4, ld);
        lemma_line_kept(e + l2, r3, ld);
        lemma_line_kept(e + l1, r2, ld);
        lemma_line_kept(head, r1, ld);
    }
    lemma_line_kept(line, r6, l6);
    lemma_line_kept(e + l5, rd, l6);
    lemma_line_kept(e + l4, r5, l6);
    lemma_line_kept(e + l3, r4, l6);
    lemma_line_kept(e + l2, r3, l6);
    lemma_line_kept(e + l1, r2, l6);
    lemma_line_kept(head, r1, l6);
    lemma_line_first(l5, rd);
    lemma_line_kept(e + l4, r5, l5);
    lemma_line_kept(e + l3, r4, l5);
    lemma_line_kept(e + l2, r3, l5);
    lemma_line_kept(e + l1, r2, l5);
    lemma_line_kept(head, r1, l5);
    assert(r5 =~= e + (l5 + rd));
    lemma_line_first(l4, r5);
    lemma_line_kept(e + l3, r4, l4);
    lemma_line_kept(e + l2, r3, l4);
    lemma_line_kept(e + l1, r2, l4);
    lemma_line_kept(head, r1, l4);
    assert(r4 =~= e + (l4 + r5));
    lemma_line_first(l3, r4);
    lemma_line_kept(e + l2, r3, l3);
    lemma_line_kept(e + l1, r2, l3);
    lemma_line_kept(head, r1, l3);
    assert(r3 =~= e + (l3 + r4));
    lemma_line_first(l2, r3);
    lemma_line_kept(e + l1, r2, l2);
    lemma_line_kept(head, r1, l2);
    assert(r2 =~= e + (l2 + r3));
    lemma_line_first(l1, r2);
    lemma_line_kept(head, r1, l1);
}

/// The text begins with a line end.
spec fn begins(text: Seq<char>) -> bool {
    exists|rest: Seq<char>| text == "\r\n"@ + rest
}

proof fn lemma_line_first(line: Seq<char>, rest: Seq<char>)
    requires
        begins(rest),
    ensures
        has_line("\r\n"@ + line + rest, line),
{
    let more = choose|more: Seq<char>| rest == "\r\n"@ + more;
    let text = "\r\n"@ + line + rest;
    assert(text =~= Seq::<char>::empty() + ("\r\n"@ + line + "\r\n"@) + more);
    lemma_line_between(text, Seq::<char>::empty(), line, more);
}

proof fn lemma_line_kept(a: Seq<char>, text: Seq<char>, line: Seq<char>)
    requires
        has_line(text, line),
    ensures
        has_line(a + text, line),
{
    let sub = "\r\n"@ + line + "\r\n"@;
    let i = choose|i: int| stands_at(text, sub, i);
    assert((a + text).subrange(a.len() + i, a.len() + i + sub.len()) =~= text.subrange(
        i,
        i + sub.len(),
    ));
    assert(stands_at(a + text, sub, a.len() + i));
}

proof fn lemma_todo_parts(
    uid: Seq<char>,
    summary: Seq<char>,
    due: Option<Seq<char>>,
    now: Seq<char>,
)
    ensures
        ({
            let e = "\r\n"@;
            let r7 = e + "END:VTODO\r\nEND:VCALENDAR\r\n"@;
            let rd = crate::task::due_line(due) + (e + "STATUS:NEEDS-ACTION"@ + r7);
            let r5 = e + ("SUMMARY:"@ + ical_escaped(summary)) + rd;
            let r4 = e + ("LAST-MODIFIED:"@ + now) + r5;
            let r3 = e + ("CREATED:"@ + now) + r4;
            let r2 = e + ("DTSTAMP:"@ + now) + r3;
            let r1 = e + ("UID:"@ + uid) + r2;
            new_todo(uid, summary, due, now)
                == "BEGIN:VCALENDAR\r\nVERSION:2.0\r\nPRODID:-//reTaskable//EN\r\nBEGIN:VTODO"@
                + r1
        }),
{
    let e = "\r\n"@;
    let head = "BEGIN:VCALENDAR\r\nVERSION:2.0\r\nPRODID:-//reTaskable//EN\r\nBEGIN:VTODO"@;
    let end = "END:VTODO\r\nEND:VCALENDAR\r\n"@;
    lemma_todo_literals();
    lemma_todo_joined(
        head,
        e,
        "UID:"@,
        uid,
        "DTSTAMP:"@,
        "CREATED:"@,
        "LAST-MODIFIED:"@,
        "SUMMARY:"@,
        ical_escaped(summary),
        crate::task::due_line(due),
        "STATUS:NEEDS-ACTION"@,
        end,
        now,
    );
}

proof fn lemma_todo_literals()
    ensures
        "BEGIN:VCALENDAR\r\nVERSION:2.0\r\nPRODID:-//reTaskable//EN\r\nBEGIN:VTODO\r\nUID:"@
            == "BEGIN:VCALENDAR\r\nVERSION:2.0\r\nPRODID:-//reTaskable//EN\r\nBEGIN:VTODO"@
            + "\r\n"@ + "UID:"@,
        "\r\nDTSTAMP:"@ == "\r\n"@ + "DTSTAMP:"@,
        "\r\nCREATED:"@ == "\r\n"@ + "CREATED:"@,
        "\r\nLAST-MODIFIED:"@ == "\r\n"@ + "LAST-MODIFIED:"@,
        "\r\nSUMMARY:"@ == "\r\n"@ + "SUMMARY:"@,
        "\r\nSTATUS:NEEDS-ACTION\r\nEND:VTODO\r\nEND:VCALENDAR\r\n"@ == "\r\n"@
            + "STATUS:NEEDS-ACTION"@ + "\r\n"@ + "END:VTODO\r\nEND:VCALENDAR\r\n"@,
{
    reveal_strlit("\r\n");
    assert("BEGIN:VCALENDAR\r\nVERSION:2.0\r\nPRODID:-//reTaskable//EN\r\nBEGIN:VTODO\r\nUID:"@
        =~= "BEGIN:VCALENDAR\r\nVERSION:2.0\r\nPRODID:-//reTaskable//EN\r\nBEGIN:VTODO"@
        + "\r\n"@ + "UID:"@) by {
        reveal_strlit(
            "BEGIN:VCALENDAR\r\nVERSION:2.0\r\nPRODID:-//reTaskable//EN\r\nBEGIN:VTODO\r\nUID:",
        );
        reveal_strlit(
            "BEGIN:VCALENDAR\r\nVERSION:2.0\r\nPRODID:-//reTaskable//EN\r\nBEGIN:VTODO",
        );
        reveal_strlit("UID:");
    }
    assert("\r\nDTSTAMP:"@ =~= "\r\n"@ + "DTSTAMP:"@) by {
        reveal_strlit("\r\nDTSTAMP:");
        reveal_strlit("DTSTAMP:");
    }
    assert("\r\nCREATED:"@ =~= "\r\n"@ + "CREATED:"@) by {
        reveal_strlit("\r\nCREATED:");
        reveal_strlit("CREATED:");
    }
    assert("\r\nLAST-MODIFIED:"@ =~= "\r\n"@ + "LAST-MODIFIED:"@) by {
        reveal_strlit("\r\nLAST-MODIFIED:");
        reveal_strlit("LAST-MODIFIED:");
    }
    assert("\r\nSUMMARY:"@ =~= "\r\n"@ + "SUMMARY:"@) by {
        reveal_strlit("\r\nSUMMARY:");
        reveal_strlit("SUMMARY:");
    }
    assert("\r\nSTATUS:NEEDS-ACTION\r\nEND:VTODO\r\nEND:VCALENDAR\r\n"@ =~= "\r\n"@
        + "STATUS:NEEDS-ACTION"@ + "\r\n"@ + "END:VTODO\r\nEND:VCALENDAR\r\n"@) by {
        reveal_strlit("\r\nSTATUS:NEEDS-ACTION\r\nEND:VTODO\r\nEND:VCALENDAR\r\n");
        reveal_strlit("STATUS:NEEDS-ACTION");
        reveal_strlit("END:VTODO\r\nEND:VCALENDAR\r\n");
    }
}

proof fn lemma_todo_joined(
    head: Seq<char>,
    e: Seq<char>,
    k1: Seq<char>,
    uid: Seq<char>,
    k2: Seq<char>,
    k3: Seq<char>,
    k4: Seq<char>,
    k5: Seq<char>,
    summary: Seq<char>,
    line: Seq<char>,
    l6: Seq<char>,
    end: Seq<char>,
    now: Seq<char>,
)
    ensures
        ({
            let rd = line + (e + l6 + (e + end));
            let r5 = e + (k5 + summary) + rd;
            let r4 = e + (k4 + now) + r5;
            let r3 = e + (k3 + now) + r4;
            let r2 = e + (k2 + now) + r3;
            let r1 = e + (k1 + uid) + r2;
            (head + e + k1) + uid + (e + k2) + now + (e + k3) + now + (e + k4) + now + (e + k5)
                + summary + line + (e + l6 + e + end) == head + r1
        }),
{
    let rd = line + (e + l6 + (e + end));
    let r5 = e + (k5 + summary) + rd;
    let r4 = e + (k4 + now) + r5;
    let r3 = e + (k3 + now) + r4;
    let r2 = e + (k2 + now) + r3;
    let r1 = e + (k1 + uid) + r2;
    let a1 = (head + e + k1) + uid;
    let a2 = a1 + (e + k2) + now;
    let a3 = a2 + (e + k3) + now;
    let a4 = a3 + (e + k4) + now;
    let a5 = a4 + (e + k5) + summary;
    assert(head + r1 =~= a1 + r2);
    assert(a1 + r2 =~= a2 + r3);
    assert(a2 + r3 =~= a3 + r4);
    assert(a3 + r4 =~= a4 + r5);
    assert(a4 + r5 =~= a5 + rd);
    assert(a5 + rd =~= a5 + line + (e + l6 + e + end));
}

proof fn lemma_due_line(due: Seq<char>)
    requires
        due.len() > 0,
    ensures
        crate::task::due_line(Some(due)) == "\r\n"@ + due_line_of(due),
{
    reveal_strlit("T");
    reveal_strlit("DUE");
    reveal_strlit(":");
    reveal_strlit("DUE:");
    reveal_strlit(";VALUE=DATE");
    reveal_strlit("DUE;VALUE=DATE:");
    if has_sub(due, "T"@) {
        let i = choose|i: int| stands_at(due, "T"@, i);
        assert(due.subrange(i, i + 1)[0] == 'T');
        assert(due[i] == 'T');
    }
    if exists|i: int| 0 <= i < due.len() && #[trigger] due[i] == 'T' {
        let i = choose|i: int| 0 <= i < due.len() && #[trigger] due[i] == 'T';
        assert(due.subrange(i, i + 1) =~= "T"@);
        assert(stands_at(due, "T"@, i));
    }
    let line = crate::task::due_line(Some(due));
    assert(line =~= "\r\n"@ + due_line_of(due));
}

/// Creating a task adds one row at the end, with the summary and the due date that were
/// given, in its columns and in its text; with an empty due date the row has none. It is
/// queued with the same summary and due date, but for the device's own list. It ends well
/// wherever there is a summary, the identifier is new, and the queue has room.
pub proof fn law_create_row(
    s: StoreV,
    cal: Seq<char>,
    uid: Seq<char>,
    summary: Seq<char>,
    due: Seq<char>,
    m: MomentV,
)
    ensures
        created(s, cal, uid, summary, due, m) is Ok == (summary.len() > 0 && finds_room(s, cal)
            && forall|i: int|
            0 <= i < s.tasks.len() ==> !((#[trigger] s.tasks[i]).calendar_href == cal
                && s.tasks[i].href == "pending:"@ + uid)),
        created(s, cal, uid, summary, due, m) matches Ok(done) ==> {
            let t = done.0;
            let row = t.tasks.last();
            &&& t.tasks.len() == s.tasks.len() + 1
            &&& forall|i: int| 0 <= i < s.tasks.len() ==> #[trigger] t.tasks[i] == s.tasks[i]
            &&& row.calendar_href == cal
            &&& row.href == "pending:"@ + uid
            &&& row.etag.len() == 0
            &&& row.uid == uid
            &&& row.summary == summary
            &&& row.status == Some("needs-action"@)
            &&& row.due == if due.len() > 0 {
                Some(due)
            } else {
                None
            }
            &&& !row.pending_delete
            &&& row.anchor is None
            &&& has_line(row.ical_text, "UID:"@ + uid)
            &&& has_line(row.ical_text, "SUMMARY:"@ + ical_escaped(summary))
            &&& has_line(row.ical_text, "STATUS:NEEDS-ACTION"@)
            &&& due.len() > 0 ==> has_line(row.ical_text, due_line_of(due))
            &&& due.len() == 0 ==> row.ical_text == new_todo(uid, summary, None, m.stamp)
            &&& goes_on(
                s,
                t,
                cal,
                uid,
                "create"@,
                Some(
                    json_object(
                        if due.len() > 0 {
                            seq![("summary"@, summary), ("due"@, due)]
                        } else {
                            seq![("summary"@, summary)]
                        },
                    ),
                ),
                m.secs,
            )
            &&& says(
                done.1,
                t,
                cal,
                "Created local task \""@ + summary + "\""@,
                "Queued: create \""@ + summary + "\""@,
            )
        },
{
    reveal_strlit("");
    let d = if due.len() == 0 {
        None
    } else {
        Some(due)
    };
    law_new_todo_lines(uid, summary, d, m.stamp);
    let p = keyed(cal, pending_href(uid));
    lemma_find(s.tasks, p, 0);
    let k = find(s.tasks, p, 0) as int;
    if k < s.tasks.len() {
        assert(p(s.tasks[k]));
    } else {
        assert forall|i: int| 0 <= i < s.tasks.len() implies !((#[trigger] s.tasks[i]).calendar_href
            == cal && s.tasks[i].href == "pending:"@ + uid) by {
            assert(!p(s.tasks[i]));
        }
    }
    if created(s, cal, uid, summary, due, m) is Ok {
        let done = created(s, cal, uid, summary, due, m)->Ok_0;
        reveal_strlit("Created local task");
        reveal_strlit("Created local task \"");
        reveal_strlit("Queued: create");
        reveal_strlit("Queued: create \"");
        reveal_strlit(" \"");
        assert("Created local task"@ + " \""@ =~= "Created local task \""@);
        assert("Queued: create"@ + " \""@ =~= "Queued: create \""@);
    }
}

// --- Toggling ---

/// Toggling a task changes the text and the status of its first visible row, and nothing
/// else of the tasks: a completed task needs action again, any other is completed. The
/// answer tells the state that the screen shows. It ends well wherever there is such a row
/// whose text can be read, and the queue has room.
pub proof fn law_toggle_row(s: StoreV, cal: Seq<char>, uid: Seq<char>, m: MomentV)
    ensures
        match uid_toggled(s, cal, uid, m) {
            Ok(done) => exists|k: int, j: int|
                {
                    let t = done.0;
                    let text = toggled(s.tasks[k].ical_text, m.stamp);
                    &&& #[trigger] is_first_live(s.tasks, k, cal, uid)
                    &&& #[trigger] is_first_row(s.tasks, j, cal, uid)
                    &&& only_changed(s.tasks, t.tasks, k)
                    &&& text is Ok
                    &&& t.tasks[k] == (TaskRowV {
                        ical_text: text->Ok_0.0,
                        status: Some(
                            if text->Ok_0.1 == TaskStatus::Completed {
                                "needs-action"@
                            } else {
                                "completed"@
                            },
                        ),
                        ..s.tasks[k]
                    })
                    &&& goes_on(s, t, cal, uid, "toggle"@, None, m.secs)
                    &&& done.1.uid == uid
                    &&& done.1.completed == (s.tasks[j].status != Some("completed"@))
                    &&& done.1.mark == if cal == "local://default"@ {
                        ""@
                    } else {
                        "*"@
                    }
                },
            Err(_) => forall|k: int|
                finds_room(s, cal) && #[trigger] is_first_live(s.tasks, k, cal, uid) ==> toggled(
                    s.tasks[k].ical_text,
                    m.stamp,
                ) is Err,
        },
{
    lemma_live(s.tasks, cal, uid);
    lemma_row(s.tasks, cal, uid);
    let k = find(s.tasks, live_of_uid(cal, uid), 0) as int;
    let j = find(s.tasks, of_uid(cal, uid), 0) as int;
    reveal_strlit("");
    reveal_strlit("completed");
    if k < s.tasks.len() {
        assert(of_uid(cal, uid)(s.tasks[k]));
        lemma_find(s.tasks, of_uid(cal, uid), 0);
        assert(j < s.tasks.len());
        assert(""@.len() == 0 && "completed"@.len() == 9);
        match uid_toggled(s, cal, uid, m) {
            Ok(done) => {
                let t = done.0;
                let text = toggled(s.tasks[k].ical_text, m.stamp);
                assert(text is Ok);
                assert(only_changed(s.tasks, t.tasks, k));
                assert(goes_on(s, t, cal, uid, "toggle"@, None, m.secs));
                assert(done.1.completed == (s.tasks[j].status != Some("completed"@)));
                assert(t.tasks[k].status == Some(
                    if text->Ok_0.1 == TaskStatus::Completed {
                        "needs-action"@
                    } else {
                        "completed"@
                    },
                ));
            },
            Err(_) => {},
        }
        assert(is_first_live(s.tasks, k, cal, uid));
        assert(is_first_row(s.tasks, j, cal, uid));
    }
}

/// Toggling the task at the top of a list is toggling it by its identifier; an empty list
/// stays as it is.
pub proof fn law_toggle_first(s: StoreV, cal: Seq<char>, m: MomentV)
    ensures
        match first_listed(s, cal) {
            None => first_toggled(s, cal, m) is Ok && first_toggled(s, cal, m)->Ok_0.0 == s,
            Some(top) => match first_toggled(s, cal, m) {
                Ok(done) => {
                    &&& uid_toggled(s, cal, top.uid, m) matches Ok(other) && other.0 == done.0
                    &&& says(
                        done.1,
                        done.0,
                        cal,
                        "Updated local task \""@ + top.summary + "\" -> "@ + new_word(top.status),
                        "Queued: toggle \""@ + top.summary + "\" -> "@ + new_word(top.status),
                    )
                },
                Err(e) => cached_by_uid(s, cal, top.uid) is Some ==> uid_toggled(
                    s,
                    cal,
                    top.uid,
                    m,
                ) is Err && uid_toggled(s, cal, top.uid, m)->Err_0 == e,
            },
        },
{
    if first_listed(s, cal) is Some {
        let top = first_listed(s, cal)->Some_0;
        lemma_live(s.tasks, cal, top.uid);
        lemma_row(s.tasks, cal, top.uid);
        let k = find(s.tasks, live_of_uid(cal, top.uid), 0) as int;
        if k < s.tasks.len() {
            assert(of_uid(cal, top.uid)(s.tasks[k]));
            lemma_find(s.tasks, of_uid(cal, top.uid), 0);
        }
        reveal_strlit("Updated local task");
        reveal_strlit("Updated local task \"");
        reveal_strlit("Queued: toggle");
        reveal_strlit("Queued: toggle \"");
        reveal_strlit(" \"");
        reveal_strlit("\"");
        reveal_strlit(" -> ");
        reveal_strlit("\" -> ");
        let w = new_word(top.status);
        assert("Updated local task"@ + " \""@ + top.summary + "\""@ + " -> "@ + w
            =~= "Updated local task \""@ + top.summary + "\" -> "@ + w);
        assert("Queued: toggle"@ + " \""@ + top.summary + "\""@ + " -> "@ + w
            =~= "Queued: toggle \""@ + top.summary + "\" -> "@ + w);
    }
}

/// The state that a toggle of a task in the state `status` leads to, in words.
pub open spec fn new_word(status: Seq<char>) -> Seq<char> {
    if status == "completed"@ {
        "needs-action"@
    } else {
        "completed"@
    }
}

// --- Editing ---

/// Editing a task changes its first visible row, and nothing else of the tasks: the row has
/// the new summary, and the new due date where one is given, none where that is empty; its
/// text is the one edited. The edit is queued with that same summary and due date, but for
/// the device's own list. It ends well wherever there is such a row and the queue has room.
pub proof fn law_edit_row(
    s: StoreV,
    cal: Seq<char>,
    uid: Seq<char>,
    summary: Seq<char>,
    due: Option<Seq<char>>,
    m: MomentV,
)
    ensures
        match uid_edited(s, cal, uid, summary, due, m) {
            Ok(done) => exists|k: int, j: int|
                {
                    let t = done.0;
                    &&& #[trigger] is_first_live(s.tasks, k, cal, uid)
                    &&& #[trigger] is_first_row(s.tasks, j, cal, uid)
                    &&& only_changed(s.tasks, t.tasks, k)
                    &&& t.tasks[k] == (TaskRowV {
                        ical_text: edited(s.tasks[k].ical_text, summary, due, m.stamp),
                        summary,
                        due: match due {
                            Some(d) => if d.len() > 0 {
                                Some(d)
                            } else {
                                None
                            },
                            None => s.tasks[k].due,
                        },
                        ..s.tasks[k]
                    })
                    &&& goes_on(
                        s,
                        t,
                        cal,
                        uid,
                        "edit"@,
                        Some(
                            json_object(
                                match due {
                                    Some(d) => seq![("summary"@, summary), ("due"@, d)],
                                    None => seq![("summary"@, summary)],
                                },
                            ),
                        ),
                        m.secs,
                    )
                    &&& says(
                        done.1,
                        t,
                        cal,
                        "Updated local task \""@ + s.tasks[j].summary + "\" -> \""@ + summary
                            + "\""@,
                        "Queued: edit \""@ + s.tasks[j].summary + "\" -> \""@ + summary + "\""@,
                    )
                },
            Err(_) => finds_room(s, cal) ==> forall|k: int| !(#[trigger] is_first_live(
                s.tasks,
                k,
                cal,
                uid,
            )),
        },
{
    lemma_live(s.tasks, cal, uid);
    lemma_row(s.tasks, cal, uid);
    let k = find(s.tasks, live_of_uid(cal, uid), 0) as int;
    let j = find(s.tasks, of_uid(cal, uid), 0) as int;
    if k < s.tasks.len() {
        assert(of_uid(cal, uid)(s.tasks[k]));
        lemma_find(s.tasks, of_uid(cal, uid), 0);
        assert(j < s.tasks.len());
        assert(is_first_live(s.tasks, k, cal, uid));
        assert(is_first_row(s.tasks, j, cal, uid));
        lemma_arrow_words("Updated local task"@, s.tasks[j].summary, summary);
        lemma_arrow_words("Queued: edit"@, s.tasks[j].summary, summary);
        reveal_strlit("Updated local task");
        reveal_strlit("Updated local task \"");
        reveal_strlit("Queued: edit");
        reveal_strlit("Queued: edit \"");
        reveal_strlit(" \"");
        assert("Updated local task"@ + " \""@ =~= "Updated local task \""@);
        assert("Queued: edit"@ + " \""@ =~= "Queued: edit \""@);
    }
}

proof fn lemma_arrow_words(a: Seq<char>, b: Seq<char>, c: Seq<char>)
    ensures
        crate::handlers::arrow_quoted(a, b, c) == a + " \""@ + b + "\" -> \""@ + c + "\""@,
{
    reveal_strlit("\"");
    reveal_strlit(" -> \"");
    reveal_strlit("\" -> \"");
    assert("\""@ + " -> \""@ =~= "\" -> \""@);
    assert(a + " \""@ + b + "\""@ + " -> \""@ =~= a + " \""@ + b + ("\""@ + " -> \""@));
}

/// Editing the task at the top of a list gives it the trimmed summary, as an edit by its
/// identifier does that leaves the due date alone; a blank summary is refused and an empty
/// list stays as it is.
pub proof fn law_edit_first(s: StoreV, cal: Seq<char>, summary: Seq<char>, m: MomentV)
    ensures
        trimmed(summary).len() == 0 ==> first_edited(s, cal, summary, m) is Err,
        trimmed(summary).len() > 0 ==> match first_listed(s, cal) {
            None => first_edited(s, cal, summary, m) is Ok && first_edited(s, cal, summary, m)->Ok_0.0
                == s,
            Some(top) => match first_edited(s, cal, summary, m) {
                Ok(done) => {
                    &&& uid_edited(s, cal, top.uid, trimmed(summary), None, m) matches Ok(other)
                        && other.0 == done.0
                    &&& says(
                        done.1,
                        done.0,
                        cal,
                        "Updated local task \""@ + top.summary + "\" -> \""@ + trimmed(summary)
                            + "\""@,
                        "Queued: edit \""@ + top.summary + "\" -> \""@ + trimmed(summary) + "\""@,
                    )
                },
                Err(_) => uid_edited(s, cal, top.uid, trimmed(summary), None, m) is Err,
            },
        },
{
    if first_listed(s, cal) is Some {
        let top = first_listed(s, cal)->Some_0;
        lemma_live(s.tasks, cal, top.uid);
        lemma_row(s.tasks, cal, top.uid);
        let k = find(s.tasks, live_of_uid(cal, top.uid), 0) as int;
        if k < s.tasks.len() {
            assert(of_uid(cal, top.uid)(s.tasks[k]));
            lemma_find(s.tasks, of_uid(cal, top.uid), 0);
        }
        lemma_arrow_words("Updated local task"@, top.summary, trimmed(summary));
        lemma_arrow_words("Queued: edit"@, top.summary, trimmed(summary));
        reveal_strlit("Updated local task");
        reveal_strlit("Updated local task \"");
        reveal_strlit("Queued: edit");
        reveal_strlit("Queued: edit \"");
        reveal_strlit(" \"");
        assert("Updated local task"@ + " \""@ =~= "Updated local task \""@);
        assert("Queued: edit"@ + " \""@ =~= "Queued: edit \""@);
    }
}

// --- Deleting ---

/// Deleting a task of the device's own list takes its rows away and leaves all others.
/// Elsewhere the one visible row of the task is hidden until the server has deleted it, and
/// the delete is queued.
pub proof fn law_delete_row(s: StoreV, cal: Seq<char>, uid: Seq<char>, m: MomentV)
    ensures
        match uid_deleted(s, cal, uid, m) {
            Ok(done) => {
                let t = done.0;
                &&& goes_on(s, t, cal, uid, "delete"@, None, m.secs)
                &&& cal == "local://default"@ ==> t.tasks == s.tasks.filter(
                    |r: TaskRowV| r.calendar_href != cal || r.uid != uid,
                )
                &&& cal != "local://default"@ ==> exists|k: int| #[trigger]
                    is_first_live(s.tasks, k, cal, uid) && only_changed(s.tasks, t.tasks, k)
                        && t.tasks[k] == (TaskRowV { pending_delete: true, ..s.tasks[k] })
                &&& exists|j: int| #[trigger]
                    is_first_row(s.tasks, j, cal, uid) && says(
                        done.1,
                        t,
                        cal,
                        "Deleted local task \""@ + s.tasks[j].summary + "\""@,
                        "Queued: delete \""@ + s.tasks[j].summary + "\""@,
                    )
            },
            Err(_) => {
                &&& cal == "local://default"@ ==> forall|j: int| !(#[trigger] is_first_row(
                    s.tasks,
                    j,
                    cal,
                    uid,
                ))
                &&& cal != "local://default"@ && finds_room(s, cal) ==> count(
                    s.tasks,
                    live_of_uid(cal, uid),
                ) != 1
            },
        },
{
    lemma_live(s.tasks, cal, uid);
    lemma_row(s.tasks, cal, uid);
    let k = find(s.tasks, live_of_uid(cal, uid), 0) as int;
    let j = find(s.tasks, of_uid(cal, uid), 0) as int;
    if cal == LOCAL_LIST_ID@ {
        assert(crate::cache::not_of_uid(cal, uid) =~= (|r: TaskRowV|
            r.calendar_href != cal || r.uid != uid));
    } else {
        lemma_filter_empty(s.tasks, live_of_uid(cal, uid));
    }
    if k < s.tasks.len() {
        assert(of_uid(cal, uid)(s.tasks[k]));
        lemma_find(s.tasks, of_uid(cal, uid), 0);
        assert(is_first_live(s.tasks, k, cal, uid));
    }
    if j < s.tasks.len() {
        assert(is_first_row(s.tasks, j, cal, uid));
        reveal_strlit("Deleted local task");
        reveal_strlit("Deleted local task \"");
        reveal_strlit("Queued: delete");
        reveal_strlit("Queued: delete \"");
        reveal_strlit(" \"");
        assert("Deleted local task"@ + " \""@ =~= "Deleted local task \""@);
        assert("Queued: delete"@ + " \""@ =~= "Queued: delete \""@);
    }
}

/// Deleting the task at the top of a list is deleting it by its identifier; an empty list
/// stays as it is.
pub proof fn law_delete_first(s: StoreV, cal: Seq<char>, m: MomentV)
    ensures
        match first_listed(s, cal) {
            None => first_deleted(s, cal, m) is Ok && first_deleted(s, cal, m)->Ok_0.0 == s,
            Some(top) => match first_deleted(s, cal, m) {
                Ok(done) => {
                    &&& uid_deleted(s, cal, top.uid, m) matches Ok(other) && other.0 == done.0
                    &&& says(
                        done.1,
                        done.0,
                        cal,
                        "Deleted local task \""@ + top.summary + "\""@,
                        "Queued: delete \""@ + top.summary + "\""@,
                    )
                },
                Err(_) => uid_deleted(s, cal, top.uid, m) is Err,
            },
        },
{
    if first_listed(s, cal) is Some {
        let top = first_listed(s, cal)->Some_0;
        lemma_live(s.tasks, cal, top.uid);
        lemma_row(s.tasks, cal, top.uid);
        lemma_filter_empty(s.tasks, live_of_uid(cal, top.uid));
        let k = find(s.tasks, live_of_uid(cal, top.uid), 0) as int;
        if k < s.tasks.len() {
            assert(of_uid(cal, top.uid)(s.tasks[k]));
        }
        lemma_find(s.tasks, of_uid(cal, top.uid), 0);
        reveal_strlit("Deleted local task");
        reveal_strlit("Deleted local task \"");
        reveal_strlit("Queued: delete");
        reveal_strlit("Queued: delete \"");
        reveal_strlit(" \"");
        assert("Deleted local task"@ + " \""@ =~= "Deleted local task \""@);
        assert("Queued: delete"@ + " \""@ =~= "Queued: delete \""@);
    }
}

// --- Taking in ---

/// A captured to-do with a summary becomes the last row, under the trimmed summary, without
/// a due date, and with the place where it was captured, if it says one. It is queued but
/// for the device's own list. One without a summary changes nothing.
pub proof fn law_captured_row(
    s: StoreV,
    cal: Seq<char>,
    item: IntakeItemV,
    uid: Seq<char>,
    m: MomentV,
)
    ensures
        trimmed(item.summary).len() == 0 ==> taken_in(s, cal, item, uid, m) == Ok::<
            (StoreV, bool),
            FailureV,
        >((s, false)),
        trimmed(item.summary).len() > 0 ==> match taken_in(s, cal, item, uid, m) {
            Ok(done) => {
                let t = done.0;
                let row = t.tasks.last();
                &&& done.1
                &&& t.tasks.len() == s.tasks.len() + 1
                &&& forall|i: int| 0 <= i < s.tasks.len() ==> #[trigger] t.tasks[i] == s.tasks[i]
                &&& row.calendar_href == cal && row.uid == uid && row.href == "pending:"@ + uid
                &&& row.summary == trimmed(item.summary)
                &&& row.status == Some("needs-action"@)
                &&& row.due is None
                &&& row.etag.len() == 0 && !row.pending_delete
                &&& row.ical_text == new_todo(uid, trimmed(item.summary), None, m.stamp)
                &&& match row.anchor {
                    Some(a) => a.doc_uuid == item.source_doc_uuid && a.page_key
                        == item.source_page_key && a.label == item.source_label && (
                    item.source_doc_uuid.len() > 0 || item.source_page_key.len() > 0
                        || item.source_label.len() > 0),
                    None => item.source_doc_uuid.len() == 0 && item.source_page_key.len() == 0
                        && item.source_label.len() == 0,
                }
                &&& goes_on(
                    s,
                    t,
                    cal,
                    uid,
                    "create"@,
                    Some(json_object(seq![("summary"@, trimmed(item.summary))])),
                    m.secs,
                )
            },
            Err(_) => finds_room(s, cal) ==> exists|i: int|
                0 <= i < s.tasks.len() && (#[trigger] s.tasks[i]).calendar_href == cal
                    && s.tasks[i].href == "pending:"@ + uid,
        },
{
    reveal_strlit("");
    let p = keyed(cal, pending_href(uid));
    lemma_find(s.tasks, p, 0);
    let k = find(s.tasks, p, 0) as int;
    if k < s.tasks.len() {
        assert(p(s.tasks[k]));
    }
}

// --- Copying and moving to another list ---

/// A transfer queues a visible task of the device's own list for another one, under a new
/// identifier: the last row has its summary, due date and place of capture. A move takes
/// the rows of the task off the device's own list, a copy leaves all rows.
pub proof fn law_transfer_row(
    s: StoreV,
    uid: Seq<char>,
    destination: Seq<char>,
    moves: bool,
    new_uid: Seq<char>,
    m: MomentV,
)
    requires
        destination != "local://default"@,
    ensures
        match transferred(s, uid, destination, moves, new_uid, m) {
            Ok(done) => exists|k: int, row: TaskRowV|
                {
                    let t = done.0;
                    let old = s.tasks[k];
                    &&& #[trigger] is_first_live(s.tasks, k, "local://default"@, uid)
                    &&& t.tasks == (if moves {
                        s.tasks.filter(
                            |r: TaskRowV| r.calendar_href != "local://default"@ || r.uid != uid,
                        )
                    } else {
                        s.tasks
                    }).push(row)
                    &&& #[trigger] row.calendar_href == destination && row.uid == new_uid
                        && row.href == "pending:"@ + new_uid
                    &&& row.summary == old.summary && row.due == old.due && row.anchor == old.anchor
                    &&& row.status == Some("needs-action"@) && row.etag.len() == 0
                        && !row.pending_delete
                    &&& row.ical_text == new_todo(new_uid, old.summary, old.due, m.stamp)
                    &&& t.calendars == s.calendars
                    &&& done.1 == s.last_op_id + 1
                    &&& waits_anew(
                        s,
                        t,
                        destination,
                        new_uid,
                        "create"@,
                        Some(
                            json_object(
                                match old.due {
                                    Some(d) => seq![("summary"@, old.summary), ("due"@, d)],
                                    None => seq![("summary"@, old.summary)],
                                },
                            ),
                        ),
                        m.secs,
                    )
                },
            Err(_) => forall|k: int| #[trigger]
                is_first_live(s.tasks, k, "local://default"@, uid) && s.last_op_id < i64::MAX
                    ==> exists|i: int|
                    0 <= i < s.tasks.len() && (#[trigger] s.tasks[i]).calendar_href == destination
                        && s.tasks[i].href == "pending:"@ + new_uid,
        },
{
    let own = LOCAL_LIST_ID@;
    reveal_strlit("");
    lemma_live(s.tasks, own, uid);
    let k = find(s.tasks, live_of_uid(own, uid), 0) as int;
    let p = keyed(destination, pending_href(new_uid));
    lemma_find(s.tasks, p, 0);
    let i = find(s.tasks, p, 0) as int;
    if i < s.tasks.len() {
        assert(p(s.tasks[i]));
    }
    match transferred(s, uid, destination, moves, new_uid, m) {
        Ok(done) => {
            let old = s.tasks[k];
            let made = create_queued(
                s,
                destination,
                new_uid,
                old.summary,
                old.due,
                old.anchor,
                m.stamp,
                m.secs,
            )->Ok_0.0;
            let row = made.tasks.last();
            assert(made.tasks == s.tasks.push(row));
            let stays = |r: TaskRowV| r.calendar_href != "local://default"@ || r.uid != uid;
            assert(crate::cache::not_of_uid(own, uid) =~= stays);
            if moves {
                reveal(Seq::filter);
                assert(s.tasks.push(row).drop_last() =~= s.tasks);
                assert(stays(row));
                assert(made.tasks.filter(stays) == s.tasks.filter(stays).push(row));
            }
            assert(is_first_live(s.tasks, k, "local://default"@, uid));
            assert(row.calendar_href == destination);
        },
        Err(_) => {},
    }
}

// --- Results ---

/// What a change that is answered in words comes back with: the words and the tables of its
/// outcome, or its failure with the tables as they were.
pub proof fn law_answer_is_the_outcome(
    r: Result<String, Failure>,
    before: StoreV,
    after: StoreV,
    outcome: Result<(StoreV, Seq<char>), FailureV>,
)
    requires
        answers(r, before, after, outcome),
    ensures
        match r {
            Ok(words) => outcome == Ok::<(StoreV, Seq<char>), FailureV>((after, words@)),
            Err(e) => outcome == Err::<(StoreV, Seq<char>), FailureV>(e@) && after == before,
        },
{
}

/// What a queued change comes back with: the number of its operation and the tables of its
/// outcome, or its failure with the tables as they were.
pub proof fn law_number_is_the_outcome(
    r: Result<i64, Failure>,
    before: StoreV,
    after: StoreV,
    outcome: Result<(StoreV, int), FailureV>,
)
    requires
        committed(r, before, after, outcome),
    ensures
        match r {
            Ok(id) => outcome == Ok::<(StoreV, int), FailureV>((after, id as int)),
            Err(e) => outcome == Err::<(StoreV, int), FailureV>(e@) && after == before,
        },
{
}

/// What a change of the device's own list comes back with: the tables of its outcome, or its
/// failure with the tables as they were.
pub proof fn law_tables_are_the_outcome(
    r: Result<(), Failure>,
    before: StoreV,
    after: StoreV,
    outcome: Result<StoreV, FailureV>,
)
    requires
        changed(r, before, after, outcome),
    ensures
        match r {
            Ok(()) => outcome == Ok::<StoreV, FailureV>(after),
            Err(e) => outcome == Err::<StoreV, FailureV>(e@) && after == before,
        },
{
}

} // verus!
