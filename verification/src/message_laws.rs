//! What each message of the screen does, from its words to the tables and the answer.
use vstd::prelude::*;
use crate::cache::{knows_calendar, with_local_list};
use crate::change_laws::{due_line_of, has_line, law_create_row};
use crate::clock::MomentV;
use crate::config::ConfigV;
use crate::diagnostics::{last_of, line_of, lines_of, scrubbed, unterminated};
use crate::dispatch::{answered, needs_outside, BodyV};
use crate::failure::FailureV;
use crate::handlers::{
    active_href, create_in_message, created, edit_in_message, first_deleted, first_edited,
    first_toggled, list_selected, uid_deleted, uid_edited, uid_toggled, IntakeItemV,
};
use crate::intake::{file_taken, handed_over, VerdictV};
use crate::json::{json_top, JsonTopV};
use crate::messages::{code_of, Ask};
use crate::pending::{cleared, given_up};
use crate::screen::{
    known_lists, note_command, screen_queue, transfer_answer, transfer_in_message, transferred,
    TransferRequestV,
};
use crate::settings_laws::{is_silent, law_create_is_read, tells};
use crate::store::{PendingOpV, StoreV};
use crate::table_laws::{law_lists_are_looked_up, law_own_list_is_known};
use crate::text::{decimal, lines_inclusive, signed_decimal, trimmed};
use crate::weburl::{create_url, joined_url, parsed_url, path_fits, task_url, with_path};

verus! {

// --- Numbers ---

/// The number of each message.
pub proof fn law_message_numbers()
    ensures
        code_of(Ask::Ping) == 1 && code_of(Ask::TestNextcloud) == 2 && code_of(Ask::ListCalendars)
            == 3 && code_of(Ask::ShowTasks) == 4 && code_of(Ask::Sync) == 5,
        code_of(Ask::ToggleFirst) == 6 && code_of(Ask::DeleteFirst) == 7 && code_of(Ask::CreateTask)
            == 8 && code_of(Ask::EditFirst) == 9 && code_of(Ask::ShowPending) == 10,
        code_of(Ask::ClearErrored) == 11 && code_of(Ask::ResolveFirstConflict) == 12 && code_of(
            Ask::ConflictDecision,
        ) == 13 && code_of(Ask::ToggleByUid) == 14 && code_of(Ask::GetConfig) == 15,
        code_of(Ask::SaveConfig) == 16 && code_of(Ask::DiscoverWith) == 17 && code_of(
            Ask::DrainIntake,
        ) == 18 && code_of(Ask::EditByUid) == 19 && code_of(Ask::DeleteByUid) == 20,
        code_of(Ask::OpenNote) == 21 && code_of(Ask::ListSources) == 22 && code_of(
            Ask::SelectSource,
        ) == 23 && code_of(Ask::TransferTask) == 24 && code_of(Ask::GetDiagnostics) == 25,
{
}

// --- Changes ---

/// The message is refused: the answer tells an error, and the tables are as they were but
/// for the device's own list, which may have become known.
pub open spec fn is_refused(s: StoreV, out: (StoreV, Option<BodyV>)) -> bool {
    &&& out.0 == s || out.0 == with_local_list(s)
    &&& out.1 matches Some(BodyV::Text(w)) && exists|e: Seq<char>| w == #[trigger] ("error: "@ + e)
}

/// A message to create a task, with a summary that is not blank, adds a row to the list to
/// work on: under the trimmed summary, and with the trimmed due date of the message if it
/// has one, in its columns and in its text. It is refused where it has no summary.
pub proof fn law_create_message(
    s: StoreV,
    cfg: ConfigV,
    top: JsonTopV,
    contents: Seq<char>,
    summary: Seq<char>,
    uid: Seq<char>,
    m: MomentV,
)
    requires
        json_top(contents) == Ok::<JsonTopV, Seq<char>>(top),
        top.is_object,
        tells(top, "summary"@, summary),
    ensures
        ({
            let out = answered(s, cfg, Ask::CreateTask, contents, uid, m);
            let t = with_local_list(s);
            let cal = active_href(t, cfg);
            &&& trimmed(summary).len() == 0 ==> is_refused(s, out)
            &&& trimmed(summary).len() > 0 ==> {
                ||| is_refused(s, out)
                ||| {
                    let row = out.0.tasks.last();
                    &&& out.0.tasks.len() == s.tasks.len() + 1
                    &&& forall|i: int| 0 <= i < s.tasks.len() ==> #[trigger] out.0.tasks[i]
                        == s.tasks[i]
                    &&& row.calendar_href == cal && row.uid == uid
                    &&& row.summary == trimmed(summary)
                    &&& forall|d: Seq<char>| #[trigger]
                        tells(top, "due"@, d) && trimmed(d).len() > 0 ==> row.due == Some(
                            trimmed(d),
                        ) && has_line(row.ical_text, due_line_of(trimmed(d)))
                    &&& (is_silent(top, "due"@) || tells(top, "due"@, Seq::empty())) ==> row.due
                        is None
                }
            }
        }),
{
    let t = with_local_list(s);
    let cal = active_href(t, cfg);
    let r = create_in_message(contents);
    let out = answered(s, cfg, Ask::CreateTask, contents, uid, m);
    law_create_is_read(contents);
    law_own_list_is_known(s);
    assert(r.0 == trimmed(summary));
    if r.0.len() == 0 {
        let e = "summary cannot be empty"@;
        assert(out.1 == Some(BodyV::Text("error: "@ + e)));
    } else {
        law_create_row(t, cal, uid, r.0, r.1, m);
        match created(t, cal, uid, r.0, r.1, m) {
            Ok(done) => {
                assert(out.0 == done.0);
                assert(t.tasks == s.tasks);
                if tells(top, "due"@, Seq::empty()) {
                    assert(trimmed(Seq::<char>::empty()).len() == 0) by {
                        assert(crate::text::trim_start(Seq::<char>::empty())
                            == Seq::<char>::empty());
                    }
                }
            },
            Err(e) => {
                assert(out.1 == Some(BodyV::Text("error: "@ + e.message)));
            },
        }
    }
}

/// A message whose change ends well is answered with the words of the change, and the tables
/// are those after it; one whose change is refused is answered with the error.
pub open spec fn relays(
    s: StoreV,
    out: (StoreV, Option<BodyV>),
    change: Result<(StoreV, Seq<char>), FailureV>,
) -> bool {
    match change {
        Ok(done) => out.0 == done.0 && out.1 == Some(BodyV::Text(done.1)),
        Err(e) => out.0 == s && out.1 == Some(BodyV::Text("error: "@ + e.message)),
    }
}

/// Each message about a task makes the change that it names, on the list to work on, once
/// the device's own list is known: creating under the given identifier, and toggling,
/// editing and deleting the task at the top or the one whose identifier the message gives.
pub proof fn law_messages_make_changes(
    s: StoreV,
    cfg: ConfigV,
    contents: Seq<char>,
    uid: Seq<char>,
    m: MomentV,
)
    ensures
        ({
            let t = with_local_list(s);
            let cal = active_href(t, cfg);
            &&& relays(
                t,
                answered(s, cfg, Ask::ToggleFirst, contents, uid, m),
                first_toggled(t, cal, m),
            )
            &&& relays(
                t,
                answered(s, cfg, Ask::DeleteFirst, contents, uid, m),
                first_deleted(t, cal, m),
            )
            &&& trimmed(contents).len() > 0 ==> relays(
                t,
                answered(s, cfg, Ask::EditFirst, contents, uid, m),
                first_edited(t, cal, contents, m),
            )
            &&& create_in_message(contents).0.len() > 0 ==> relays(
                t,
                answered(s, cfg, Ask::CreateTask, contents, uid, m),
                created(
                    t,
                    cal,
                    uid,
                    create_in_message(contents).0,
                    create_in_message(contents).1,
                    m,
                ),
            )
            &&& trimmed(contents).len() > 0 ==> relays(
                t,
                answered(s, cfg, Ask::DeleteByUid, contents, uid, m),
                uid_deleted(t, cal, trimmed(contents), m),
            )
            &&& edit_in_message(contents) matches Ok(e) ==> relays(
                t,
                answered(s, cfg, Ask::EditByUid, contents, uid, m),
                uid_edited(t, cal, e.uid, e.summary, e.due, m),
            )
            &&& transfer_in_message(contents) matches Ok(r) ==> relays(
                s,
                answered(s, cfg, Ask::TransferTask, contents, uid, m),
                transfer_answer(s, r, uid, m),
            )
            &&& trimmed(contents).len() > 0 ==> match uid_toggled(t, cal, trimmed(contents), m) {
                Ok(done) => answered(s, cfg, Ask::ToggleByUid, contents, uid, m) == (
                    done.0,
                    Some(BodyV::Toggled(done.1)),
                ),
                Err(e) => answered(s, cfg, Ask::ToggleByUid, contents, uid, m) == (
                    t,
                    Some(BodyV::Text("error: "@ + e.message)),
                ),
            }
        }),
{
}

/// A message without an identifier or a summary, where it takes one, changes nothing.
pub proof fn law_blank_messages(
    s: StoreV,
    cfg: ConfigV,
    contents: Seq<char>,
    uid: Seq<char>,
    m: MomentV,
)
    ensures
        trimmed(contents).len() == 0 ==> answered(s, cfg, Ask::ToggleByUid, contents, uid, m) == (
            s,
            Some(BodyV::Text("error: "@ + "uid cannot be empty"@)),
        ),
        trimmed(contents).len() == 0 ==> answered(s, cfg, Ask::DeleteByUid, contents, uid, m) == (
            s,
            Some(BodyV::Text("error: "@ + "uid cannot be empty"@)),
        ),
        trimmed(contents).len() == 0 ==> answered(s, cfg, Ask::EditFirst, contents, uid, m) == (
            s,
            Some(BodyV::Text("error: "@ + "summary cannot be empty"@)),
        ),
        create_in_message(contents).0.len() == 0 ==> answered(
            s,
            cfg,
            Ask::CreateTask,
            contents,
            uid,
            m,
        ) == (s, Some(BodyV::Text("error: "@ + "summary cannot be empty"@))),
        edit_in_message(contents) is Err ==> answered(s, cfg, Ask::EditByUid, contents, uid, m).0
            == s,
        transfer_in_message(contents) is Err ==> answered(
            s,
            cfg,
            Ask::TransferTask,
            contents,
            uid,
            m,
        ).0 == s,
{
}

/// A message that only asks changes no task, no operation and no number: it shows the list to
/// work on, the queue or the known lists.
pub proof fn law_asking_messages(
    s: StoreV,
    cfg: ConfigV,
    ask: Ask,
    contents: Seq<char>,
    uid: Seq<char>,
    m: MomentV,
)
    requires
        ask == Ask::Ping || ask == Ask::ShowTasks || ask == Ask::ShowPending || ask
            == Ask::ListSources || needs_outside(ask),
    ensures
        answered(s, cfg, ask, contents, uid, m).0.tasks == s.tasks,
        answered(s, cfg, ask, contents, uid, m).0.ops == s.ops,
        answered(s, cfg, ask, contents, uid, m).0.last_op_id == s.last_op_id,
        ask == Ask::ShowPending ==> answered(s, cfg, ask, contents, uid, m).1 == Some(
            BodyV::Pending(screen_queue(s, m.secs)),
        ),
        ask == Ask::ListSources ==> ({
            let t = with_local_list(s);
            answered(s, cfg, ask, contents, uid, m).1 == Some(
                BodyV::Sources(active_href(t, cfg), known_lists(t.calendars)),
            )
        }),
        ask == Ask::Ping ==> answered(s, cfg, ask, contents, uid, m).1 == Some(
            BodyV::Text("pong from reTaskable"@),
        ),
        answered(s, cfg, ask, contents, uid, m).1 is None == needs_outside(ask),
{
    law_own_list_is_known(s);
}

/// A message to clear what was given up clears the tables, and tells how many operations
/// went.
pub proof fn law_clearing_message(
    s: StoreV,
    cfg: ConfigV,
    contents: Seq<char>,
    uid: Seq<char>,
    m: MomentV,
)
    ensures
        ({
            let out = answered(s, cfg, Ask::ClearErrored, contents, uid, m);
            let n = s.ops.filter(|o: PendingOpV| o.errored == 1).len();
            &&& out.0 == cleared(s)
            &&& n == 0 ==> out.1 == Some(BodyV::Text("No errored ops to clear."@))
            &&& n > 0 ==> out.1 == Some(
                BodyV::Text(
                    "Cleared "@ + decimal(n) + " errored op(s). Tap Sync to reconcile."@,
                ),
            )
        }),
{
    assert(given_up() =~= (|o: PendingOpV| o.errored == 1));
}

/// A transfer goes to a list that is known, and is a move just where the message says so; the
/// answer has the number of the queued operation.
pub proof fn law_transfer_answer(s: StoreV, r: TransferRequestV, uid: Seq<char>, m: MomentV)
    ensures
        !knows_calendar(s, r.destination) ==> transfer_answer(s, r, uid, m) is Err,
        knows_calendar(s, r.destination) ==> match transferred(
            s,
            r.uid,
            r.destination,
            r.operation == "move"@,
            uid,
            m,
        ) {
            Ok(done) => transfer_answer(s, r, uid, m) == Ok::<(StoreV, Seq<char>), FailureV>(
                (
                    done.0,
                    "Queued: "@ + r.operation + " local task to synced list (#"@ + signed_decimal(
                        done.1,
                    ) + ")"@,
                ),
            ),
            Err(e) => transfer_answer(s, r, uid, m) == Err::<(StoreV, Seq<char>), FailureV>(e),
        },
{
}

// --- Files of captured to-dos ---

/// A file is meant for the intake where its name is a stem and the extension `.json`.
pub proof fn law_intake_names(name: Seq<char>)
    ensures
        handed_over(name) == exists|stem: Seq<char>|
            stem.len() > 0 && name == #[trigger] (stem + ".json"@),
{
    reveal_strlit(".json");
    if handed_over(name) {
        let stem = name.take(name.len() - 5);
        assert(name.subrange(name.len() - 5, name.len() as int) == ".json"@);
        assert(name =~= stem + ".json"@);
    }
    if exists|stem: Seq<char>| stem.len() > 0 && name == #[trigger] (stem + ".json"@) {
        let stem = choose|stem: Seq<char>| stem.len() > 0 && name == #[trigger] (stem + ".json"@);
        assert(name.subrange(name.len() - 5, name.len() as int) =~= ".json"@);
    }
}

/// A file that cannot be read, and one without a summary, stays; one with a summary is taken
/// unless the task cannot be queued.
pub proof fn law_files_are_taken(
    s: StoreV,
    cal: Seq<char>,
    read: Result<IntakeItemV, Seq<char>>,
    uid: Seq<char>,
    m: MomentV,
)
    ensures
        read matches Err(why) ==> file_taken(s, cal, read, uid, m) == (s, VerdictV::Left(why)),
        read matches Ok(item) ==> {
            &&& trimmed(item.summary).len() == 0 ==> file_taken(s, cal, read, uid, m).0 == s
                && file_taken(s, cal, read, uid, m).1 is Left
            &&& trimmed(item.summary).len() > 0 ==> match crate::handlers::taken_in(
                s,
                cal,
                item,
                uid,
                m,
            ) {
                Ok(done) => file_taken(s, cal, read, uid, m) == (done.0, VerdictV::Taken),
                Err(e) => file_taken(s, cal, read, uid, m) == (
                    s,
                    VerdictV::Left("enqueue failed: "@ + e.message),
                ),
            }
        },
{
}

// --- The log ---

/// An event keeps its characters in the log, but for line breaks, which are blanks there.
pub proof fn law_event_on_one_line(event: Seq<char>)
    ensures
        scrubbed(event).len() == event.len(),
        forall|i: int|
            0 <= i < event.len() ==> #[trigger] scrubbed(event)[i] == if event[i] == '\r'
                || event[i] == '\n' {
                ' '
            } else {
                event[i]
            },
{
}

/// The line of the log begins with the time and a blank, and ends with the event.
pub proof fn law_log_line(stamp: Seq<char>, event: Seq<char>)
    ensures
        ({
            let l = line_of(stamp, event);
            &&& l.len() == stamp.len() + event.len() + 2
            &&& l.take(stamp.len() as int) == stamp
            &&& l[stamp.len() as int] == ' '
            &&& l.last() == '\n'
            &&& l.subrange((stamp.len() + 1) as int, l.len() - 1) == scrubbed(event)
        }),
{
    reveal_strlit(" ");
    reveal_strlit("\n");
    let l = line_of(stamp, event);
    assert(l.take(stamp.len() as int) =~= stamp);
    assert(l.subrange((stamp.len() + 1) as int, l.len() - 1) =~= scrubbed(event));
}

/// The end of the log is its last lines, all of them where there are no more than asked for;
/// each is a line of the log without its line end.
pub proof fn law_end_of_log(raw: Seq<char>, n: nat)
    ensures
        ({
            let all = lines_inclusive(raw);
            let kept = last_of(lines_of(raw), n);
            &&& kept.len() == if all.len() < n {
                all.len()
            } else {
                n
            }
            &&& forall|i: int|
                0 <= i < kept.len() ==> {
                    let line = all[all.len() - kept.len() + i];
                    ||| line == (#[trigger] kept[i]) + seq!['\r', '\n']
                    ||| line == kept[i] + seq!['\n'] && (kept[i].len() > 0 ==> kept[i].last()
                        != '\r')
                    ||| line == kept[i] && (line.len() > 0 ==> line.last() != '\n')
                }
        }),
{
    let all = lines_inclusive(raw);
    let lines = lines_of(raw);
    let kept = last_of(lines, n);
    assert forall|i: int| 0 <= i < kept.len() implies {
        let line = all[all.len() - kept.len() + i];
        ||| line == (#[trigger] kept[i]) + seq!['\r', '\n']
        ||| line == kept[i] + seq!['\n'] && (kept[i].len() > 0 ==> kept[i].last() != '\r')
        ||| line == kept[i] && (line.len() > 0 ==> line.last() != '\n')
    } by {
        let line = all[all.len() - kept.len() + i];
        assert(kept[i] == unterminated(line));
        if line.len() > 0 && line.last() == '\n' {
            let m = line.drop_last();
            if m.len() > 0 && m.last() == '\r' {
                assert(line =~= m.drop_last() + seq!['\r', '\n']);
            } else {
                assert(line =~= m + seq!['\n']);
            }
        }
    }
}

// --- Addresses ---

/// The address of a task is its own where that is a whole one, else it is resolved against
/// that of its list.
pub proof fn law_task_address(calendar_url: Seq<char>, href: Seq<char>)
    ensures
        parsed_url(href) matches Ok(p) ==> task_url(calendar_url, href) == Ok::<
            Seq<char>,
            Seq<char>,
        >(p.text),
        parsed_url(href) is Err ==> task_url(calendar_url, href) == joined_url(calendar_url, href),
{
}

/// The address of a new task is its identifier with the extension `.ics`, in the collection:
/// resolved against the address of the list, with a slash behind its path.
pub proof fn law_new_task_address(calendar_url: Seq<char>, uid: Seq<char>)
    requires
        parsed_url(calendar_url) is Ok,
    ensures
        ({
            let p = parsed_url(calendar_url)->Ok_0;
            &&& p.path.len() > 0 && p.path.last() == '/' ==> create_url(calendar_url, uid)
                == joined_url(p.text, uid + ".ics"@)
            &&& (p.path.len() == 0 || p.path.last() != '/') && path_fits(p.text, p.path + "/"@)
                && with_path(p.text, p.path + "/"@) is Some ==> create_url(calendar_url, uid)
                == joined_url(with_path(p.text, p.path + "/"@)->Some_0, uid + ".ics"@)
        }),
{
    reveal_strlit("/");
    let p = parsed_url(calendar_url)->Ok_0;
    let n = p.path.len();
    if n > 0 {
        assert(p.path.subrange(n - 1, n as int)[0] == p.path.last());
        if p.path.last() == '/' {
            assert(p.path.subrange(n - 1, n as int) =~= "/"@);
        }
    }
}

// --- Notes and lists ---

/// A list is selected where it is known, by its name without the white space around it; any
/// other name is refused.
pub proof fn law_selecting_a_list(s: StoreV, id: Seq<char>)
    ensures
        match list_selected(s, id) {
            Ok(l) => l == trimmed(id) && l.len() > 0 && exists|i: int|
                0 <= i < s.calendars.len() && (#[trigger] s.calendars[i]).href == l,
            Err(_) => trimmed(id).len() == 0 || forall|i: int|
                0 <= i < s.calendars.len() ==> (#[trigger] s.calendars[i]).href != trimmed(id),
        },
{
    law_lists_are_looked_up(s, trimmed(id), Seq::empty());
}

/// The command that opens a note begins with the letter that routes it to the screen, names
/// the note without the white space around it, and ends in a line feed; a blank name is
/// refused.
pub proof fn law_opening_a_note(anchor: Seq<char>)
    ensures
        match note_command(anchor) {
            Ok(c) => {
                let head = "ureTaskableJump:"@;
                &&& trimmed(anchor).len() > 0
                &&& c.len() == head.len() + trimmed(anchor).len() + 1
                &&& c.take(head.len() as int) == head
                &&& c.subrange(head.len() as int, c.len() - 1) == trimmed(anchor)
                &&& c.last() == '\n'
            },
            Err(_) => trimmed(anchor).len() == 0,
        },
{
    reveal_strlit("\n");
    let head = "ureTaskableJump:"@;
    let c = head + trimmed(anchor) + "\n"@;
    assert(c.take(head.len() as int) =~= head);
    assert(c.subrange(head.len() as int, c.len() - 1) =~= trimmed(anchor));
}

} // verus!
