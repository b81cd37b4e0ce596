//! Answering the screen's messages that need nothing but the tables and the
//! settings.
use vstd::prelude::*;
use crate::cache::with_local_list;
use crate::clock::{Moment, MomentV};
use crate::config::{Config, ConfigV};
use crate::failure::{plain, Failure, FailureV};
use crate::handlers::{
    active_href, active_list_href, create, create_in_message, created, delete_by_uid_inner,
    delete_first, edit_by_uid_inner, edit_first, edit_in_message, first_deleted, first_edited,
    first_toggled, parse_create, parse_edit, parse_uid, toggle_by_uid_inner, toggle_first,
    uid_deleted, uid_edited, uid_toggled, Answered, ToggleReply, ToggleReplyV,
};
use crate::messages::{error_text, Ask};
use crate::pending::{cleared, given_up};
use crate::screen::{
    clear_errored_reply, cleared_line, known_lists, list_calendars, list_entries, parse_transfer,
    screen_list, screen_queue, show_pending, show_tasks, transfer_answer, transfer_in_message,
    transfer_task, wants_completed, PendingReply, PendingReplyV, TaskListReply, TaskListReplyV,
};
use crate::seqs::count;
use crate::store::{Store, StoreV};
use crate::text::{char_count, trim, trimmed};

verus! {

/// An answer to the screen.
#[derive(Debug)]
pub enum Body {
    Text(String),
    Tasks(TaskListReply),
    Toggled(ToggleReply),
    Pending(PendingReply),
    Sources(String, Vec<(String, String)>),
}

pub enum BodyV {
    Text(Seq<char>),
    Tasks(TaskListReplyV),
    Toggled(ToggleReplyV),
    Pending(PendingReplyV),
    Sources(Seq<char>, Seq<(Seq<char>, Seq<char>)>),
}

impl View for Body {
    type V = BodyV;

    open spec fn view(&self) -> BodyV {
        match self {
            Body::Text(t) => BodyV::Text(t@),
            Body::Tasks(r) => BodyV::Tasks(r@),
            Body::Toggled(r) => BodyV::Toggled(r@),
            Body::Pending(r) => BodyV::Pending(r@),
            Body::Sources(a, l) => BodyV::Sources(a@, list_entries(l@)),
        }
    }
}

/// A failure, as the screen is told of it.
pub open spec fn told(e: FailureV) -> BodyV {
    BodyV::Text("error: "@ + e.message)
}

/// The tables and the answer of a request that is refused, or answered in words.
pub open spec fn in_words(s: StoreV, a: Answered) -> (StoreV, BodyV) {
    match a {
        Ok(done) => (done.0, BodyV::Text(done.1)),
        Err(e) => (s, told(e)),
    }
}

pub open spec fn toggle_answer(s: StoreV, cfg: ConfigV, contents: Seq<char>, m: MomentV) -> (
    StoreV,
    BodyV,
) {
    let uid = trimmed(contents);
    let t = with_local_list(s);
    if uid.len() == 0 {
        (s, told(plain("uid cannot be empty"@)))
    } else {
        match uid_toggled(t, active_href(t, cfg), uid, m) {
            Ok(done) => (done.0, BodyV::Toggled(done.1)),
            Err(e) => (t, told(e)),
        }
    }
}

pub open spec fn edit_answer(s: StoreV, cfg: ConfigV, contents: Seq<char>, m: MomentV) -> (
    StoreV,
    BodyV,
) {
    let t = with_local_list(s);
    match edit_in_message(contents) {
        Err(e) => (s, told(e)),
        Ok(r) => in_words(t, uid_edited(t, active_href(t, cfg), r.uid, r.summary, r.due, m)),
    }
}

pub open spec fn delete_answer(s: StoreV, cfg: ConfigV, contents: Seq<char>, m: MomentV) -> (
    StoreV,
    BodyV,
) {
    let uid = trimmed(contents);
    let t = with_local_list(s);
    if uid.len() == 0 {
        (s, told(plain("uid cannot be empty"@)))
    } else {
        in_words(t, uid_deleted(t, active_href(t, cfg), uid, m))
    }
}

pub open spec fn create_answer(
    s: StoreV,
    cfg: ConfigV,
    contents: Seq<char>,
    uid: Seq<char>,
    m: MomentV,
) -> (StoreV, BodyV) {
    let r = create_in_message(contents);
    let t = with_local_list(s);
    if r.0.len() == 0 {
        (s, told(plain("summary cannot be empty"@)))
    } else {
        in_words(t, created(t, active_href(t, cfg), uid, r.0, r.1, m))
    }
}

pub open spec fn edit_first_answer(s: StoreV, cfg: ConfigV, contents: Seq<char>, m: MomentV) -> (
    StoreV,
    BodyV,
) {
    let t = with_local_list(s);
    if trimmed(contents).len() == 0 {
        (s, told(plain("summary cannot be empty"@)))
    } else {
        in_words(t, first_edited(t, active_href(t, cfg), contents, m))
    }
}

pub open spec fn transfer_reply(s: StoreV, contents: Seq<char>, uid: Seq<char>, m: MomentV) -> (
    StoreV,
    BodyV,
) {
    match transfer_in_message(contents) {
        Err(e) => (s, told(e)),
        Ok(r) => in_words(s, transfer_answer(s, r, uid, m)),
    }
}

/// The tables after a message, and the answer; none for a message that takes the
/// network or files.
pub open spec fn answered(
    s: StoreV,
    cfg: ConfigV,
    ask: Ask,
    contents: Seq<char>,
    uid: Seq<char>,
    m: MomentV,
) -> (StoreV, Option<BodyV>) {
    let t = with_local_list(s);
    let cal = active_href(t, cfg);
    let (after, body) = match ask {
        Ask::Ping => (s, BodyV::Text("pong from reTaskable"@)),
        Ask::ShowTasks => (
            t,
            BodyV::Tasks(screen_list(t, cal, trimmed(contents) == "all"@, m.secs)),
        ),
        Ask::ToggleFirst => in_words(t, first_toggled(t, cal, m)),
        Ask::DeleteFirst => in_words(t, first_deleted(t, cal, m)),
        Ask::CreateTask => create_answer(s, cfg, contents, uid, m),
        Ask::EditFirst => edit_first_answer(s, cfg, contents, m),
        Ask::ShowPending => (s, BodyV::Pending(screen_queue(s, m.secs))),
        Ask::ClearErrored => (
            cleared(s),
            BodyV::Text(cleared_line(count(s.ops, given_up()))),
        ),
        Ask::ToggleByUid => toggle_answer(s, cfg, contents, m),
        Ask::EditByUid => edit_answer(s, cfg, contents, m),
        Ask::DeleteByUid => delete_answer(s, cfg, contents, m),
        Ask::ListSources => (t, BodyV::Sources(cal, known_lists(t.calendars))),
        Ask::TransferTask => transfer_reply(s, contents, uid, m),
        _ => (s, BodyV::Text(""@)),
    };
    if needs_outside(ask) {
        (s, None)
    } else {
        (after, Some(body))
    }
}

/// A message that takes the network or files to answer.
pub open spec fn needs_outside(ask: Ask) -> bool {
    match ask {
        Ask::TestNextcloud => true,
        Ask::ListCalendars => true,
        Ask::Sync => true,
        Ask::ResolveFirstConflict => true,
        Ask::ConflictDecision => true,
        Ask::GetConfig => true,
        Ask::SaveConfig => true,
        Ask::DiscoverWith => true,
        Ask::DrainIntake => true,
        Ask::OpenNote => true,
        Ask::SelectSource => true,
        Ask::GetDiagnostics => true,
        _ => false,
    }
}

/// A message whose answer depends on the settings.
pub open spec fn uses_settings(ask: Ask) -> bool {
    match ask {
        Ask::Ping => false,
        Ask::ShowPending => false,
        Ask::ClearErrored => false,
        Ask::TransferTask => false,
        _ => true,
    }
}

/// Does the answer to a message depend on the settings?
pub fn needs_settings(ask: Ask) -> (b: bool)
    ensures
        b == uses_settings(ask),
{
    match ask {
        Ask::Ping | Ask::ShowPending | Ask::ClearErrored | Ask::TransferTask => false,
        _ => true,
    }
}

/// The other messages are answered alike under all settings.
pub proof fn law_settings_unused(
    s: StoreV,
    a: ConfigV,
    b: ConfigV,
    ask: Ask,
    contents: Seq<char>,
    uid: Seq<char>,
    m: MomentV,
)
    requires
        !uses_settings(ask),
    ensures
        answered(s, a, ask, contents, uid, m) == answered(s, b, ask, contents, uid, m),
{
}

/// The list that is asked for shows finished tasks just where the message says `all`,
/// whatever stands around the word.
pub proof fn law_finished_on_request(
    s: StoreV,
    cfg: ConfigV,
    contents: Seq<char>,
    uid: Seq<char>,
    m: MomentV,
)
    ensures
        ({
            let t = with_local_list(s);
            answered(s, cfg, Ask::ShowTasks, contents, uid, m) == (
                t,
                Some(
                    BodyV::Tasks(
                        screen_list(t, active_href(t, cfg), trimmed(contents) == "all"@, m.secs),
                    ),
                ),
            )
        }),
{
}

fn words(r: Result<String, Failure>) -> (b: Body)
    ensures
        b@ == match r {
            Ok(t) => BodyV::Text(t@),
            Err(e) => told(e@),
        },
{
    match r {
        Ok(t) => Body::Text(t),
        Err(e) => Body::Text(error_text(&e)),
    }
}

/// Answers a message from the tables and the settings. `uid` names a task that the
/// message may create.
pub fn handle_message(
    store: &mut Store,
    cfg: &Config,
    ask: Ask,
    contents: &str,
    uid: &str,
    m: &Moment,
) -> (r: Option<Body>)
    requires
        old(store)@.wf(),
    ensures
        final(store)@.wf(),
        final(store)@ == answered(old(store)@, cfg@, ask, contents@, uid@, m@).0,
        match r {
            Some(b) => answered(old(store)@, cfg@, ask, contents@, uid@, m@).1 == Some(b@),
            None => answered(old(store)@, cfg@, ask, contents@, uid@, m@).1 is None,
        },
{
    match ask {
        Ask::Ping => Some(Body::Text("pong from reTaskable".to_owned())),
        Ask::ShowTasks => {
            let cal = active_list_href(store, cfg);
            let all = wants_completed(contents);
            Some(Body::Tasks(show_tasks(store, cal.as_str(), all, m.secs)))
        },
        Ask::ToggleFirst => {
            let cal = active_list_href(store, cfg);
            Some(words(toggle_first(store, cal.as_str(), m)))
        },
        Ask::DeleteFirst => {
            let cal = active_list_href(store, cfg);
            Some(words(delete_first(store, cal.as_str(), m)))
        },
        Ask::CreateTask => {
            let (summary, due) = parse_create(contents);
            if char_count(summary.as_str()) == 0 {
                return Some(words(Err(Failure::new("summary cannot be empty"))));
            }
            let cal = active_list_href(store, cfg);
            Some(words(create(store, cal.as_str(), uid, summary.as_str(), due.as_str(), m)))
        },
        Ask::EditFirst => {
            if char_count(trim(contents).as_str()) == 0 {
                return Some(words(Err(Failure::new("summary cannot be empty"))));
            }
            let cal = active_list_href(store, cfg);
            Some(words(edit_first(store, cal.as_str(), contents, m)))
        },
        Ask::ShowPending => Some(Body::Pending(show_pending(store, m.secs))),
        Ask::ClearErrored => Some(Body::Text(clear_errored_reply(store))),
        Ask::ToggleByUid => match parse_uid(contents) {
            Err(e) => Some(words(Err(e))),
            Ok(target) => {
                let cal = active_list_href(store, cfg);
                match toggle_by_uid_inner(store, cal.as_str(), target.as_str(), m) {
                    Ok(reply) => Some(Body::Toggled(reply)),
                    Err(e) => Some(words(Err(e))),
                }
            },
        },
        Ask::EditByUid => match parse_edit(contents) {
            Err(e) => Some(words(Err(e))),
            Ok(edit) => {
                let cal = active_list_href(store, cfg);
                let due = match &edit.due {
                    Some(d) => Some(d.as_str()),
                    None => None,
                };
                Some(
                    words(
                        edit_by_uid_inner(
                            store,
                            cal.as_str(),
                            edit.uid.as_str(),
                            edit.summary.as_str(),
                            due,
                            m,
                        ),
                    ),
                )
            },
        },
        Ask::DeleteByUid => match parse_uid(contents) {
            Err(e) => Some(words(Err(e))),
            Ok(target) => {
                let cal = active_list_href(store, cfg);
                Some(words(delete_by_uid_inner(store, cal.as_str(), target.as_str(), m)))
            },
        },
        Ask::ListSources => {
            let cal = active_list_href(store, cfg);
            let lists = list_calendars(store);
            Some(Body::Sources(cal, lists))
        },
        Ask::TransferTask => match parse_transfer(contents) {
            Err(e) => Some(words(Err(e))),
            Ok(request) => Some(words(transfer_task(store, &request, uid, m))),
        },
        _ => None,
    }
}

} // verus!
