//! The messages between the screen and the program.
use vstd::prelude::*;
use crate::failure::Failure;

verus! {

pub const MSG_PING: u32 = 1;

pub const MSG_TEST_NEXTCLOUD: u32 = 2;

pub const MSG_LIST_CALENDARS: u32 = 3;

pub const MSG_SHOW_TASKS: u32 = 4;

pub const MSG_SYNC: u32 = 5;

pub const MSG_TOGGLE_FIRST: u32 = 6;

pub const MSG_DELETE_FIRST: u32 = 7;

pub const MSG_CREATE_TASK: u32 = 8;

pub const MSG_EDIT_FIRST: u32 = 9;

pub const MSG_SHOW_PENDING: u32 = 10;

pub const MSG_CLEAR_ERRORED: u32 = 11;

pub const MSG_RESOLVE_FIRST_CONFLICT: u32 = 12;

pub const MSG_CONFLICT_DECISION: u32 = 13;

pub const MSG_TOGGLE_BY_UID: u32 = 14;

pub const MSG_GET_CONFIG: u32 = 15;

pub const MSG_SAVE_CONFIG: u32 = 16;

pub const MSG_DISCOVER_WITH: u32 = 17;

pub const MSG_DRAIN_INTAKE: u32 = 18;

pub const MSG_EDIT_BY_UID: u32 = 19;

pub const MSG_DELETE_BY_UID: u32 = 20;

pub const MSG_OPEN_NOTE: u32 = 21;

pub const MSG_LIST_SOURCES: u32 = 22;

pub const MSG_SELECT_SOURCE: u32 = 23;

pub const MSG_TRANSFER_TASK: u32 = 24;

pub const MSG_GET_DIAGNOSTICS: u32 = 25;

/// What the screen can ask for.
#[derive(Debug, Clone, Copy, PartialEq, Eq, Structural)]
pub enum Ask {
    Ping,
    TestNextcloud,
    ListCalendars,
    ShowTasks,
    Sync,
    ToggleFirst,
    DeleteFirst,
    CreateTask,
    EditFirst,
    ShowPending,
    ClearErrored,
    ResolveFirstConflict,
    ConflictDecision,
    ToggleByUid,
    GetConfig,
    SaveConfig,
    DiscoverWith,
    DrainIntake,
    EditByUid,
    DeleteByUid,
    OpenNote,
    ListSources,
    SelectSource,
    TransferTask,
    GetDiagnostics,
}

/// The number of a message.
pub open spec fn code_of(ask: Ask) -> u32 {
    match ask {
        Ask::Ping => MSG_PING,
        Ask::TestNextcloud => MSG_TEST_NEXTCLOUD,
        Ask::ListCalendars => MSG_LIST_CALENDARS,
        Ask::ShowTasks => MSG_SHOW_TASKS,
        Ask::Sync => MSG_SYNC,
        Ask::ToggleFirst => MSG_TOGGLE_FIRST,
        Ask::DeleteFirst => MSG_DELETE_FIRST,
        Ask::CreateTask => MSG_CREATE_TASK,
        Ask::EditFirst => MSG_EDIT_FIRST,
        Ask::ShowPending => MSG_SHOW_PENDING,
        Ask::ClearErrored => MSG_CLEAR_ERRORED,
        Ask::ResolveFirstConflict => MSG_RESOLVE_FIRST_CONFLICT,
        Ask::ConflictDecision => MSG_CONFLICT_DECISION,
        Ask::ToggleByUid => MSG_TOGGLE_BY_UID,
        Ask::GetConfig => MSG_GET_CONFIG,
        Ask::SaveConfig => MSG_SAVE_CONFIG,
        Ask::DiscoverWith => MSG_DISCOVER_WITH,
        Ask::DrainIntake => MSG_DRAIN_INTAKE,
        Ask::EditByUid => MSG_EDIT_BY_UID,
        Ask::DeleteByUid => MSG_DELETE_BY_UID,
        Ask::OpenNote => MSG_OPEN_NOTE,
        Ask::ListSources => MSG_LIST_SOURCES,
        Ask::SelectSource => MSG_SELECT_SOURCE,
        Ask::TransferTask => MSG_TRANSFER_TASK,
        Ask::GetDiagnostics => MSG_GET_DIAGNOSTICS,
    }
}

/// The message with a number.
pub open spec fn ask_of(n: u32) -> Option<Ask> {
    if 1 <= n <= 25 {
        Some(choose|ask: Ask| #[trigger] code_of(ask) == n)
    } else {
        None
    }
}

/// Recognises a message by its number; the rest is ignored.
pub fn route(msg_type: u32) -> (r: Option<Ask>)
    ensures
        r == ask_of(msg_type),
        r matches Some(ask) ==> code_of(ask) == msg_type,
{
    proof {
        if 1 <= msg_type <= 25 {
            law_codes(Ask::Ping, Ask::Ping, msg_type);
            let ask = choose|ask: Ask| #[trigger] code_of(ask) == msg_type;
            assert(code_of(ask) == msg_type);
            assert forall|other: Ask| #[trigger] code_of(other) == msg_type implies other == ask by {
                law_codes(other, ask, msg_type);
            }
        }
    }
    if msg_type == MSG_PING {
        Some(Ask::Ping)
    } else if msg_type == MSG_TEST_NEXTCLOUD {
        Some(Ask::TestNextcloud)
    } else if msg_type == MSG_LIST_CALENDARS {
        Some(Ask::ListCalendars)
    } else if msg_type == MSG_SHOW_TASKS {
        Some(Ask::ShowTasks)
    } else if msg_type == MSG_SYNC {
        Some(Ask::Sync)
    } else if msg_type == MSG_TOGGLE_FIRST {
        Some(Ask::ToggleFirst)
    } else if msg_type == MSG_DELETE_FIRST {
        Some(Ask::DeleteFirst)
    } else if msg_type == MSG_CREATE_TASK {
        Some(Ask::CreateTask)
    } else if msg_type == MSG_EDIT_FIRST {
        Some(Ask::EditFirst)
    } else if msg_type == MSG_SHOW_PENDING {
        Some(Ask::ShowPending)
    } else if msg_type == MSG_CLEAR_ERRORED {
        Some(Ask::ClearErrored)
    } else if msg_type == MSG_RESOLVE_FIRST_CONFLICT {
        Some(Ask::ResolveFirstConflict)
    } else if msg_type == MSG_CONFLICT_DECISION {
        Some(Ask::ConflictDecision)
    } else if msg_type == MSG_TOGGLE_BY_UID {
        Some(Ask::ToggleByUid)
    } else if msg_type == MSG_GET_CONFIG {
        Some(Ask::GetConfig)
    } else if msg_type == MSG_SAVE_CONFIG {
        Some(Ask::SaveConfig)
    } else if msg_type == MSG_DISCOVER_WITH {
        Some(Ask::DiscoverWith)
    } else if msg_type == MSG_DRAIN_INTAKE {
        Some(Ask::DrainIntake)
    } else if msg_type == MSG_EDIT_BY_UID {
        Some(Ask::EditByUid)
    } else if msg_type == MSG_DELETE_BY_UID {
        Some(Ask::DeleteByUid)
    } else if msg_type == MSG_OPEN_NOTE {
        Some(Ask::OpenNote)
    } else if msg_type == MSG_LIST_SOURCES {
        Some(Ask::ListSources)
    } else if msg_type == MSG_SELECT_SOURCE {
        Some(Ask::SelectSource)
    } else if msg_type == MSG_TRANSFER_TASK {
        Some(Ask::TransferTask)
    } else if msg_type == MSG_GET_DIAGNOSTICS {
        Some(Ask::GetDiagnostics)
    } else {
        None
    }
}

/// The number of the answer to a message.
pub fn response_code(ask: Ask) -> (r: u32)
    ensures
        r == code_of(ask) + 100,
{
    match ask {
        Ask::Ping => 101,
        Ask::TestNextcloud => 102,
        Ask::ListCalendars => 103,
        Ask::ShowTasks => 104,
        Ask::Sync => 105,
        Ask::ToggleFirst => 106,
        Ask::DeleteFirst => 107,
        Ask::CreateTask => 108,
        Ask::EditFirst => 109,
        Ask::ShowPending => 110,
        Ask::ClearErrored => 111,
        Ask::ResolveFirstConflict => 112,
        Ask::ConflictDecision => 113,
        Ask::ToggleByUid => 114,
        Ask::GetConfig => 115,
        Ask::SaveConfig => 116,
        Ask::DiscoverWith => 117,
        Ask::DrainIntake => 118,
        Ask::EditByUid => 119,
        Ask::DeleteByUid => 120,
        Ask::OpenNote => 121,
        Ask::ListSources => 122,
        Ask::SelectSource => 123,
        Ask::TransferTask => 124,
        Ask::GetDiagnostics => 125,
    }
}

/// The messages have the numbers from 1 to 25, each its own.
pub proof fn law_codes(a: Ask, b: Ask, n: u32)
    ensures
        1 <= code_of(a) <= 25,
        code_of(a) == code_of(b) ==> a == b,
        1 <= n <= 25 ==> exists|ask: Ask| #[trigger] code_of(ask) == n,
{
    if 1 <= n <= 25 {
        let ask = if n == 1 {
            Ask::Ping
        } else if n == 2 {
            Ask::TestNextcloud
        } else if n == 3 {
            Ask::ListCalendars
        } else if n == 4 {
            Ask::ShowTasks
        } else if n == 5 {
            Ask::Sync
        } else if n == 6 {
            Ask::ToggleFirst
        } else if n == 7 {
            Ask::DeleteFirst
        } else if n == 8 {
            Ask::CreateTask
        } else if n == 9 {
            Ask::EditFirst
        } else if n == 10 {
            Ask::ShowPending
        } else if n == 11 {
            Ask::ClearErrored
        } else if n == 12 {
            Ask::ResolveFirstConflict
        } else if n == 13 {
            Ask::ConflictDecision
        } else if n == 14 {
            Ask::ToggleByUid
        } else if n == 15 {
            Ask::GetConfig
        } else if n == 16 {
            Ask::SaveConfig
        } else if n == 17 {
            Ask::DiscoverWith
        } else if n == 18 {
            Ask::DrainIntake
        } else if n == 19 {
            Ask::EditByUid
        } else if n == 20 {
            Ask::DeleteByUid
        } else if n == 21 {
            Ask::OpenNote
        } else if n == 22 {
            Ask::ListSources
        } else if n == 23 {
            Ask::SelectSource
        } else if n == 24 {
            Ask::TransferTask
        } else {
            Ask::GetDiagnostics
        };
        assert(code_of(ask) == n);
    }
}

/// The text of the answer to a message.
pub open spec fn answer_text(outcome: Result<String, Failure>) -> Seq<char> {
    match outcome {
        Ok(t) => t@,
        Err(e) => "error: "@ + e@.message,
    }
}

/// What goes back for a message with the number `n`, once its work is over: one answer, or
/// nothing where there is no such message.
pub open spec fn exchange(n: u32, outcome: Result<String, Failure>) -> Option<(int, Seq<char>)> {
    match ask_of(n) {
        Some(ask) => Some((code_of(ask) + 100, answer_text(outcome))),
        None => None,
    }
}

/// Every message from 1 to 25 has one answer, with its number and a hundred, whether it
/// worked or not; where it did not, the answer tells the error. Nothing else is answered.
pub proof fn law_one_answer(n: u32, outcome: Result<String, Failure>)
    ensures
        exchange(n, outcome) is Some == (1 <= n <= 25),
        exchange(n, outcome) matches Some(a) ==> {
            &&& a.0 == n + 100
            &&& outcome matches Ok(t) ==> a.1 == t@
            &&& outcome matches Err(e) ==> a.1 == "error: "@ + e@.message
        },
        ask_of(4) == Some(Ask::ShowTasks),
{
    law_codes(Ask::ShowTasks, Ask::ShowTasks, n);
    if 1 <= n <= 25 {
        let ask = choose|ask: Ask| #[trigger] code_of(ask) == n;
        assert(code_of(ask) == n);
    }
    assert(code_of(Ask::ShowTasks) == 4);
    let four = choose|ask: Ask| #[trigger] code_of(ask) == 4;
    law_codes(four, Ask::ShowTasks, 4);
}

/// The one answer to a message, whether it worked or not: its number and its text.
pub fn reply(ask: Ask, outcome: Result<String, Failure>) -> (r: (u32, String))
    ensures
        exchange(code_of(ask), outcome) == Some((r.0 as int, r.1@)),
        r.0 == code_of(ask) + 100,
        r.1@ == answer_text(outcome),
{
    proof {
        law_codes(ask, ask, code_of(ask));
        let same = choose|a: Ask| #[trigger] code_of(a) == code_of(ask);
        law_codes(same, ask, code_of(ask));
    }
    let text = match outcome {
        Ok(t) => t,
        Err(e) => error_text(&e),
    };
    (response_code(ask), text)
}

/// The answer to a message that failed.
pub fn error_text(e: &Failure) -> (s: String)
    ensures
        s@ == "error: "@ + e@.message,
{
    let mut s = "error: ".to_owned();
    s.append(e.message.as_str());
    s
}

} // verus!
