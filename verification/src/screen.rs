//! What the screen shows: the list, the queue, the known lists and the notes.
use vstd::prelude::*;
use crate::cache::{
    calendar_exists, delete_by_uid, is_local_list, knows_calendar, last_synced, not_of_uid,
    synced_at,
};
use crate::clock::{Moment, MomentV};
use crate::config::LOCAL_LIST_ID;
use crate::db::{create_queued, enqueue_create_at};
use crate::display::{
    age_words, elapsed, filter_for_display, humanize_since, list_row_views, list_rows, shown,
    task_rows, ListRow, ListRowV,
};
use crate::failure::{plain, Failure, FailureV};
use crate::handlers::{answers, Answered};
use crate::json::{json_top, read_json, JsonTop, JsonTopV};
use crate::listing::{
    list_pending_ops, list_tasks, marks_of, ops_shown, pending_marks, pending_views, task_list,
    PendingOpViewV,
};
use crate::pending::{clear_errored, cleared, count_resolvable_conflicts, given_up, resolvable};
use crate::seqs::{count, first, lemma_filter_step};
use crate::store::{live_of_uid, of_uid, CalendarRowV, Store, StoreV};
use crate::text::{
    char_count, decimal, decimal_of, opt_text, signed_decimal, signed_decimal_of, str_eq, trim,
    trimmed,
};

verus! {

// --- The list ---

/// The label and the address of a task's source note.
pub open spec fn source_of(s: StoreV, cal: Seq<char>, uid: Seq<char>) -> (Seq<char>, Seq<char>) {
    match first(s.tasks, of_uid(cal, uid)) {
        Some(r) => match r.anchor {
            Some(a) => (a.label, a.doc_uuid + ","@ + a.page_key),
            None => (""@, ""@),
        },
        None => (""@, ""@),
    }
}

/// The sources of the rows.
pub open spec fn sources_of(s: StoreV, cal: Seq<char>, rows: Seq<ListRowV>) -> Seq<
    (Seq<char>, Seq<char>),
> {
    rows.map_values(|r: ListRowV| source_of(s, cal, r.uid))
}

/// The task list on the screen.
#[derive(Debug)]
pub struct TaskListReply {
    pub last_synced: Option<String>,
    pub tasks: Vec<ListRow>,
    pub sources: Vec<(String, String)>,
    pub conflicts: usize,
}

#[verifier::ext_equal]
pub struct TaskListReplyV {
    pub last_synced: Option<Seq<char>>,
    pub tasks: Seq<ListRowV>,
    pub sources: Seq<(Seq<char>, Seq<char>)>,
    pub conflicts: nat,
}

pub open spec fn source_views(v: Seq<(String, String)>) -> Seq<(Seq<char>, Seq<char>)> {
    v.map_values(|p: (String, String)| (p.0@, p.1@))
}

impl View for TaskListReply {
    type V = TaskListReplyV;

    open spec fn view(&self) -> TaskListReplyV {
        TaskListReplyV {
            last_synced: opt_text(self.last_synced),
            tasks: list_row_views(self.tasks@),
            sources: source_views(self.sources@),
            conflicts: self.conflicts as nat,
        }
    }
}

/// The line about the last sync.
pub open spec fn synced_line(s: StoreV, cal: Seq<char>, now: int) -> Option<Seq<char>> {
    if cal == LOCAL_LIST_ID@ {
        Some("Stored on this reMarkable."@)
    } else {
        match synced_at(s, cal) {
            Some(t) => Some("Last synced "@ + age_words(elapsed(now, t as int)) + " ago."@),
            None => None,
        }
    }
}

/// The list `cal` on the screen at the second `now`.
pub open spec fn screen_list(
    s: StoreV,
    cal: Seq<char>,
    include_completed: bool,
    now: int,
) -> TaskListReplyV {
    let marks = marks_of(s.ops, cal, s.ops.len() as int);
    let rows = list_rows(task_list(s, cal).filter(shown(include_completed)), marks);
    TaskListReplyV {
        last_synced: synced_line(s, cal, now),
        tasks: rows,
        sources: sources_of(s, cal, rows),
        conflicts: count(s.ops, resolvable()),
    }
}

fn find_source(store: &Store, cal: &str, uid: &str) -> (r: (String, String))
    ensures
        (r.0@, r.1@) == source_of(store@, cal@, uid@),
{
    let k = store.find_uid(cal, uid);
    if k < store.tasks.len() {
        assert(store@.tasks[k as int] == store.tasks@[k as int]@);
        match &store.tasks[k].anchor {
            Some(a) => {
                let mut address = a.doc_uuid.clone();
                address.append(",");
                address.append(a.page_key.as_str());
                return (a.label.clone(), address);
            },
            None => {},
        }
    }
    ("".to_owned(), "".to_owned())
}

/// Lays out a list for the screen. Finished tasks are left out unless they are
/// asked for.
pub fn show_tasks(store: &Store, cal_href: &str, include_completed: bool, now: i64) -> (r: TaskListReply)
    ensures
        r@ == screen_list(store@, cal_href@, include_completed, now as int),
{
    let all = list_tasks(store, cal_href);
    let tasks = filter_for_display(&all, include_completed);
    let marks = pending_marks(store, cal_href);
    let rows = task_rows(tasks.as_slice(), &marks);
    let ghost rs = list_row_views(rows@);
    let mut sources: Vec<(String, String)> = Vec::new();
    let mut i: usize = 0;
    while i < rows.len()
        invariant
            i <= rows@.len(),
            rs == list_row_views(rows@),
            sources@.len() == i,
            forall|j: int|
                #![trigger sources@[j]]
                0 <= j < i ==> (sources@[j].0@, sources@[j].1@) == source_of(
                    store@,
                    cal_href@,
                    rs[j].uid,
                ),
        decreases rows@.len() - i,
    {
        assert(rs[i as int] == rows@[i as int]@);
        sources.push(find_source(store, cal_href, rows[i].uid.as_str()));
        i += 1;
    }
    assert(source_views(sources@) =~= sources_of(store@, cal_href@, rs));
    let last = if is_local_list(cal_href) {
        Some("Stored on this reMarkable.".to_owned())
    } else {
        match last_synced(store, cal_href) {
            Some(t) => {
                let mut l = "Last synced ".to_owned();
                l.append(humanize_since(now, t).as_str());
                l.append(" ago.");
                Some(l)
            },
            None => None,
        }
    };
    let conflicts = count_resolvable_conflicts(store);
    TaskListReply { last_synced: last, tasks: rows, sources, conflicts }
}

/// Does a message ask for finished tasks too?
pub fn wants_completed(contents: &str) -> (r: bool)
    ensures
        r == (trimmed(contents@) == "all"@),
{
    str_eq(trim(contents).as_str(), "all")
}

// --- The queue ---

/// A queued write that failed at least once.
#[derive(Debug)]
pub struct PendingError {
    pub id: i64,
    pub op_type: String,
    pub summary: String,
    pub age: String,
    pub error_count: i64,
    pub errored: bool,
    pub last_error: String,
}

#[verifier::ext_equal]
pub struct PendingErrorV {
    pub id: int,
    pub op_type: Seq<char>,
    pub summary: Seq<char>,
    pub age: Seq<char>,
    pub error_count: int,
    pub errored: bool,
    pub last_error: Seq<char>,
}

impl View for PendingError {
    type V = PendingErrorV;

    open spec fn view(&self) -> PendingErrorV {
        PendingErrorV {
            id: self.id as int,
            op_type: self.op_type@,
            summary: self.summary@,
            age: self.age@,
            error_count: self.error_count as int,
            errored: self.errored,
            last_error: self.last_error@,
        }
    }
}

pub open spec fn error_views(v: Seq<PendingError>) -> Seq<PendingErrorV> {
    v.map_values(|e: PendingError| e@)
}

/// The queue on the screen: how many writes wait, and those with errors.
#[derive(Debug)]
pub struct PendingReply {
    pub pending_count: usize,
    pub errors: Vec<PendingError>,
}

#[verifier::ext_equal]
pub struct PendingReplyV {
    pub pending_count: nat,
    pub errors: Seq<PendingErrorV>,
}

impl View for PendingReply {
    type V = PendingReplyV;

    open spec fn view(&self) -> PendingReplyV {
        PendingReplyV {
            pending_count: self.pending_count as nat,
            errors: error_views(self.errors@),
        }
    }
}

/// The queue on the screen at the second `now`.
pub open spec fn screen_queue(s: StoreV, now: int) -> PendingReplyV {
    PendingReplyV {
        pending_count: ops_shown(s, s.ops.len()).len(),
        errors: errors_shown(ops_shown(s, s.ops.len()), now),
    }
}

/// A line with an error to show.
pub open spec fn has_error() -> spec_fn(PendingOpViewV) -> bool {
    |p: PendingOpViewV| p.errored == 1 || p.error_count != 0
}

/// `n`, at least `low`.
pub open spec fn at_least(n: int, low: int) -> int {
    if n < low {
        low
    } else {
        n
    }
}

pub open spec fn error_shown(p: PendingOpViewV, now: int) -> PendingErrorV {
    PendingErrorV {
        id: p.id,
        op_type: p.op_type,
        summary: p.summary,
        age: age_words(elapsed(now, at_least(p.enqueued_at, 0))),
        error_count: at_least(p.error_count, 1),
        errored: p.errored == 1,
        last_error: match p.last_error {
            Some(e) => e,
            None => ""@,
        },
    }
}

/// The errors of the queue, in its order.
pub open spec fn errors_shown(ops: Seq<PendingOpViewV>, now: int) -> Seq<PendingErrorV> {
    ops.filter(has_error()).map_values(|p: PendingOpViewV| error_shown(p, now))
}

/// Shows the queue at the second `now`.
pub fn show_pending(store: &Store, now: i64) -> (r: PendingReply)
    ensures
        r@ == screen_queue(store@, now as int),
{
    let ops = list_pending_ops(store);
    let ghost vs = pending_views(ops@);
    let mut errors: Vec<PendingError> = Vec::new();
    let mut i: usize = 0;
    proof {
        reveal(Seq::filter);
        assert(vs.take(0) =~= Seq::empty());
        assert(error_views(errors@) =~= errors_shown(vs.take(0), now as int));
    }
    while i < ops.len()
        invariant
            i <= ops@.len(),
            vs == pending_views(ops@),
            error_views(errors@) == errors_shown(vs.take(i as int), now as int),
        decreases ops@.len() - i,
    {
        let op = &ops[i];
        proof {
            assert(vs[i as int] == op@);
            lemma_filter_step(vs, has_error(), i as int);
        }
        if op.errored == 1 || op.error_count != 0 {
            let since: i64 = if op.enqueued_at < 0 {
                0
            } else {
                op.enqueued_at
            };
            let e = PendingError {
                id: op.id,
                op_type: op.op_type.clone(),
                summary: op.summary.clone(),
                age: humanize_since(now, since),
                error_count: if op.error_count < 1 {
                    1
                } else {
                    op.error_count
                },
                errored: op.errored == 1,
                last_error: match &op.last_error {
                    Some(m) => m.clone(),
                    None => "".to_owned(),
                },
            };
            let ghost before = error_views(errors@);
            errors.push(e);
            proof {
                assert(error_views(errors@) =~= before.push(e@));
                assert(errors_shown(vs.take(i + 1), now as int) =~= before.push(
                    error_shown(vs[i as int], now as int),
                ));
            }
        }
        i += 1;
    }
    assert(vs.take(i as int) =~= vs);
    PendingReply { pending_count: ops.len(), errors }
}

/// The answer to clearing what was given up.
pub open spec fn cleared_line(n: nat) -> Seq<char> {
    if n == 0 {
        "No errored ops to clear."@
    } else {
        "Cleared "@ + decimal(n) + " errored op(s). Tap Sync to reconcile."@
    }
}

/// Clears what was given up and says so.
pub fn clear_errored_reply(store: &mut Store) -> (s: String)
    requires
        old(store)@.wf(),
    ensures
        final(store)@.wf(),
        final(store)@ == cleared(old(store)@),
        s@ == cleared_line(count(old(store)@.ops, given_up())),
{
    let n = clear_errored(store);
    if n == 0 {
        "No errored ops to clear.".to_owned()
    } else {
        let mut s = "Cleared ".to_owned();
        s.append(decimal_of(n as u64).as_str());
        s.append(" errored op(s). Tap Sync to reconcile.");
        s
    }
}

// --- The known lists ---

pub open spec fn list_entries(v: Seq<(String, String)>) -> Seq<(Seq<char>, Seq<char>)> {
    v.map_values(|p: (String, String)| (p.0@, p.1@))
}

/// Address and name of each known list.
pub open spec fn known_lists(cals: Seq<CalendarRowV>) -> Seq<(Seq<char>, Seq<char>)> {
    cals.map_values(|c: CalendarRowV| (c.href, c.display_name))
}

/// The known lists, as pairs of address and name.
pub fn list_calendars(store: &Store) -> (r: Vec<(String, String)>)
    ensures
        list_entries(r@) == known_lists(store@.calendars),
{
    let mut out: Vec<(String, String)> = Vec::new();
    let mut i: usize = 0;
    while i < store.calendars.len()
        invariant
            i <= store.calendars@.len(),
            out@.len() == i,
            forall|j: int|
                #![trigger out@[j]]
                0 <= j < i ==> (out@[j].0@, out@[j].1@) == known_lists(store@.calendars)[j],
        decreases store.calendars@.len() - i,
    {
        assert(store@.calendars[i as int] == store.calendars@[i as int]@);
        out.push(
            (store.calendars[i].href.clone(), store.calendars[i].display_name.clone()),
        );
        i += 1;
    }
    assert(list_entries(out@) =~= known_lists(store@.calendars));
    out
}

// --- Transfers from the device's own list ---

/// A transfer as the screen asks for it.
#[derive(Debug)]
pub struct TransferRequest {
    pub uid: String,
    pub destination: String,
    pub operation: String,
}

#[verifier::ext_equal]
pub struct TransferRequestV {
    pub uid: Seq<char>,
    pub destination: Seq<char>,
    pub operation: Seq<char>,
}

impl View for TransferRequest {
    type V = TransferRequestV;

    open spec fn view(&self) -> TransferRequestV {
        TransferRequestV {
            uid: self.uid@,
            destination: self.destination@,
            operation: self.operation@,
        }
    }
}

pub open spec fn transfer_of(top: JsonTopV) -> Result<TransferRequestV, FailureV> {
    let uid = trimmed(top.string_or("uid"@, ""@));
    let destination = trimmed(top.string_or("destination_id"@, ""@));
    let operation = top.string_or("operation"@, "copy"@);
    if uid.len() == 0 || destination.len() == 0 {
        Err(plain("uid and destination_id are required"@))
    } else if operation != "copy"@ && operation != "move"@ {
        Err(plain("operation must be copy or move"@))
    } else {
        Ok(TransferRequestV { uid, destination, operation })
    }
}

pub open spec fn transfer_in_message(payload: Seq<char>) -> Result<TransferRequestV, FailureV> {
    match json_top(payload) {
        Ok(top) => transfer_of(top),
        Err(e) => Err(plain(e)),
    }
}

pub open spec fn transfer_result(r: Result<TransferRequest, Failure>) -> Result<
    TransferRequestV,
    FailureV,
> {
    match r {
        Ok(x) => Ok(x@),
        Err(e) => Err(e@),
    }
}

/// Checks the members of a transfer.
pub fn read_transfer(top: &JsonTop) -> (r: Result<TransferRequest, Failure>)
    ensures
        transfer_result(r) == transfer_of(top@),
{
    let uid = trim(top.str_field_or("uid", "").as_str());
    let destination = trim(top.str_field_or("destination_id", "").as_str());
    let operation = top.str_field_or("operation", "copy");
    if char_count(uid.as_str()) == 0 || char_count(destination.as_str()) == 0 {
        return Err(Failure::new("uid and destination_id are required"));
    }
    if !str_eq(operation.as_str(), "copy") && !str_eq(operation.as_str(), "move") {
        return Err(Failure::new("operation must be copy or move"));
    }
    Ok(TransferRequest { uid, destination, operation })
}

/// Reads a transfer out of a message.
pub fn parse_transfer(payload: &str) -> (r: Result<TransferRequest, Failure>)
    ensures
        transfer_result(r) == transfer_in_message(payload@),
{
    match read_json(payload) {
        Ok(top) => read_transfer(&top),
        Err(e) => Err(Failure::from_message(e)),
    }
}

/// The tables after a visible task of the device's own list was queued for
/// another list under the identifier `new_uid`, and taken off the device's own
/// where it moves.
pub open spec fn transferred(
    s: StoreV,
    uid: Seq<char>,
    destination: Seq<char>,
    moves: bool,
    new_uid: Seq<char>,
    m: MomentV,
) -> Result<(StoreV, int), FailureV> {
    match first(s.tasks, live_of_uid(LOCAL_LIST_ID@, uid)) {
        None => Err(plain("no live task with uid "@ + uid)),
        Some(row) => match create_queued(
            s,
            destination,
            new_uid,
            row.summary,
            row.due,
            row.anchor,
            m.stamp,
            m.secs,
        ) {
            Err(e) => Err(e),
            Ok(done) => if moves {
                Ok(
                    (
                        StoreV {
                            tasks: done.0.tasks.filter(not_of_uid(LOCAL_LIST_ID@, uid)),
                            ..done.0
                        },
                        done.1,
                    ),
                )
            } else {
                Ok(done)
            },
        },
    }
}

/// Queues a task of the device's own list for another one.
pub fn transfer_local_to_remote(
    store: &mut Store,
    uid: &str,
    destination: &str,
    moves: bool,
    new_uid: &str,
    m: &Moment,
) -> (r: Result<i64, Failure>)
    requires
        old(store)@.wf(),
    ensures
        final(store)@.wf(),
        crate::db::committed(
            r,
            old(store)@,
            final(store)@,
            transferred(old(store)@, uid@, destination@, moves, new_uid@, m@),
        ),
{
    let k = store.find_live(LOCAL_LIST_ID, uid);
    if k >= store.tasks.len() {
        let mut t = "no live task with uid ".to_owned();
        t.append(uid);
        return Err(Failure::from_message(t));
    }
    assert(store@.tasks[k as int] == store.tasks@[k as int]@);
    let row = store.tasks[k].copy();
    let anchor = match &row.anchor {
        Some(a) => Some(a),
        None => None,
    };
    let due = match &row.due {
        Some(d) => Some(d.as_str()),
        None => None,
    };
    match enqueue_create_at(
        store,
        destination,
        new_uid,
        row.summary.as_str(),
        anchor,
        due,
        m.stamp.as_str(),
        m.secs,
    ) {
        Err(e) => Err(e),
        Ok(id) => {
            if moves {
                let _ = delete_by_uid(store, LOCAL_LIST_ID, uid);
            }
            Ok(id)
        },
    }
}

pub open spec fn transfer_answer(
    s: StoreV,
    t: TransferRequestV,
    new_uid: Seq<char>,
    m: MomentV,
) -> Answered {
    if !knows_calendar(s, t.destination) {
        Err(plain("destination task list is not available"@))
    } else {
        match transferred(s, t.uid, t.destination, t.operation == "move"@, new_uid, m) {
            Err(e) => Err(e),
            Ok(done) => Ok(
                (
                    done.0,
                    "Queued: "@ + t.operation + " local task to synced list (#"@ + signed_decimal(
                        done.1,
                    ) + ")"@,
                ),
            ),
        }
    }
}

/// Carries out a transfer.
pub fn transfer_task(
    store: &mut Store,
    request: &TransferRequest,
    new_uid: &str,
    m: &Moment,
) -> (r: Result<String, Failure>)
    requires
        old(store)@.wf(),
    ensures
        final(store)@.wf(),
        answers(r, old(store)@, final(store)@, transfer_answer(old(store)@, request@, new_uid@, m@)),
{
    if !calendar_exists(store, request.destination.as_str()) {
        return Err(Failure::new("destination task list is not available"));
    }
    let moves = str_eq(request.operation.as_str(), "move");
    match transfer_local_to_remote(
        store,
        request.uid.as_str(),
        request.destination.as_str(),
        moves,
        new_uid,
        m,
    ) {
        Err(e) => Err(e),
        Ok(id) => {
            let mut t = "Queued: ".to_owned();
            t.append(request.operation.as_str());
            t.append(" local task to synced list (#");
            t.append(signed_decimal_of(id).as_str());
            t.append(")");
            Ok(t)
        },
    }
}

// --- Notes ---

/// The command that opens a note at `anchor`.
pub open spec fn jump_text(anchor: Seq<char>) -> Seq<char> {
    "ureTaskableJump:"@ + trimmed(anchor) + "\n"@
}

/// Writes the command that opens a note. Its first letter routes it to the
/// screen; the newline ends it.
pub fn jump_command(anchor: &str) -> (s: String)
    ensures
        s@ == jump_text(anchor@),
{
    let mut s = "ureTaskableJump:".to_owned();
    s.append(trim(anchor).as_str());
    s.append("\n");
    s
}

/// The command for the note in a message, which has to name one.
pub open spec fn note_command(anchor: Seq<char>) -> Result<Seq<char>, FailureV> {
    if trimmed(anchor).len() > 0 {
        Ok(jump_text(anchor))
    } else {
        Err(plain("empty note anchor"@))
    }
}

/// The command for the note in a message.
pub fn open_note(anchor: &str) -> (r: Result<String, Failure>)
    ensures
        crate::weburl::url_result(r) == note_command(anchor@),
        match r {
            Ok(s) => trimmed(anchor@).len() > 0 && s@ == jump_text(anchor@),
            Err(e) => trimmed(anchor@).len() == 0 && e@ == plain("empty note anchor"@),
        },
{
    if char_count(trim(anchor).as_str()) == 0 {
        return Err(Failure::new("empty note anchor"));
    }
    Ok(jump_command(anchor))
}

} // verus!
