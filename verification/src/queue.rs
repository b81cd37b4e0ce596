//! Draining the queue: what each operation asks of the server, what its failure
//! means, and what the answer does to the tables.
use vstd::prelude::*;
use crate::cache::{delete_by_uid, not_of_uid};
use crate::exchange::{
    create_exchange, delete_exchange, delete_task_with_retry, put_exchange,
    put_task_create, put_task_with_retry, Change, ChangeV,
};
use crate::failure::{plain, Failure, FailureV};
use crate::http::{reply_views, Reply, ReplyV, Request, RequestV, Step, StepV};
use crate::json::{json_top, read_json};
use crate::pending::{
    blocked_by, bump_error_count_tx, cascade_uid, delete_pending_op, drainable, drainable_on,
    fetch_next_drainable, flag_errored, mark_op_errored, op_errored, op_flagged, op_other_than,
    op_struck, strike, uid_errored,
};
use crate::seqs::{
    count, find, first, lemma_count_filter, lemma_count_one, lemma_count_split,
    lemma_filter_empty, lemma_find,
};
use crate::store::{
    keyed, of_uid, op_views, op_with_id, opt_row, task_keys_unique, PendingOp, PendingOpV, Store, StoreV,
    TaskRow, TaskRowV,
};
use crate::task::{
    ensure_edit, ensure_toggle, new_todo, new_todo_body, with_edit, with_toggle, TaskStatus,
};
use crate::text::{borrow_opt, contains, decimal, decimal_of, has_sub, opt_text, str_eq};
use crate::weburl::{build_create_url, build_task_url, create_url, task_url};

verus! {

/// Counters of one pass over the queue.
#[derive(Debug, Clone, Copy, PartialEq, Eq, Structural)]
pub struct FlushSummary {
    pub flushed: usize,
    pub retried: usize,
    pub transient_failed: usize,
    pub newly_errored: usize,
    pub cascade_errored: usize,
}

#[verifier::ext_equal]
pub struct FlushSummaryV {
    pub flushed: int,
    pub retried: int,
    pub transient_failed: int,
    pub newly_errored: int,
    pub cascade_errored: int,
}

impl View for FlushSummary {
    type V = FlushSummaryV;

    open spec fn view(&self) -> FlushSummaryV {
        FlushSummaryV {
            flushed: self.flushed as int,
            retried: self.retried as int,
            transient_failed: self.transient_failed as int,
            newly_errored: self.newly_errored as int,
            cascade_errored: self.cascade_errored as int,
        }
    }
}

/// Counters at zero.
pub open spec fn no_activity() -> FlushSummaryV {
    FlushSummaryV {
        flushed: 0,
        retried: 0,
        transient_failed: 0,
        newly_errored: 0,
        cascade_errored: 0,
    }
}

impl Default for FlushSummary {
    fn default() -> (s: FlushSummary)
        ensures
            s@ == no_activity(),
    {
        FlushSummary {
            flushed: 0,
            retried: 0,
            transient_failed: 0,
            newly_errored: 0,
            cascade_errored: 0,
        }
    }
}

impl FlushSummary {
    /// Was there nothing to do?
    pub fn is_empty(&self) -> (r: bool)
        ensures
            r == (self@ == no_activity()),
    {
        self.flushed == 0 && self.retried == 0 && self.transient_failed == 0 && self.newly_errored
            == 0 && self.cascade_errored == 0
    }
}

/// What became of one operation.
#[derive(Debug)]
pub enum ExecOutcome {
    SuccessCreate { task_url: String, etag: String, ical_text: String },
    SuccessUpdate { new_etag: String, new_ical: String, retried: bool },
    SuccessDelete { retried: bool },
    /// May work later: the operation stays queued and the pass ends.
    Transient(String),
    /// Will not work: the operation is given up.
    Terminal(String),
}

pub enum ExecOutcomeV {
    SuccessCreate { task_url: Seq<char>, etag: Seq<char>, ical_text: Seq<char> },
    SuccessUpdate { new_etag: Seq<char>, new_ical: Seq<char>, retried: bool },
    SuccessDelete { retried: bool },
    Transient(Seq<char>),
    Terminal(Seq<char>),
}

impl View for ExecOutcome {
    type V = ExecOutcomeV;

    open spec fn view(&self) -> ExecOutcomeV {
        match self {
            ExecOutcome::SuccessCreate { task_url, etag, ical_text } => {
                ExecOutcomeV::SuccessCreate {
                    task_url: task_url@,
                    etag: etag@,
                    ical_text: ical_text@,
                }
            },
            ExecOutcome::SuccessUpdate { new_etag, new_ical, retried } => {
                ExecOutcomeV::SuccessUpdate {
                    new_etag: new_etag@,
                    new_ical: new_ical@,
                    retried: *retried,
                }
            },
            ExecOutcome::SuccessDelete { retried } => ExecOutcomeV::SuccessDelete {
                retried: *retried,
            },
            ExecOutcome::Transient(m) => ExecOutcomeV::Transient(m@),
            ExecOutcome::Terminal(m) => ExecOutcomeV::Terminal(m@),
        }
    }
}

// --- What a failure means ---

/// Does the message name the status `code`, set apart by blanks?
pub open spec fn names_status(msg: Seq<char>, code: nat) -> bool {
    has_sub(msg, " "@ + decimal(code) + " "@)
}

/// A status after which a retry is pointless.
pub open spec fn names_terminal_status(msg: Seq<char>) -> bool {
    names_status(msg, 401) || names_status(msg, 403) || names_status(msg, 404) || names_status(
        msg,
        409,
    ) || names_status(msg, 410)
}

/// What a failure means for the operation: the network's faults and anything
/// unknown may pass; refusals, conflicts and vanished tasks will not.
pub open spec fn classified(f: FailureV) -> ExecOutcomeV {
    match f.network {
        Some(n) => ExecOutcomeV::Transient("network: "@ + n),
        None => if has_sub(f.message, "412 Precondition Failed twice in a row"@) {
            ExecOutcomeV::Terminal("double-412 (server-side conflict)"@)
        } else if has_sub(f.message, "412 on create -- UID collision"@) {
            ExecOutcomeV::Terminal("UID collision on create"@)
        } else if has_sub(f.message, "then 404 on refetch"@) {
            ExecOutcomeV::Terminal("task disappeared during PUT retry"@)
        } else if names_terminal_status(f.message) {
            ExecOutcomeV::Terminal(f.message)
        } else {
            ExecOutcomeV::Transient(f.message)
        },
    }
}

fn has_status(msg: &str, code: u16) -> (r: bool)
    ensures
        r == names_status(msg@, code as nat),
{
    let mut needle = " ".to_owned();
    needle.append(decimal_of(code as u64).as_str());
    needle.append(" ");
    contains(msg, needle.as_str())
}

/// Decides whether a failed operation is worth another try.
pub fn classify_error(err: &Failure) -> (o: ExecOutcome)
    ensures
        o@ == classified(err@),
{
    match &err.network {
        Some(n) => {
            let mut m = "network: ".to_owned();
            m.append(n.as_str());
            return ExecOutcome::Transient(m);
        },
        None => {},
    }
    let msg = err.message.as_str();
    if contains(msg, "412 Precondition Failed twice in a row") {
        return ExecOutcome::Terminal("double-412 (server-side conflict)".to_owned());
    }
    if contains(msg, "412 on create -- UID collision") {
        return ExecOutcome::Terminal("UID collision on create".to_owned());
    }
    if contains(msg, "then 404 on refetch") {
        return ExecOutcome::Terminal("task disappeared during PUT retry".to_owned());
    }
    if has_status(msg, 401) || has_status(msg, 403) || has_status(msg, 404) || has_status(msg, 409)
        || has_status(msg, 410) {
        return ExecOutcome::Terminal(msg.to_owned());
    }
    ExecOutcome::Transient(msg.to_owned())
}

// --- What an operation asks of the server ---

pub open spec fn outcome_step(s: Step<ExecOutcome>) -> StepV<ExecOutcomeV> {
    match s {
        Step::Send(r) => StepV::Send(r@),
        Step::Done(o) => StepV::Done(o@),
    }
}

/// The summary in a payload.
pub open spec fn payload_summary(payload: Option<Seq<char>>) -> Option<Seq<char>> {
    match payload {
        Some(t) => match json_top(t) {
            Ok(top) => top.string("summary"@),
            Err(_) => None,
        },
        None => None,
    }
}

/// The due date in a payload: an empty one is to be removed.
pub open spec fn payload_due(payload: Option<Seq<char>>) -> Option<Seq<char>> {
    match payload {
        Some(t) => match json_top(t) {
            Ok(top) => top.string("due"@),
            Err(_) => None,
        },
        None => None,
    }
}

/// The text of a task to create: the one in the cache, with what was changed since the
/// create was queued. Where the cache has none, it is made of what was queued.
pub open spec fn text_to_create(row: Option<TaskRowV>, op: PendingOpV, now: Seq<char>) -> Seq<char> {
    match row {
        Some(r) => r.ical_text,
        None => new_todo(
            op.target_uid,
            match payload_summary(op.payload) {
                Some(s) => s,
                None => "(no summary)"@,
            },
            payload_due(op.payload),
            now,
        ),
    }
}

/// A create, under the identifier that it was queued with.
pub open spec fn create_dispatch(
    row: Option<TaskRowV>,
    calendar_url: Seq<char>,
    op: PendingOpV,
    replies: Seq<ReplyV>,
    now: Seq<char>,
) -> StepV<ExecOutcomeV> {
    match create_url(calendar_url, op.target_uid) {
        Err(e) => StepV::Done(ExecOutcomeV::Terminal("invalid calendar URL: "@ + e)),
        Ok(url) => match create_exchange(url, text_to_create(row, op, now), replies) {
            StepV::Send(r) => StepV::Send(r),
            StepV::Done(Ok(done)) => StepV::Done(
                ExecOutcomeV::SuccessCreate { task_url: url, etag: done.0, ical_text: done.1 },
            ),
            StepV::Done(Err(e)) => StepV::Done(classified(e)),
        },
    }
}

/// The status that the toggles of a task lead to: what the cache shows of it. A task that
/// it shows in a status that no toggle leads to is to be completed.
pub open spec fn toggle_goal(status: Option<Seq<char>>) -> TaskStatus {
    if status == Some("needs-action"@) {
        TaskStatus::NeedsAction
    } else {
        TaskStatus::Completed
    }
}

/// The text `ical` of a task, with a change in it. It is left as it is where it holds the
/// change already. `status` is the one that the cache shows of the task.
pub open spec fn with_change(
    ical: Seq<char>,
    status: Option<Seq<char>>,
    change: ChangeV,
    now: Seq<char>,
) -> Seq<char> {
    match change {
        ChangeV::Toggle => with_toggle(ical, toggle_goal(status), now),
        ChangeV::Edit { summary, due } => with_edit(ical, summary, due, now),
    }
}

/// A write of the cached text, with the change to apply again on a newer one. The cached
/// text holds the change, unless another one took its place.
pub open spec fn update_dispatch(
    row: Option<TaskRowV>,
    calendar_url: Seq<char>,
    op: PendingOpV,
    change: ChangeV,
    missing: Seq<char>,
    replies: Seq<ReplyV>,
    now: Seq<char>,
) -> StepV<ExecOutcomeV> {
    match row {
        None => StepV::Done(ExecOutcomeV::Terminal(missing)),
        Some(row) => match task_url(calendar_url, row.href) {
            Err(e) => StepV::Done(ExecOutcomeV::Terminal("invalid task URL: "@ + e)),
            Ok(url) => match put_exchange(
                url,
                row.etag,
                with_change(row.ical_text, row.status, change, now),
                change,
                replies,
                now,
            ) {
                StepV::Send(r) => StepV::Send(r),
                StepV::Done(Ok(w)) => StepV::Done(
                    ExecOutcomeV::SuccessUpdate { new_etag: w.0, new_ical: w.1, retried: w.2 },
                ),
                StepV::Done(Err(e)) => StepV::Done(classified(e)),
            },
        },
    }
}

/// A delete; nothing to ask where the cache has no such task.
pub open spec fn delete_dispatch(
    row: Option<TaskRowV>,
    calendar_url: Seq<char>,
    replies: Seq<ReplyV>,
) -> StepV<ExecOutcomeV> {
    match row {
        None => StepV::Done(ExecOutcomeV::SuccessDelete { retried: false }),
        Some(row) => match task_url(calendar_url, row.href) {
            Err(e) => StepV::Done(ExecOutcomeV::Terminal("invalid task URL: "@ + e)),
            Ok(url) => match delete_exchange(url, row.etag, replies) {
                StepV::Send(r) => StepV::Send(r),
                StepV::Done(Ok(retried)) => StepV::Done(ExecOutcomeV::SuccessDelete { retried }),
                StepV::Done(Err(e)) => StepV::Done(classified(e)),
            },
        },
    }
}

/// The row of the task that an operation is about.
pub open spec fn row_of(s: StoreV, op: PendingOpV) -> Option<TaskRowV> {
    first(s.tasks, of_uid(op.target_calendar_href, op.target_uid))
}

/// What the operation `op` asks for next, or what became of it, where its task is in
/// the cache as it is now.
pub open spec fn dispatched(
    s: StoreV,
    calendar_url: Seq<char>,
    op: PendingOpV,
    replies: Seq<ReplyV>,
    now: Seq<char>,
) -> StepV<ExecOutcomeV> {
    dispatched_on(row_of(s, op), calendar_url, op, replies, now)
}

/// What the operation `op` on the task `row` asks for next, or what became of it.
pub open spec fn dispatched_on(
    row: Option<TaskRowV>,
    calendar_url: Seq<char>,
    op: PendingOpV,
    replies: Seq<ReplyV>,
    now: Seq<char>,
) -> StepV<ExecOutcomeV> {
    if op.op_type == "create"@ {
        create_dispatch(row, calendar_url, op, replies, now)
    } else if op.op_type == "toggle"@ {
        update_dispatch(
            row,
            calendar_url,
            op,
            ChangeV::Toggle,
            "cache row missing for toggle"@,
            replies,
            now,
        )
    } else if op.op_type == "edit"@ {
        match payload_summary(op.payload) {
            None => StepV::Done(ExecOutcomeV::Terminal("edit op missing summary payload"@)),
            Some(summary) => update_dispatch(
                row,
                calendar_url,
                op,
                ChangeV::Edit { summary, due: payload_due(op.payload) },
                "cache row missing for edit"@,
                replies,
                now,
            ),
        }
    } else if op.op_type == "delete"@ {
        delete_dispatch(row, calendar_url, replies)
    } else {
        StepV::Done(ExecOutcomeV::Terminal("unknown op_type: "@ + op.op_type))
    }
}

fn terminal(prefix: &str, detail: &str) -> (o: ExecOutcome)
    ensures
        o@ == ExecOutcomeV::Terminal(prefix@ + detail@),
{
    let mut m = prefix.to_owned();
    m.append(detail);
    ExecOutcome::Terminal(m)
}

/// Reads the summary out of a payload.
pub fn summary_in_payload(payload: &Option<String>) -> (r: Option<String>)
    ensures
        opt_text(r) == payload_summary(opt_text(*payload)),
{
    match payload {
        Some(t) => match read_json(t.as_str()) {
            Ok(top) => top.str_field("summary"),
            Err(_) => None,
        },
        None => None,
    }
}

/// Reads the due date out of a payload.
pub fn due_in_payload(payload: &Option<String>) -> (r: Option<String>)
    ensures
        opt_text(r) == payload_due(opt_text(*payload)),
{
    match payload {
        Some(t) => match read_json(t.as_str()) {
            Ok(top) => top.str_field("due"),
            Err(_) => None,
        },
        None => None,
    }
}

/// Composes the text of a task to create.
fn compose_create(row: &Option<TaskRow>, op: &PendingOp, now: &str) -> (r: String)
    ensures
        r@ == text_to_create(opt_row(*row), op@, now@),
{
    match row {
        Some(r) => r.ical_text.clone(),
        None => {
            let summary = match summary_in_payload(&op.payload) {
                Some(s) => s,
                None => "(no summary)".to_owned(),
            };
            let due = due_in_payload(&op.payload);
            new_todo_body(op.target_uid.as_str(), summary.as_str(), borrow_opt(&due), now)
        },
    }
}

fn dispatch_create(
    row: &Option<TaskRow>,
    calendar_url: &str,
    op: &PendingOp,
    replies: &Vec<Reply>,
    now: &str,
) -> (s: Step<ExecOutcome>)
    ensures
        outcome_step(s) == create_dispatch(
            opt_row(*row),
            calendar_url@,
            op@,
            reply_views(replies@),
            now@,
        ),
{
    match build_create_url(calendar_url, op.target_uid.as_str()) {
        Err(e) => Step::Done(terminal("invalid calendar URL: ", e.message.as_str())),
        Ok(task_url) => match put_task_create(
            task_url.as_str(),
            compose_create(row, op, now).as_str(),
            replies,
        ) {
            Step::Send(r) => Step::Send(r),
            Step::Done(Ok((etag, ical_text))) => Step::Done(
                ExecOutcome::SuccessCreate { task_url, etag, ical_text },
            ),
            Step::Done(Err(e)) => Step::Done(classify_error(&e)),
        },
    }
}

/// Reads the status that the toggles of a task lead to.
fn goal_of_toggle(status: &Option<String>) -> (to: TaskStatus)
    ensures
        to == toggle_goal(opt_text(*status)),
{
    match status {
        Some(s) => if str_eq(s.as_str(), "needs-action") {
            TaskStatus::NeedsAction
        } else {
            TaskStatus::Completed
        },
        None => TaskStatus::Completed,
    }
}

/// Brings a change into a text of a task.
fn bring_change(ical: &str, status: &Option<String>, change: &Change, now: &str) -> (r: String)
    ensures
        r@ == with_change(ical@, opt_text(*status), change@, now@),
{
    match change {
        Change::Toggle => ensure_toggle(ical, goal_of_toggle(status), now),
        Change::Edit { summary, due } => ensure_edit(ical, summary.as_str(), borrow_opt(due), now),
    }
}

/// Writes the text of the operation's task.
fn dispatch_update(
    row: &Option<TaskRow>,
    calendar_url: &str,
    op: &PendingOp,
    change: &Change,
    missing: &str,
    replies: &Vec<Reply>,
    now: &str,
) -> (s: Step<ExecOutcome>)
    ensures
        outcome_step(s) == update_dispatch(
            opt_row(*row),
            calendar_url@,
            op@,
            change@,
            missing@,
            reply_views(replies@),
            now@,
        ),
{
    let row = match row {
        Some(r) => r,
        None => {
            return Step::Done(ExecOutcome::Terminal(missing.to_owned()));
        },
    };
    match build_task_url(calendar_url, row.href.as_str()) {
        Err(e) => Step::Done(terminal("invalid task URL: ", e.message.as_str())),
        Ok(url) => match put_task_with_retry(
            url.as_str(),
            row.etag.as_str(),
            bring_change(row.ical_text.as_str(), &row.status, change, now).as_str(),
            change,
            replies,
            now,
        ) {
            Step::Send(r) => Step::Send(r),
            Step::Done(Ok((new_etag, new_ical, retried))) => Step::Done(
                ExecOutcome::SuccessUpdate { new_etag, new_ical, retried },
            ),
            Step::Done(Err(e)) => Step::Done(classify_error(&e)),
        },
    }
}

fn dispatch_toggle(
    row: &Option<TaskRow>,
    calendar_url: &str,
    op: &PendingOp,
    replies: &Vec<Reply>,
    now: &str,
) -> (s: Step<ExecOutcome>)
    ensures
        outcome_step(s) == update_dispatch(
            opt_row(*row),
            calendar_url@,
            op@,
            ChangeV::Toggle,
            "cache row missing for toggle"@,
            reply_views(replies@),
            now@,
        ),
{
    dispatch_update(
        row,
        calendar_url,
        op,
        &Change::Toggle,
        "cache row missing for toggle",
        replies,
        now,
    )
}

fn dispatch_edit(
    row: &Option<TaskRow>,
    calendar_url: &str,
    op: &PendingOp,
    replies: &Vec<Reply>,
    now: &str,
) -> (s: Step<ExecOutcome>)
    ensures
        outcome_step(s) == match payload_summary(op@.payload) {
            None => StepV::Done(ExecOutcomeV::Terminal("edit op missing summary payload"@)),
            Some(summary) => update_dispatch(
                opt_row(*row),
                calendar_url@,
                op@,
                ChangeV::Edit { summary, due: payload_due(op@.payload) },
                "cache row missing for edit"@,
                reply_views(replies@),
                now@,
            ),
        },
{
    match summary_in_payload(&op.payload) {
        None => Step::Done(ExecOutcome::Terminal("edit op missing summary payload".to_owned())),
        Some(summary) => dispatch_update(
            row,
            calendar_url,
            op,
            &Change::Edit { summary, due: due_in_payload(&op.payload) },
            "cache row missing for edit",
            replies,
            now,
        ),
    }
}

fn dispatch_delete(row: &Option<TaskRow>, calendar_url: &str, replies: &Vec<Reply>) -> (s: Step<
    ExecOutcome,
>)
    ensures
        outcome_step(s) == delete_dispatch(opt_row(*row), calendar_url@, reply_views(replies@)),
{
    let row = match row {
        Some(r) => r,
        None => {
            return Step::Done(ExecOutcome::SuccessDelete { retried: false });
        },
    };
    match build_task_url(calendar_url, row.href.as_str()) {
        Err(e) => Step::Done(terminal("invalid task URL: ", e.message.as_str())),
        Ok(url) => match delete_task_with_retry(url.as_str(), row.etag.as_str(), replies) {
            Step::Send(r) => Step::Send(r),
            Step::Done(Ok(retried)) => Step::Done(ExecOutcome::SuccessDelete { retried }),
            Step::Done(Err(e)) => Step::Done(classify_error(&e)),
        },
    }
}

/// What an operation on the task `row` asks for next, given the replies it has had, or
/// what became of it. `now` stamps the texts it writes, and stays the same over its
/// steps.
pub fn dispatch_op_on(
    row: &Option<TaskRow>,
    calendar_url: &str,
    op: &PendingOp,
    replies: &Vec<Reply>,
    now: &str,
) -> (s: Step<ExecOutcome>)
    ensures
        outcome_step(s) == dispatched_on(
            opt_row(*row),
            calendar_url@,
            op@,
            reply_views(replies@),
            now@,
        ),
{
    let kind = op.op_type.as_str();
    if str_eq(kind, "create") {
        dispatch_create(row, calendar_url, op, replies, now)
    } else if str_eq(kind, "toggle") {
        dispatch_toggle(row, calendar_url, op, replies, now)
    } else if str_eq(kind, "edit") {
        dispatch_edit(row, calendar_url, op, replies, now)
    } else if str_eq(kind, "delete") {
        dispatch_delete(row, calendar_url, replies)
    } else {
        Step::Done(terminal("unknown op_type: ", kind))
    }
}

/// A copy of the row of the task that an operation is about.
fn fetch_row_of(store: &Store, op: &PendingOp) -> (r: Option<TaskRow>)
    ensures
        opt_row(r) == row_of(store@, op@),
{
    let k = store.find_uid(op.target_calendar_href.as_str(), op.target_uid.as_str());
    if k >= store.tasks.len() {
        return None;
    }
    assert(store@.tasks[k as int] == store.tasks@[k as int]@);
    Some(store.tasks[k].copy())
}

/// What an operation asks for next, given the replies it has had, or what became
/// of it. `now` stamps the texts it writes, and stays the same over its steps.
pub fn dispatch_op(
    store: &Store,
    calendar_url: &str,
    op: &PendingOp,
    replies: &Vec<Reply>,
    now: &str,
) -> (s: Step<ExecOutcome>)
    ensures
        outcome_step(s) == dispatched(store@, calendar_url@, op@, reply_views(replies@), now@),
{
    let row = fetch_row_of(store, op);
    dispatch_op_on(&row, calendar_url, op, replies, now)
}

// --- What an outcome does to the tables ---

/// The rows of `cal` for `uid` with the server's href, version and text.
pub open spec fn rows_confirmed(
    tasks: Seq<TaskRowV>,
    cal: Seq<char>,
    uid: Seq<char>,
    href: Seq<char>,
    etag: Seq<char>,
    ical: Seq<char>,
) -> Seq<TaskRowV> {
    tasks.map_values(
        |r: TaskRowV|
            if of_uid(cal, uid)(r) {
                TaskRowV { href, etag, ical_text: ical, ..r }
            } else {
                r
            },
    )
}

/// The rows of `cal` for `uid` with the server's version and text.
pub open spec fn rows_updated(
    tasks: Seq<TaskRowV>,
    cal: Seq<char>,
    uid: Seq<char>,
    etag: Seq<char>,
    ical: Seq<char>,
) -> Seq<TaskRowV> {
    tasks.map_values(
        |r: TaskRowV|
            if of_uid(cal, uid)(r) {
                TaskRowV { etag, ical_text: ical, ..r }
            } else {
                r
            },
    )
}

/// Is there a row of `cal` for `uid`?
pub open spec fn has_row(s: StoreV, cal: Seq<char>, uid: Seq<char>) -> bool {
    find(s.tasks, of_uid(cal, uid), 0) < s.tasks.len()
}

/// The operation given up with `msg`, and everything else that waits for its task
/// with it.
pub open spec fn abandoned(
    s: StoreV,
    op: PendingOpV,
    ops: Seq<PendingOpV>,
    sum: FlushSummaryV,
) -> (StoreV, FlushSummaryV) {
    (
        StoreV { ops: uid_errored(ops, op.target_uid, blocked_by(op.op_type)), ..s },
        FlushSummaryV {
            newly_errored: sum.newly_errored + 1,
            cascade_errored: sum.cascade_errored + count(ops, drainable_on(op.target_uid)),
            ..sum
        },
    )
}

/// The operation done: its row as given, and the operation gone.
pub open spec fn completed(
    s: StoreV,
    op: PendingOpV,
    tasks: Seq<TaskRowV>,
    retried: bool,
    sum: FlushSummaryV,
) -> (StoreV, FlushSummaryV) {
    (
        StoreV { tasks, ops: s.ops.filter(op_other_than(op.id)), ..s },
        FlushSummaryV {
            flushed: sum.flushed + 1,
            retried: sum.retried + if retried {
                1int
            } else {
                0int
            },
            ..sum
        },
    )
}

pub open spec fn going_on(p: (StoreV, FlushSummaryV)) -> Result<
    (StoreV, FlushSummaryV, bool),
    FailureV,
> {
    Ok((p.0, p.1, true))
}

/// The number of failed attempts after which an operation is given up.
pub const MAX_STRIKES: i64 = 5;

/// The tables and counters after an outcome, and whether the pass goes on.
pub open spec fn outcome_applied(
    s: StoreV,
    op: PendingOpV,
    o: ExecOutcomeV,
    sum: FlushSummaryV,
) -> Result<(StoreV, FlushSummaryV, bool), FailureV> {
    let cal = op.target_calendar_href;
    let uid = op.target_uid;
    match o {
        ExecOutcomeV::SuccessCreate { task_url, etag, ical_text } => {
            let tasks = rows_confirmed(s.tasks, cal, uid, task_url, etag, ical_text);
            if !has_row(s, cal, uid) {
                going_on(
                    abandoned(
                        s,
                        op,
                        op_errored(s.ops, op.id, "cache row vanished mid-flush (create)"@),
                        sum,
                    ),
                )
            } else if !task_keys_unique(tasks) {
                Err(plain("UNIQUE constraint failed: task.calendar_href, task.href"@))
            } else {
                going_on(completed(s, op, tasks, false, sum))
            }
        },
        ExecOutcomeV::SuccessUpdate { new_etag, new_ical, retried } => {
            if !has_row(s, cal, uid) {
                going_on(
                    abandoned(
                        s,
                        op,
                        op_errored(s.ops, op.id, "cache row vanished mid-flush"@),
                        sum,
                    ),
                )
            } else {
                going_on(
                    completed(
                        s,
                        op,
                        rows_updated(s.tasks, cal, uid, new_etag, new_ical),
                        retried,
                        sum,
                    ),
                )
            }
        },
        ExecOutcomeV::SuccessDelete { retried } => going_on(
            completed(s, op, s.tasks.filter(not_of_uid(cal, uid)), retried, sum),
        ),
        ExecOutcomeV::Transient(msg) => match strike(s.ops, op.id, msg) {
            Err(e) => Err(e),
            Ok((ops, n)) => if n >= MAX_STRIKES {
                let p = abandoned(s, op, op_flagged(ops, op.id), sum);
                Ok((p.0, p.1, false))
            } else {
                Ok(
                    (
                        StoreV { ops, ..s },
                        FlushSummaryV { transient_failed: sum.transient_failed + 1, ..sum },
                        false,
                    ),
                )
            },
        },
        ExecOutcomeV::Terminal(msg) => going_on(
            abandoned(s, op, op_errored(s.ops, op.id, msg), sum),
        ),
    }
}

/// The counters have room for one more operation and what it takes with it.
pub open spec fn has_room(sum: FlushSummary, ops: Seq<PendingOpV>) -> bool {
    &&& sum.flushed < usize::MAX
    &&& sum.retried < usize::MAX
    &&& sum.transient_failed < usize::MAX
    &&& sum.newly_errored < usize::MAX
    &&& sum.cascade_errored + count(ops, drainable()) <= usize::MAX
}

/// Whether confirming a create would give two rows the same key: another row has
/// the href, or another row has the identifier.
proof fn lemma_confirm_keys(
    tasks: Seq<TaskRowV>,
    cal: Seq<char>,
    uid: Seq<char>,
    href: Seq<char>,
    etag: Seq<char>,
    ical: Seq<char>,
    k: int,
)
    requires
        task_keys_unique(tasks),
        0 <= k < tasks.len(),
        of_uid(cal, uid)(tasks[k]),
    ensures
        task_keys_unique(rows_confirmed(tasks, cal, uid, href, etag, ical)) == (forall|j: int|
            0 <= j < tasks.len() && j != k ==> !of_uid(cal, uid)(#[trigger] tasks[j]) && !keyed(
                cal,
                href,
            )(tasks[j])),
{
    let t = rows_confirmed(tasks, cal, uid, href, etag, ical);
    if task_keys_unique(t) {
        assert forall|j: int| 0 <= j < tasks.len() && j != k implies !of_uid(cal, uid)(
            #[trigger] tasks[j],
        ) && !keyed(cal, href)(tasks[j]) by {
            assert(t[k].calendar_href == cal && t[k].href == href);
            if of_uid(cal, uid)(tasks[j]) || keyed(cal, href)(tasks[j]) {
                assert(t[j].calendar_href == cal && t[j].href == href);
                if j < k {
                    assert(!(t[j].calendar_href == t[k].calendar_href && t[j].href == t[k].href));
                } else {
                    assert(!(t[k].calendar_href == t[j].calendar_href && t[k].href == t[j].href));
                }
            }
        }
    } else if forall|j: int|
        0 <= j < tasks.len() && j != k ==> !of_uid(cal, uid)(#[trigger] tasks[j]) && !keyed(
            cal,
            href,
        )(tasks[j]) {
        assert forall|i: int, j: int| 0 <= i < j < t.len() implies !((
        #[trigger] t[i]).calendar_href == (#[trigger] t[j]).calendar_href && t[i].href
            == t[j].href) by {
            assert(tasks[i] == tasks[i] && tasks[j] == tasks[j]);
            if i != k && j != k {
                assert(t[i] == tasks[i] && t[j] == tasks[j]);
            }
        }
    }
}

/// Does another row than `k` have the identifier or the href?
fn clashes(store: &Store, cal: &str, uid: &str, href: &str, k: usize) -> (b: bool)
    ensures
        b == !(forall|j: int|
            0 <= j < store@.tasks.len() && j != k ==> !of_uid(cal@, uid@)(
                #[trigger] store@.tasks[j],
            ) && !keyed(cal@, href@)(store@.tasks[j])),
{
    let mut i: usize = 0;
    while i < store.tasks.len()
        invariant
            i <= store.tasks@.len(),
            forall|j: int|
                0 <= j < i && j != k ==> !of_uid(cal@, uid@)(#[trigger] store@.tasks[j]) && !keyed(
                    cal@,
                    href@,
                )(store@.tasks[j]),
        decreases store.tasks@.len() - i,
    {
        assert(store@.tasks[i as int] == store.tasks@[i as int]@);
        if i != k && (store.tasks[i].is_uid(cal, uid) || store.tasks[i].is_keyed(cal, href)) {
            return true;
        }
        i += 1;
    }
    false
}

/// Gives up everything that waits for the operation's task.
fn abandon(store: &mut Store, op: &PendingOp, summary: &mut FlushSummary)
    requires
        old(store)@.wf(),
        old(summary).newly_errored < usize::MAX,
        old(summary).cascade_errored + count(
            old(store)@.ops,
            drainable_on(op@.target_uid),
        ) <= usize::MAX,
    ensures
        final(store)@.wf(),
        (final(store)@, final(summary)@) == abandoned(
            old(store)@,
            op@,
            old(store)@.ops,
            old(summary)@,
        ),
{
    let n = cascade_uid(store, op.target_uid.as_str(), op.op_type.as_str());
    summary.newly_errored += 1;
    summary.cascade_errored += n;
}

/// Marking an operation cannot make more of them wait.
proof fn lemma_marked_count(ops: Seq<PendingOpV>, marked: Seq<PendingOpV>, uid: Seq<char>)
    requires
        marked.len() == ops.len(),
        forall|i: int|
            0 <= i < ops.len() && (#[trigger] marked[i]).errored == 0 ==> ops[i].errored == 0,
    ensures
        count(marked, drainable_on(uid)) <= count(ops, drainable()),
    decreases ops.len(),
{
    reveal(Seq::filter);
    if ops.len() > 0 {
        let (a, b) = (ops.drop_last(), marked.drop_last());
        assert forall|i: int| 0 <= i < a.len() && (#[trigger] b[i]).errored == 0 implies a[i].errored
            == 0 by {
            assert(b[i] == marked[i] && a[i] == ops[i]);
        }
        lemma_marked_count(a, b, uid);
        let n = ops.len() - 1;
        assert(marked[n] == marked.last() && ops[n] == ops.last());
    }
}

/// Replaces the rows of the operation's task by the server's version.
fn update_rows(store: &mut Store, cal: &str, uid: &str, href: Option<&str>, etag: &str, ical: &str)
    requires
        old(store)@.wf(),
        match href {
            Some(h) => task_keys_unique(
                rows_confirmed(old(store)@.tasks, cal@, uid@, h@, etag@, ical@),
            ),
            None => true,
        },
    ensures
        final(store)@.wf(),
        final(store)@ == (StoreV {
            tasks: match href {
                Some(h) => rows_confirmed(old(store)@.tasks, cal@, uid@, h@, etag@, ical@),
                None => rows_updated(old(store)@.tasks, cal@, uid@, etag@, ical@),
            },
            ..old(store)@
        }),
{
    let ghost want = match href {
        Some(h) => rows_confirmed(store@.tasks, cal@, uid@, h@, etag@, ical@),
        None => rows_updated(store@.tasks, cal@, uid@, etag@, ical@),
    };
    let mut i: usize = 0;
    while i < store.tasks.len()
        invariant
            i <= store.tasks@.len(),
            store.tasks@.len() == old(store).tasks@.len(),
            store.ops == old(store).ops,
            store.calendars == old(store).calendars,
            store.last_op_id == old(store).last_op_id,
            want == (match href {
                Some(h) => rows_confirmed(old(store)@.tasks, cal@, uid@, h@, etag@, ical@),
                None => rows_updated(old(store)@.tasks, cal@, uid@, etag@, ical@),
            }),
            forall|j: int| 0 <= j < i ==> (#[trigger] store.tasks@[j])@ == want[j],
            forall|j: int| i <= j < store.tasks@.len() ==> store.tasks@[j] == old(store).tasks@[j],
        decreases store.tasks@.len() - i,
    {
        assert(old(store)@.tasks[i as int] == store.tasks@[i as int]@);
        if store.tasks[i].is_uid(cal, uid) {
            match href {
                Some(h) => {
                    store.tasks[i].href = h.to_owned();
                },
                None => {},
            }
            store.tasks[i].etag = etag.to_owned();
            store.tasks[i].ical_text = ical.to_owned();
        }
        i += 1;
    }
    assert(store@.tasks =~= want);
    proof {
        if href is None {
            assert forall|a: int, b: int| 0 <= a < b < want.len() implies !((
            #[trigger] want[a]).calendar_href == (#[trigger] want[b]).calendar_href && want[a].href
                == want[b].href) by {
                let x = old(store)@.tasks[a];
                let y = old(store)@.tasks[b];
                assert(want[a].href == x.href && want[b].href == y.href);
            }
        }
    }
}

/// Puts an outcome into the tables and counts it. Says whether the pass goes on:
/// it ends at the first failure that may pass.
pub fn apply_outcome(
    store: &mut Store,
    op: &PendingOp,
    outcome: ExecOutcome,
    summary: &mut FlushSummary,
) -> (r: Result<bool, Failure>)
    requires
        old(store)@.wf(),
        has_room(*old(summary), old(store)@.ops),
    ensures
        final(store)@.wf(),
        match outcome_applied(old(store)@, op@, outcome@, old(summary)@) {
            Ok((s, sum, cont)) => {
                &&& r is Ok
                &&& r->Ok_0 == cont
                &&& final(store)@ == s
                &&& final(summary)@ == sum
            },
            Err(e) => {
                &&& r is Err
                &&& r->Err_0@ == e
                &&& final(store)@ == old(store)@
                &&& final(summary)@ == old(summary)@
            },
        },
{
    let cal = op.target_calendar_href.as_str();
    let uid = op.target_uid.as_str();
    match outcome {
        ExecOutcome::SuccessCreate { task_url, etag, ical_text } => {
            let k = store.find_uid(cal, uid);
            proof {
                lemma_find(store@.tasks, of_uid(cal@, uid@), 0);
            }
            if k >= store.tasks.len() {
                mark_op_errored(store, op.id, "cache row vanished mid-flush (create)");
                proof {
                    lemma_marked_count(old(store)@.ops, store@.ops, uid@);
                }
                abandon(store, op, summary);
                return Ok(true);
            }
            proof {
                lemma_confirm_keys(
                    store@.tasks,
                    cal@,
                    uid@,
                    task_url@,
                    etag@,
                    ical_text@,
                    k as int,
                );
            }
            if clashes(store, cal, uid, task_url.as_str(), k) {
                return Err(
                    Failure::new("UNIQUE constraint failed: task.calendar_href, task.href"),
                );
            }
            update_rows(
                store,
                cal,
                uid,
                Some(task_url.as_str()),
                etag.as_str(),
                ical_text.as_str(),
            );
            delete_pending_op(store, op.id);
            summary.flushed += 1;
            Ok(true)
        },
        ExecOutcome::SuccessUpdate { new_etag, new_ical, retried } => {
            let k = store.find_uid(cal, uid);
            if k >= store.tasks.len() {
                mark_op_errored(store, op.id, "cache row vanished mid-flush");
                proof {
                    lemma_marked_count(old(store)@.ops, store@.ops, uid@);
                }
                abandon(store, op, summary);
                return Ok(true);
            }
            update_rows(store, cal, uid, None, new_etag.as_str(), new_ical.as_str());
            delete_pending_op(store, op.id);
            summary.flushed += 1;
            if retried {
                summary.retried += 1;
            }
            Ok(true)
        },
        ExecOutcome::SuccessDelete { retried } => {
            let _ = delete_by_uid(store, cal, uid);
            delete_pending_op(store, op.id);
            summary.flushed += 1;
            if retried {
                summary.retried += 1;
            }
            Ok(true)
        },
        ExecOutcome::Transient(msg) => match bump_error_count_tx(store, op.id, msg.as_str()) {
            Err(e) => Err(e),
            Ok(n) => {
                if n >= MAX_STRIKES {
                    flag_errored(store, op.id);
                    proof {
                        lemma_marked_count(old(store)@.ops, store@.ops, uid@);
                    }
                    abandon(store, op, summary);
                } else {
                    summary.transient_failed += 1;
                }
                Ok(false)
            },
        },
        ExecOutcome::Terminal(msg) => {
            mark_op_errored(store, op.id, msg.as_str());
            proof {
                lemma_marked_count(old(store)@.ops, store@.ops, uid@);
            }
            abandon(store, op, summary);
            Ok(true)
        },
    }
}

// --- What still waits for a task ---

/// The change that an operation makes to the text of its task.
pub open spec fn change_of(op: PendingOpV) -> Option<ChangeV> {
    if op.op_type == "toggle"@ {
        Some(ChangeV::Toggle)
    } else if op.op_type == "edit"@ {
        match payload_summary(op.payload) {
            Some(summary) => Some(ChangeV::Edit { summary, due: payload_due(op.payload) }),
            None => None,
        }
    } else {
        None
    }
}

/// An operation that waits for the task `uid` of `cal`.
pub open spec fn waits_on(cal: Seq<char>, uid: Seq<char>) -> spec_fn(PendingOpV) -> bool {
    |o: PendingOpV| o.errored == 0 && o.target_calendar_href == cal && o.target_uid == uid
}

/// The text `ical` of a task, with the changes in it that the first `n` operations make
/// and that wait, in their order.
pub open spec fn with_waiting(
    ical: Seq<char>,
    status: Option<Seq<char>>,
    ops: Seq<PendingOpV>,
    cal: Seq<char>,
    uid: Seq<char>,
    now: Seq<char>,
    n: nat,
) -> Seq<char>
    decreases n,
{
    if n == 0 {
        ical
    } else {
        let before = with_waiting(ical, status, ops, cal, uid, now, (n - 1) as nat);
        match change_of(ops[n - 1]) {
            Some(c) => if waits_on(cal, uid)(ops[n - 1]) {
                with_change(before, status, c, now)
            } else {
                before
            },
            None => before,
        }
    }
}

/// The rows of a task with the changes in their text that still wait for it.
pub open spec fn rows_caught_up(
    tasks: Seq<TaskRowV>,
    ops: Seq<PendingOpV>,
    cal: Seq<char>,
    uid: Seq<char>,
    now: Seq<char>,
) -> Seq<TaskRowV> {
    tasks.map_values(
        |r: TaskRowV|
            if of_uid(cal, uid)(r) {
                TaskRowV {
                    ical_text: with_waiting(
                        r.ical_text,
                        r.status,
                        ops,
                        cal,
                        uid,
                        now,
                        ops.len(),
                    ),
                    ..r
                }
            } else {
                r
            },
    )
}

/// The tables after an outcome: where it put a text of the server's into the rows of the
/// task, what still waits for the task is brought into it again.
pub open spec fn caught_up(s: StoreV, op: PendingOpV, o: ExecOutcomeV, now: Seq<char>) -> StoreV {
    if o is SuccessCreate || o is SuccessUpdate {
        StoreV {
            tasks: rows_caught_up(
                s.tasks,
                s.ops,
                op.target_calendar_href,
                op.target_uid,
                now,
            ),
            ..s
        }
    } else {
        s
    }
}

pub open spec fn change_view(c: Option<Change>) -> Option<ChangeV> {
    match c {
        Some(c) => Some(c@),
        None => None,
    }
}

/// Reads the change that an operation makes.
fn read_change(op: &PendingOp) -> (c: Option<Change>)
    ensures
        change_view(c) == change_of(op@),
{
    let kind = op.op_type.as_str();
    if str_eq(kind, "toggle") {
        Some(Change::Toggle)
    } else if str_eq(kind, "edit") {
        match summary_in_payload(&op.payload) {
            Some(summary) => Some(Change::Edit { summary, due: due_in_payload(&op.payload) }),
            None => None,
        }
    } else {
        None
    }
}

/// Brings the change of one operation into a text of a task, where it waits for the task.
fn bring_one(
    ical: String,
    status: &Option<String>,
    op: &PendingOp,
    cal: &str,
    uid: &str,
    now: &str,
) -> (r: String)
    ensures
        r@ == match change_of(op@) {
            Some(c) => if waits_on(cal@, uid@)(op@) {
                with_change(ical@, opt_text(*status), c, now@)
            } else {
                ical@
            },
            None => ical@,
        },
{
    if op.errored == 0 && str_eq(op.target_calendar_href.as_str(), cal) && str_eq(
        op.target_uid.as_str(),
        uid,
    ) {
        match read_change(op) {
            Some(c) => bring_change(ical.as_str(), status, &c, now),
            None => ical,
        }
    } else {
        ical
    }
}

/// Brings what waits for a task into a text of it.
fn bring_waiting(
    ical: &str,
    status: &Option<String>,
    ops: &Vec<PendingOp>,
    cal: &str,
    uid: &str,
    now: &str,
) -> (r: String)
    ensures
        r@ == with_waiting(
            ical@,
            opt_text(*status),
            op_views(ops@),
            cal@,
            uid@,
            now@,
            ops@.len(),
        ),
{
    let ghost views = op_views(ops@);
    let mut text = ical.to_owned();
    let mut i: usize = 0;
    while i < ops.len()
        invariant
            i <= ops@.len(),
            views == op_views(ops@),
            text@ == with_waiting(ical@, opt_text(*status), views, cal@, uid@, now@, i as nat),
        decreases ops@.len() - i,
    {
        assert(views[i as int] == ops@[i as int]@);
        text = bring_one(text, status, &ops[i], cal, uid, now);
        i += 1;
    }
    text
}

/// Brings what still waits for a task into the text of its rows.
fn catch_up(store: &mut Store, cal: &str, uid: &str, now: &str)
    requires
        old(store)@.wf(),
    ensures
        final(store)@.wf(),
        final(store)@ == (StoreV {
            tasks: rows_caught_up(old(store)@.tasks, old(store)@.ops, cal@, uid@, now@),
            ..old(store)@
        }),
{
    let ghost want = rows_caught_up(store@.tasks, store@.ops, cal@, uid@, now@);
    let mut i: usize = 0;
    while i < store.tasks.len()
        invariant
            i <= store.tasks@.len(),
            store.tasks@.len() == old(store).tasks@.len(),
            store.ops == old(store).ops,
            store.calendars == old(store).calendars,
            store.last_op_id == old(store).last_op_id,
            want == rows_caught_up(old(store)@.tasks, old(store)@.ops, cal@, uid@, now@),
            forall|j: int| 0 <= j < i ==> (#[trigger] store.tasks@[j])@ == want[j],
            forall|j: int| i <= j < store.tasks@.len() ==> store.tasks@[j] == old(store).tasks@[j],
        decreases store.tasks@.len() - i,
    {
        assert(old(store)@.tasks[i as int] == store.tasks@[i as int]@);
        if store.tasks[i].is_uid(cal, uid) {
            let text = bring_waiting(
                store.tasks[i].ical_text.as_str(),
                &store.tasks[i].status,
                &store.ops,
                cal,
                uid,
                now,
            );
            store.tasks[i].ical_text = text;
        }
        i += 1;
    }
    assert(store@.tasks =~= want);
    proof {
        assert forall|a: int, b: int| 0 <= a < b < want.len() implies !((
        #[trigger] want[a]).calendar_href == (#[trigger] want[b]).calendar_href && want[a].href
            == want[b].href) by {
            let x = old(store)@.tasks[a];
            let y = old(store)@.tasks[b];
            assert(want[a].href == x.href && want[b].href == y.href);
        }
    }
}

// --- One pass over the queue ---

/// What has been settled in a pass and what still waits, together.
pub open spec fn workload(sum: FlushSummaryV, ops: Seq<PendingOpV>) -> int {
    sum.flushed + sum.newly_errored + sum.cascade_errored + count(ops, drainable())
}

/// The operation with the id of `ops[k]` is `ops[k]` alone.
proof fn lemma_one_with_id(s: StoreV, k: int)
    requires
        s.wf(),
        0 <= k < s.ops.len(),
    ensures
        count(s.ops, op_with_id(s.ops[k].id)) == 1,
        forall|i: int| 0 <= i < s.ops.len() && (#[trigger] s.ops[i]).id == s.ops[k].id ==> i == k,
{
    let id = s.ops[k].id;
    assert forall|i: int| 0 <= i < s.ops.len() && i != k implies (#[trigger] s.ops[i]).id != id by {
        if i < k {
            assert(s.ops[i].id < s.ops[k].id);
        } else {
            assert(s.ops[k].id < s.ops[i].id);
        }
    }
    lemma_count_one(s.ops, op_with_id(id), k);
}

/// Giving up a waiting operation and what waits behind it: as many are counted as
/// stop waiting.
proof fn lemma_abandon_conserves(
    s: StoreV,
    op: PendingOpV,
    k: int,
    marked: Seq<PendingOpV>,
    sum: FlushSummaryV,
)
    requires
        s.wf(),
        0 <= k < s.ops.len(),
        s.ops[k] == op,
        op.errored == 0,
        marked.len() == s.ops.len(),
        marked[k].errored == 1,
        forall|i: int| 0 <= i < marked.len() && i != k ==> #[trigger] marked[i] == s.ops[i],
    ensures
        workload(abandoned(s, op, marked, sum).1, abandoned(s, op, marked, sum).0.ops) == workload(
            sum,
            s.ops,
        ),
{
    lemma_one_with_id(s, k);
    lemma_count_split(s.ops, drainable(), marked, drainable(), s.ops, op_with_id(op.id));
    let after = uid_errored(marked, op.target_uid, blocked_by(op.op_type));
    lemma_count_split(
        marked,
        drainable(),
        after,
        drainable(),
        marked,
        drainable_on(op.target_uid),
    );
}

/// Each operation of a pass is settled once: what it adds to the counters is what
/// stops waiting.
pub proof fn lemma_outcome_conserves(
    s: StoreV,
    op: PendingOpV,
    o: ExecOutcomeV,
    sum: FlushSummaryV,
)
    requires
        s.wf(),
        waits(s, op),
    ensures
        outcome_applied(s, op, o, sum) matches Ok(done) ==> workload(done.1, done.0.ops)
            == workload(sum, s.ops),
{
    let k = choose|k: int| 0 <= k < s.ops.len() && s.ops[k] == op;
    lemma_one_with_id(s, k);
    let gone = s.ops.filter(op_other_than(op.id));
    assert(count(gone, drainable()) + 1 == count(s.ops, drainable())) by {
        let both = |x: PendingOpV| op_other_than(op.id)(x) && drainable()(x);
        lemma_count_filter(s.ops, op_other_than(op.id), drainable(), both);
        lemma_count_split(s.ops, drainable(), s.ops, both, s.ops, op_with_id(op.id));
    }
    match o {
        ExecOutcomeV::SuccessCreate { task_url, etag, ical_text } => {
            let m = op_errored(s.ops, op.id, "cache row vanished mid-flush (create)"@);
            lemma_abandon_conserves(s, op, k, m, sum);
        },
        ExecOutcomeV::SuccessUpdate { new_etag, new_ical, retried } => {
            let m = op_errored(s.ops, op.id, "cache row vanished mid-flush"@);
            lemma_abandon_conserves(s, op, k, m, sum);
        },
        ExecOutcomeV::SuccessDelete { retried } => {},
        ExecOutcomeV::Transient(msg) => {
            let struck = op_struck(s.ops, op.id, msg);
            let none = |x: PendingOpV| false;
            lemma_filter_empty(s.ops, none);
            lemma_count_split(s.ops, drainable(), struck, drainable(), s.ops, none);
            lemma_strike_abandons(s, op, k, msg, sum);
        },
        ExecOutcomeV::Terminal(msg) => {
            let m = op_errored(s.ops, op.id, msg);
            lemma_abandon_conserves(s, op, k, m, sum);
        },
    }
}

/// Giving up an operation that may be gone: one more is counted than stops waiting, at
/// most.
proof fn lemma_abandon_adds_one(
    s: StoreV,
    op: PendingOpV,
    marked: Seq<PendingOpV>,
    sum: FlushSummaryV,
)
    requires
        marked.len() == s.ops.len(),
        forall|i: int|
            0 <= i < marked.len() ==> (#[trigger] marked[i]).errored == 0 ==> s.ops[i].errored == 0,
    ensures
        workload(abandoned(s, op, marked, sum).1, abandoned(s, op, marked, sum).0.ops) <= workload(
            sum,
            s.ops,
        ) + 1,
{
    let dropped = Seq::new(
        marked.len(),
        |i: int| s.ops[i].errored == 0 && marked[i].errored != 0,
    );
    lemma_count_split(
        s.ops,
        drainable(),
        marked,
        drainable(),
        dropped,
        |b: bool| b,
    );
    let after = uid_errored(marked, op.target_uid, blocked_by(op.op_type));
    lemma_count_split(
        marked,
        drainable(),
        after,
        drainable(),
        marked,
        drainable_on(op.target_uid),
    );
}

/// Whatever became of the queue meanwhile, an operation adds one at most to what is settled
/// and what waits.
proof fn lemma_outcome_adds_one(s: StoreV, op: PendingOpV, o: ExecOutcomeV, sum: FlushSummaryV)
    ensures
        outcome_applied(s, op, o, sum) matches Ok(done) ==> workload(done.1, done.0.ops)
            <= workload(sum, s.ops) + 1,
{
    let both = |x: PendingOpV| op_other_than(op.id)(x) && drainable()(x);
    let same = |x: PendingOpV| !op_other_than(op.id)(x) && drainable()(x);
    lemma_count_filter(s.ops, op_other_than(op.id), drainable(), both);
    lemma_count_split(s.ops, drainable(), s.ops, both, s.ops, same);
    match o {
        ExecOutcomeV::SuccessCreate { task_url, etag, ical_text } => {
            let m = op_errored(s.ops, op.id, "cache row vanished mid-flush (create)"@);
            lemma_abandon_adds_one(s, op, m, sum);
        },
        ExecOutcomeV::SuccessUpdate { new_etag, new_ical, retried } => {
            let m = op_errored(s.ops, op.id, "cache row vanished mid-flush"@);
            lemma_abandon_adds_one(s, op, m, sum);
        },
        ExecOutcomeV::SuccessDelete { retried } => {},
        ExecOutcomeV::Transient(msg) => {
            let struck = op_struck(s.ops, op.id, msg);
            let none = |x: PendingOpV| false;
            lemma_filter_empty(s.ops, none);
            lemma_count_split(s.ops, drainable(), struck, drainable(), s.ops, none);
            let m = op_flagged(struck, op.id);
            lemma_abandon_adds_one(s, op, m, sum);
        },
        ExecOutcomeV::Terminal(msg) => {
            let m = op_errored(s.ops, op.id, msg);
            lemma_abandon_adds_one(s, op, m, sum);
        },
    }
}

/// The last strike, in the same terms.
proof fn lemma_strike_abandons(
    s: StoreV,
    op: PendingOpV,
    k: int,
    msg: Seq<char>,
    sum: FlushSummaryV,
)
    requires
        s.wf(),
        0 <= k < s.ops.len(),
        s.ops[k] == op,
        op.errored == 0,
    ensures
        ({
            let m = op_flagged(op_struck(s.ops, op.id, msg), op.id);
            workload(abandoned(s, op, m, sum).1, abandoned(s, op, m, sum).0.ops) == workload(
                sum,
                s.ops,
            )
        }),
{
    let m = op_flagged(op_struck(s.ops, op.id, msg), op.id);
    lemma_one_with_id(s, k);
    assert forall|i: int| 0 <= i < m.len() && i != k implies #[trigger] m[i] == s.ops[i] by {
        assert(s.ops[i].id != op.id);
    }
    lemma_abandon_conserves(s, op, k, m, sum);
}

/// The next thing to do in a pass.
#[derive(Debug)]
pub enum FlushAction {
    /// Send this request for the operation in hand.
    Send(Request),
    /// The operation is settled: go on with no replies.
    Continue,
    /// The pass is over.
    Finished,
}

pub enum FlushActionV {
    Send(RequestV),
    Continue,
    Finished,
}

impl View for FlushAction {
    type V = FlushActionV;

    open spec fn view(&self) -> FlushActionV {
        match self {
            FlushAction::Send(r) => FlushActionV::Send(r@),
            FlushAction::Continue => FlushActionV::Continue,
            FlushAction::Finished => FlushActionV::Finished,
        }
    }
}

/// An operation in hand: the operation, its task as it was in the cache, and the time
/// that stamps the texts it writes, all fixed when it was taken up.
#[derive(Debug)]
pub struct Hand {
    pub op: PendingOp,
    pub row: Option<TaskRow>,
    pub stamp: String,
}

#[verifier::ext_equal]
pub struct HandV {
    pub op: PendingOpV,
    pub row: Option<TaskRowV>,
    pub stamp: Seq<char>,
}

impl View for Hand {
    type V = HandV;

    open spec fn view(&self) -> HandV {
        HandV { op: self.op@, row: opt_row(self.row), stamp: self.stamp@ }
    }
}

/// The operation waits in the queue, as it was when it was taken up.
pub open spec fn waits(s: StoreV, op: PendingOpV) -> bool {
    s.ops.contains(op) && op.errored == 0
}

/// The operation to take up next.
pub open spec fn next_hand(s: StoreV, now: Seq<char>) -> Option<HandV> {
    match first(s.ops, drainable()) {
        None => None,
        Some(op) => Some(HandV { op, row: row_of(s, op), stamp: now }),
    }
}

/// What the operation in hand asks for next, or what became of it. It does not look at
/// the tables.
pub open spec fn asked_of(h: HandV, calendar_url: Seq<char>, replies: Seq<ReplyV>) -> StepV<
    ExecOutcomeV,
> {
    dispatched_on(h.row, calendar_url, h.op, replies, h.stamp)
}

/// The tables, the counters and the next action of a pass, given the replies that
/// the operation in hand has had. What became of it goes by its id, whatever happened to
/// the queue meanwhile. What the user changed meanwhile stays in the text of the task.
pub open spec fn hand_next(
    s: StoreV,
    calendar_url: Seq<char>,
    h: HandV,
    sum: FlushSummaryV,
    replies: Seq<ReplyV>,
) -> Result<(StoreV, FlushSummaryV, FlushActionV), FailureV> {
    match asked_of(h, calendar_url, replies) {
        StepV::Send(r) => Ok((s, sum, FlushActionV::Send(r))),
        StepV::Done(o) => match outcome_applied(s, h.op, o, sum) {
            Err(e) => Err(e),
            Ok(done) => Ok(
                (
                    caught_up(done.0, h.op, o, h.stamp),
                    done.1,
                    if done.2 {
                        FlushActionV::Continue
                    } else {
                        FlushActionV::Finished
                    },
                ),
            ),
        },
    }
}

/// The same where nothing else changes the tables during the pass: the operation in
/// hand is the lowest-numbered one that waits.
pub open spec fn flush_next(
    s: StoreV,
    calendar_url: Seq<char>,
    sum: FlushSummaryV,
    replies: Seq<ReplyV>,
    now: Seq<char>,
) -> Result<(StoreV, FlushSummaryV, FlushActionV), FailureV> {
    match next_hand(s, now) {
        None => Ok((s, sum, FlushActionV::Finished)),
        Some(h) => hand_next(s, calendar_url, h, sum, replies),
    }
}

/// The counters can hold all that may still be settled, and no failure has ended
/// the pass.
pub open spec fn counters_fit(sum: FlushSummaryV, ops: Seq<PendingOpV>) -> bool {
    &&& workload(sum, ops) <= usize::MAX
    &&& 0 <= sum.retried <= sum.flushed
    &&& 0 <= sum.newly_errored
    &&& 0 <= sum.cascade_errored
    &&& sum.transient_failed == 0
}

/// The counters can hold what the operation in hand adds besides. One that still waits
/// stops waiting when it is counted; one that does not is counted on top.
pub open spec fn hand_fits(s: StoreV, h: HandV, sum: FlushSummaryV) -> bool {
    counters_fit(sum, s.ops) && (waits(s, h.op) || workload(sum, s.ops) < usize::MAX)
}

/// The counters at the start of a pass.
pub fn flush_start(store: &Store) -> (sum: FlushSummary)
    ensures
        sum@ == no_activity(),
        counters_fit(sum@, store@.ops),
{
    // What waits is no more than what the vector holds.
    let _queued: usize = store.ops.len();
    proof {
        crate::seqs::lemma_filter_len(store@.ops, drainable());
    }
    FlushSummary::default()
}

/// Takes up the lowest-numbered waiting operation.
pub fn take_hand(store: &Store, now: &str) -> (r: Option<Hand>)
    ensures
        match next_hand(store@, now@) {
            None => r is None,
            Some(h) => r is Some && r->Some_0@ == h,
        },
{
    match fetch_next_drainable(store) {
        None => None,
        Some(op) => {
            let row = fetch_row_of(store, &op);
            Some(Hand { op, row, stamp: now.to_owned() })
        },
    }
}

/// Does the operation wait in the queue, as it was when it was taken up?
pub(crate) fn still_waits(store: &Store, op: &PendingOp) -> (b: bool)
    ensures
        b == waits(store@, op@),
{
    if op.errored != 0 {
        return false;
    }
    let mut i: usize = 0;
    while i < store.ops.len()
        invariant
            i <= store.ops@.len(),
            op@.errored == 0,
            forall|j: int| 0 <= j < i ==> #[trigger] store@.ops[j] != op@,
        decreases store.ops@.len() - i,
    {
        assert(store@.ops[i as int] == store.ops@[i as int]@);
        if store.ops[i].same_as(op) {
            assert(store@.ops.contains(op@));
            return true;
        }
        i += 1;
    }
    false
}

/// One step of the operation in hand: it asks for its next request, or is settled.
pub fn hand_step(
    store: &mut Store,
    calendar_url: &str,
    hand: &Hand,
    summary: &mut FlushSummary,
    replies: &Vec<Reply>,
) -> (r: Result<FlushAction, Failure>)
    requires
        old(store)@.wf(),
        hand_fits(old(store)@, hand@, old(summary)@),
    ensures
        final(store)@.wf(),
        r is Ok && !(r->Ok_0 is Finished) ==> counters_fit(final(summary)@, final(store)@.ops),
        final(summary).newly_errored + final(summary).cascade_errored <= usize::MAX,
        match hand_next(
            old(store)@,
            calendar_url@,
            hand@,
            old(summary)@,
            reply_views(replies@),
        ) {
            Ok((s, sum, action)) => {
                &&& r is Ok
                &&& r->Ok_0@ == action
                &&& final(store)@ == s
                &&& final(summary)@ == sum
            },
            Err(e) => {
                &&& r is Err
                &&& r->Err_0@ == e
                &&& final(store)@ == old(store)@
                &&& final(summary)@ == old(summary)@
            },
        },
{
    match dispatch_op_on(&hand.row, calendar_url, &hand.op, replies, hand.stamp.as_str()) {
        Step::Send(r) => Ok(FlushAction::Send(r)),
        Step::Done(outcome) => {
            proof {
                if waits(store@, hand.op@) {
                    lemma_waits_count(store@.ops, hand.op@);
                    lemma_outcome_conserves(store@, hand.op@, outcome@, summary@);
                } else {
                    lemma_outcome_adds_one(store@, hand.op@, outcome@, summary@);
                }
            }
            let wrote = match &outcome {
                ExecOutcome::SuccessCreate { .. } => true,
                ExecOutcome::SuccessUpdate { .. } => true,
                _ => false,
            };
            match apply_outcome(store, &hand.op, outcome, summary) {
                Err(e) => Err(e),
                Ok(cont) => {
                    if wrote {
                        catch_up(
                            store,
                            hand.op.target_calendar_href.as_str(),
                            hand.op.target_uid.as_str(),
                            hand.stamp.as_str(),
                        );
                    }
                    if cont {
                        Ok(FlushAction::Continue)
                    } else {
                        Ok(FlushAction::Finished)
                    }
                },
            }
        },
    }
}

/// Where an operation waits, something waits.
proof fn lemma_waits_count(ops: Seq<PendingOpV>, op: PendingOpV)
    requires
        ops.contains(op),
        op.errored == 0,
    ensures
        count(ops, drainable()) > 0,
{
    lemma_filter_empty(ops, drainable());
    let k = choose|k: int| 0 <= k < ops.len() && ops[k] == op;
    assert(drainable()(ops[k]));
}

/// One step of a pass over tables that nothing else changes: the lowest-numbered waiting
/// operation asks for its next request, or is settled. `now` stays the same over the
/// steps of one operation, so that the text it keeps is the text it sent.
pub fn flush_step(
    store: &mut Store,
    calendar_url: &str,
    summary: &mut FlushSummary,
    replies: &Vec<Reply>,
    now: &str,
) -> (r: Result<FlushAction, Failure>)
    requires
        old(store)@.wf(),
        counters_fit(old(summary)@, old(store)@.ops),
    ensures
        final(store)@.wf(),
        r is Ok && !(r->Ok_0 is Finished) ==> counters_fit(final(summary)@, final(store)@.ops),
        final(summary).newly_errored + final(summary).cascade_errored <= usize::MAX,
        match flush_next(
            old(store)@,
            calendar_url@,
            old(summary)@,
            reply_views(replies@),
            now@,
        ) {
            Ok((s, sum, action)) => {
                &&& r is Ok
                &&& r->Ok_0@ == action
                &&& final(store)@ == s
                &&& final(summary)@ == sum
            },
            Err(e) => {
                &&& r is Err
                &&& r->Err_0@ == e
                &&& final(store)@ == old(store)@
                &&& final(summary)@ == old(summary)@
            },
        },
{
    proof {
        lemma_find(store@.ops, drainable(), 0);
        assert(first(store@.ops, drainable()) matches Some(op) ==> store@.ops.contains(op));
    }
    match take_hand(store, now) {
        None => Ok(FlushAction::Finished),
        Some(hand) => hand_step(store, calendar_url, &hand, summary, replies),
    }
}

} // verus!
