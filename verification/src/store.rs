//! The tables behind the task list: cached tasks, queued operations and
//! calendars, with their keys.
use vstd::prelude::*;
use crate::seqs::{find, lemma_find_is};
use crate::text::{borrow_opt, opt_eq, opt_text, str_eq};

verus! {

/// Where in a notebook a to-do was captured.
#[derive(Debug)]
pub struct Anchor {
    pub doc_uuid: String,
    pub page_key: String,
    pub label: String,
}

#[verifier::ext_equal]
pub struct AnchorV {
    pub doc_uuid: Seq<char>,
    pub page_key: Seq<char>,
    pub label: Seq<char>,
}

impl View for Anchor {
    type V = AnchorV;

    open spec fn view(&self) -> AnchorV {
        AnchorV { doc_uuid: self.doc_uuid@, page_key: self.page_key@, label: self.label@ }
    }
}

pub open spec fn opt_anchor(a: Option<Anchor>) -> Option<AnchorV> {
    match a {
        Some(x) => Some(x@),
        None => None,
    }
}

/// A cached task. `href` is its resource, or a `pending:` placeholder until the
/// server has it; `pending_delete` hides it until the server has deleted it.
#[derive(Debug)]
pub struct TaskRow {
    pub calendar_href: String,
    pub href: String,
    pub etag: String,
    pub ical_text: String,
    pub summary: String,
    pub status: Option<String>,
    pub due: Option<String>,
    pub uid: String,
    pub pending_delete: bool,
    pub anchor: Option<Anchor>,
}

#[verifier::ext_equal]
pub struct TaskRowV {
    pub calendar_href: Seq<char>,
    pub href: Seq<char>,
    pub etag: Seq<char>,
    pub ical_text: Seq<char>,
    pub summary: Seq<char>,
    pub status: Option<Seq<char>>,
    pub due: Option<Seq<char>>,
    pub uid: Seq<char>,
    pub pending_delete: bool,
    pub anchor: Option<AnchorV>,
}

impl View for TaskRow {
    type V = TaskRowV;

    open spec fn view(&self) -> TaskRowV {
        TaskRowV {
            calendar_href: self.calendar_href@,
            href: self.href@,
            etag: self.etag@,
            ical_text: self.ical_text@,
            summary: self.summary@,
            status: opt_text(self.status),
            due: opt_text(self.due),
            uid: self.uid@,
            pending_delete: self.pending_delete,
            anchor: opt_anchor(self.anchor),
        }
    }
}

/// A write that waits for the server. `errored` is 1 once it has been given up.
#[derive(Debug, Clone)]
pub struct PendingOp {
    pub id: i64,
    pub op_type: String,
    pub target_uid: String,
    pub target_calendar_href: String,
    pub payload: Option<String>,
    pub enqueued_at: i64,
    pub error_count: i64,
    pub last_error: Option<String>,
    pub errored: i64,
}

#[verifier::ext_equal]
pub struct PendingOpV {
    pub id: int,
    pub op_type: Seq<char>,
    pub target_uid: Seq<char>,
    pub target_calendar_href: Seq<char>,
    pub payload: Option<Seq<char>>,
    pub enqueued_at: int,
    pub error_count: int,
    pub last_error: Option<Seq<char>>,
    pub errored: int,
}

impl View for PendingOp {
    type V = PendingOpV;

    open spec fn view(&self) -> PendingOpV {
        PendingOpV {
            id: self.id as int,
            op_type: self.op_type@,
            target_uid: self.target_uid@,
            target_calendar_href: self.target_calendar_href@,
            payload: opt_text(self.payload),
            enqueued_at: self.enqueued_at as int,
            error_count: self.error_count as int,
            last_error: opt_text(self.last_error),
            errored: self.errored as int,
        }
    }
}

/// A known task list.
#[derive(Debug)]
pub struct CalendarRow {
    pub href: String,
    pub display_name: String,
    pub sync_token: Option<String>,
    pub last_synced_at: Option<i64>,
}

#[verifier::ext_equal]
pub struct CalendarRowV {
    pub href: Seq<char>,
    pub display_name: Seq<char>,
    pub sync_token: Option<Seq<char>>,
    pub last_synced_at: Option<i64>,
}

impl View for CalendarRow {
    type V = CalendarRowV;

    open spec fn view(&self) -> CalendarRowV {
        CalendarRowV {
            href: self.href@,
            display_name: self.display_name@,
            sync_token: opt_text(self.sync_token),
            last_synced_at: self.last_synced_at,
        }
    }
}

/// All that the program remembers between two messages. `last_op_id` is the
/// highest operation id ever given out.
#[derive(Debug)]
pub struct Store {
    pub tasks: Vec<TaskRow>,
    pub ops: Vec<PendingOp>,
    pub calendars: Vec<CalendarRow>,
    pub last_op_id: i64,
}

#[verifier::ext_equal]
pub struct StoreV {
    pub tasks: Seq<TaskRowV>,
    pub ops: Seq<PendingOpV>,
    pub calendars: Seq<CalendarRowV>,
    pub last_op_id: int,
}

pub open spec fn task_row_views(v: Seq<TaskRow>) -> Seq<TaskRowV> {
    v.map_values(|r: TaskRow| r@)
}

pub open spec fn op_views(v: Seq<PendingOp>) -> Seq<PendingOpV> {
    v.map_values(|r: PendingOp| r@)
}

pub open spec fn calendar_views(v: Seq<CalendarRow>) -> Seq<CalendarRowV> {
    v.map_values(|r: CalendarRow| r@)
}

impl View for Store {
    type V = StoreV;

    open spec fn view(&self) -> StoreV {
        StoreV {
            tasks: task_row_views(self.tasks@),
            ops: op_views(self.ops@),
            calendars: calendar_views(self.calendars@),
            last_op_id: self.last_op_id as int,
        }
    }
}

/// The row `href` of the calendar `cal`.
pub open spec fn keyed(cal: Seq<char>, href: Seq<char>) -> spec_fn(TaskRowV) -> bool {
    |r: TaskRowV| r.calendar_href == cal && r.href == href
}

/// A row of the calendar `cal` with the identifier `uid`.
pub open spec fn of_uid(cal: Seq<char>, uid: Seq<char>) -> spec_fn(TaskRowV) -> bool {
    |r: TaskRowV| r.calendar_href == cal && r.uid == uid
}

/// A visible row of the calendar `cal` with the identifier `uid`.
pub open spec fn live_of_uid(cal: Seq<char>, uid: Seq<char>) -> spec_fn(TaskRowV) -> bool {
    |r: TaskRowV| r.calendar_href == cal && r.uid == uid && !r.pending_delete
}

pub open spec fn op_with_id(id: int) -> spec_fn(PendingOpV) -> bool {
    |o: PendingOpV| o.id == id
}

pub open spec fn calendar_with_href(href: Seq<char>) -> spec_fn(CalendarRowV) -> bool {
    |c: CalendarRowV| c.href == href
}

/// No two rows share calendar and href.
pub open spec fn task_keys_unique(tasks: Seq<TaskRowV>) -> bool {
    forall|i: int, j: int|
        0 <= i < j < tasks.len() ==> !((#[trigger] tasks[i]).calendar_href == (
        #[trigger] tasks[j]).calendar_href && tasks[i].href == tasks[j].href)
}

/// Operations stand in the order of their ids, which are positive and never
/// reused.
pub open spec fn op_ids_ascend(ops: Seq<PendingOpV>, last: int) -> bool {
    &&& forall|i: int, j: int|
        0 <= i < j < ops.len() ==> (#[trigger] ops[i]).id < (#[trigger] ops[j]).id
    &&& forall|i: int| 0 <= i < ops.len() ==> 0 < (#[trigger] ops[i]).id <= last
}

/// `errored` is a flag.
pub open spec fn errored_flags(ops: Seq<PendingOpV>) -> bool {
    forall|i: int| 0 <= i < ops.len() ==> ((#[trigger] ops[i]).errored == 0 || ops[i].errored == 1)
}

pub open spec fn calendar_keys_unique(cals: Seq<CalendarRowV>) -> bool {
    forall|i: int, j: int|
        0 <= i < j < cals.len() ==> (#[trigger] cals[i]).href != (#[trigger] cals[j]).href
}

impl StoreV {
    /// The keys of the tables hold.
    pub open spec fn wf(self) -> bool {
        &&& task_keys_unique(self.tasks)
        &&& op_ids_ascend(self.ops, self.last_op_id)
        &&& errored_flags(self.ops)
        &&& calendar_keys_unique(self.calendars)
        &&& 0 <= self.last_op_id <= i64::MAX
    }
}

pub fn copy_opt(o: &Option<String>) -> (r: Option<String>)
    ensures
        opt_text(r) == opt_text(*o),
{
    match o {
        Some(s) => Some(s.clone()),
        None => None,
    }
}

pub fn own_opt(o: Option<&str>) -> (r: Option<String>)
    ensures
        opt_text(r) == crate::text::opt_str(o),
{
    match o {
        Some(s) => Some(s.to_owned()),
        None => None,
    }
}

impl Anchor {
    pub fn copy(&self) -> (a: Anchor)
        ensures
            a@ == self@,
    {
        Anchor {
            doc_uuid: self.doc_uuid.clone(),
            page_key: self.page_key.clone(),
            label: self.label.clone(),
        }
    }
}

impl PendingOp {
    pub fn copy(&self) -> (o: PendingOp)
        ensures
            o@ == self@,
    {
        PendingOp {
            id: self.id,
            op_type: self.op_type.clone(),
            target_uid: self.target_uid.clone(),
            target_calendar_href: self.target_calendar_href.clone(),
            payload: copy_opt(&self.payload),
            enqueued_at: self.enqueued_at,
            error_count: self.error_count,
            last_error: copy_opt(&self.last_error),
            errored: self.errored,
        }
    }
}

fn rows_are_distinct(v: &Vec<TaskRow>) -> (r: bool)
    ensures
        r == task_keys_unique(task_row_views(v@)),
{
    let ghost rows = task_row_views(v@);
    let mut j: usize = 0;
    while j < v.len()
        invariant
            j <= v@.len(),
            rows == task_row_views(v@),
            forall|a: int, b: int|
                0 <= a < b < j ==> !((#[trigger] rows[a]).calendar_href == (
                #[trigger] rows[b]).calendar_href && rows[a].href == rows[b].href),
        decreases v@.len() - j,
    {
        let mut i: usize = 0;
        while i < j
            invariant
                i <= j < v@.len(),
                rows == task_row_views(v@),
                forall|a: int|
                    0 <= a < i ==> !((#[trigger] rows[a]).calendar_href == rows[j as int].calendar_href
                        && rows[a].href == rows[j as int].href),
            decreases j - i,
        {
            assert(rows[i as int] == v@[i as int]@ && rows[j as int] == v@[j as int]@);
            if v[i].is_keyed(v[j].calendar_href.as_str(), v[j].href.as_str()) {
                return false;
            }
            i += 1;
        }
        j += 1;
    }
    true
}

fn calendars_are_distinct(v: &Vec<CalendarRow>) -> (r: bool)
    ensures
        r == calendar_keys_unique(calendar_views(v@)),
{
    let ghost rows = calendar_views(v@);
    let mut j: usize = 0;
    while j < v.len()
        invariant
            j <= v@.len(),
            rows == calendar_views(v@),
            forall|a: int, b: int|
                0 <= a < b < j ==> (#[trigger] rows[a]).href != (#[trigger] rows[b]).href,
        decreases v@.len() - j,
    {
        let mut i: usize = 0;
        while i < j
            invariant
                i <= j < v@.len(),
                rows == calendar_views(v@),
                forall|a: int| 0 <= a < i ==> (#[trigger] rows[a]).href != rows[j as int].href,
            decreases j - i,
        {
            assert(rows[i as int] == v@[i as int]@ && rows[j as int] == v@[j as int]@);
            if v[i].has_href(v[j].href.as_str()) {
                return false;
            }
            i += 1;
        }
        j += 1;
    }
    true
}

fn ops_are_sound(v: &Vec<PendingOp>, last: i64) -> (r: bool)
    ensures
        r == (op_ids_ascend(op_views(v@), last as int) && errored_flags(op_views(v@))),
{
    let ghost rows = op_views(v@);
    let mut i: usize = 0;
    while i < v.len()
        invariant
            i <= v@.len(),
            rows == op_views(v@),
            forall|a: int, b: int|
                0 <= a < b < i ==> (#[trigger] rows[a]).id < (#[trigger] rows[b]).id,
            forall|a: int|
                0 <= a < i ==> 0 < (#[trigger] rows[a]).id <= last && (rows[a].errored == 0
                    || rows[a].errored == 1),
        decreases v@.len() - i,
    {
        assert(rows[i as int] == v@[i as int]@);
        let o = &v[i];
        if o.id <= 0 || o.id > last || !(o.errored == 0 || o.errored == 1) {
            return false;
        }
        if i > 0 {
            assert(rows[i - 1] == v@[i - 1]@);
            if v[i - 1].id >= o.id {
                return false;
            }
        }
        i += 1;
    }
    true
}

impl Store {
    /// Empty tables.
    pub fn new() -> (s: Store)
        ensures
            s@.wf(),
            s@ == (StoreV {
                tasks: Seq::empty(),
                ops: Seq::empty(),
                calendars: Seq::empty(),
                last_op_id: 0,
            }),
    {
        let s = Store {
            tasks: Vec::new(),
            ops: Vec::new(),
            calendars: Vec::new(),
            last_op_id: 0,
        };
        assert(s@.tasks =~= Seq::empty());
        assert(s@.ops =~= Seq::empty());
        assert(s@.calendars =~= Seq::empty());
        s
    }

    /// Tests tables that were read from elsewhere.
    pub fn is_sound(&self) -> (r: bool)
        ensures
            r == self@.wf(),
    {
        rows_are_distinct(&self.tasks) && ops_are_sound(&self.ops, self.last_op_id)
            && calendars_are_distinct(&self.calendars) && self.last_op_id >= 0
    }

    /// The position of the row `href` of the calendar `cal`, or the number of rows.
    pub fn find_keyed(&self, cal: &str, href: &str) -> (k: usize)
        ensures
            k == find(self@.tasks, keyed(cal@, href@), 0),
            k <= self.tasks@.len(),
    {
        let mut k: usize = 0;
        while k < self.tasks.len() && !self.tasks[k].is_keyed(cal, href)
            invariant
                k <= self.tasks@.len(),
                forall|i: int| 0 <= i < k ==> !keyed(cal@, href@)(#[trigger] self@.tasks[i]),
            decreases self.tasks@.len() - k,
        {
            assert(self@.tasks[k as int] == self.tasks@[k as int]@);
            k += 1;
        }
        proof {
            if k < self.tasks@.len() {
                assert(self@.tasks[k as int] == self.tasks@[k as int]@);
            }
            lemma_find_is(self@.tasks, keyed(cal@, href@), k as nat);
        }
        k
    }

    /// The position of the first row of `cal` for `uid`, or the number of rows.
    pub fn find_uid(&self, cal: &str, uid: &str) -> (k: usize)
        ensures
            k == find(self@.tasks, of_uid(cal@, uid@), 0),
            k <= self.tasks@.len(),
    {
        let mut k: usize = 0;
        while k < self.tasks.len() && !self.tasks[k].is_uid(cal, uid)
            invariant
                k <= self.tasks@.len(),
                forall|i: int| 0 <= i < k ==> !of_uid(cal@, uid@)(#[trigger] self@.tasks[i]),
            decreases self.tasks@.len() - k,
        {
            assert(self@.tasks[k as int] == self.tasks@[k as int]@);
            k += 1;
        }
        proof {
            if k < self.tasks@.len() {
                assert(self@.tasks[k as int] == self.tasks@[k as int]@);
            }
            lemma_find_is(self@.tasks, of_uid(cal@, uid@), k as nat);
        }
        k
    }

    /// The position of the first visible row of `cal` for `uid`, or the number of rows.
    pub fn find_live(&self, cal: &str, uid: &str) -> (k: usize)
        ensures
            k == find(self@.tasks, live_of_uid(cal@, uid@), 0),
            k <= self.tasks@.len(),
    {
        let mut k: usize = 0;
        while k < self.tasks.len() && !self.tasks[k].is_live(cal, uid)
            invariant
                k <= self.tasks@.len(),
                forall|i: int| 0 <= i < k ==> !live_of_uid(cal@, uid@)(#[trigger] self@.tasks[i]),
            decreases self.tasks@.len() - k,
        {
            assert(self@.tasks[k as int] == self.tasks@[k as int]@);
            k += 1;
        }
        proof {
            if k < self.tasks@.len() {
                assert(self@.tasks[k as int] == self.tasks@[k as int]@);
            }
            lemma_find_is(self@.tasks, live_of_uid(cal@, uid@), k as nat);
        }
        k
    }

    /// The position of the operation `id`, or the number of operations.
    pub fn find_op(&self, id: i64) -> (k: usize)
        ensures
            k == find(self@.ops, op_with_id(id as int), 0),
            k <= self.ops@.len(),
    {
        let mut k: usize = 0;
        while k < self.ops.len() && !self.ops[k].has_id(id)
            invariant
                k <= self.ops@.len(),
                forall|i: int| 0 <= i < k ==> !op_with_id(id as int)(#[trigger] self@.ops[i]),
            decreases self.ops@.len() - k,
        {
            assert(self@.ops[k as int] == self.ops@[k as int]@);
            k += 1;
        }
        proof {
            if k < self.ops@.len() {
                assert(self@.ops[k as int] == self.ops@[k as int]@);
            }
            lemma_find_is(self@.ops, op_with_id(id as int), k as nat);
        }
        k
    }

    /// The position of the calendar `href`, or the number of calendars.
    pub fn find_calendar(&self, href: &str) -> (k: usize)
        ensures
            k == find(self@.calendars, calendar_with_href(href@), 0),
            k <= self.calendars@.len(),
    {
        let mut k: usize = 0;
        while k < self.calendars.len() && !self.calendars[k].has_href(href)
            invariant
                k <= self.calendars@.len(),
                forall|i: int| 0 <= i < k ==> !calendar_with_href(href@)(#[trigger] self@.calendars[i]),
            decreases self.calendars@.len() - k,
        {
            assert(self@.calendars[k as int] == self.calendars@[k as int]@);
            k += 1;
        }
        proof {
            if k < self.calendars@.len() {
                assert(self@.calendars[k as int] == self.calendars@[k as int]@);
            }
            lemma_find_is(self@.calendars, calendar_with_href(href@), k as nat);
        }
        k
    }
}

impl TaskRow {
    pub fn copy(&self) -> (r: TaskRow)
        ensures
            r@ == self@,
    {
        TaskRow {
            calendar_href: self.calendar_href.clone(),
            href: self.href.clone(),
            etag: self.etag.clone(),
            ical_text: self.ical_text.clone(),
            summary: self.summary.clone(),
            status: copy_opt(&self.status),
            due: copy_opt(&self.due),
            uid: self.uid.clone(),
            pending_delete: self.pending_delete,
            anchor: match &self.anchor {
                Some(a) => Some(a.copy()),
                None => None,
            },
        }
    }

    pub fn is_keyed(&self, cal: &str, href: &str) -> (r: bool)
        ensures
            r == keyed(cal@, href@)(self@),
    {
        str_eq(self.calendar_href.as_str(), cal) && str_eq(self.href.as_str(), href)
    }

    pub fn is_uid(&self, cal: &str, uid: &str) -> (r: bool)
        ensures
            r == of_uid(cal@, uid@)(self@),
    {
        str_eq(self.calendar_href.as_str(), cal) && str_eq(self.uid.as_str(), uid)
    }

    pub fn is_live(&self, cal: &str, uid: &str) -> (r: bool)
        ensures
            r == live_of_uid(cal@, uid@)(self@),
    {
        !self.pending_delete && self.is_uid(cal, uid)
    }
}

/// The view of an optional row.
pub open spec fn opt_row(r: Option<TaskRow>) -> Option<TaskRowV> {
    match r {
        Some(x) => Some(x@),
        None => None,
    }
}

impl PendingOp {
    /// Are all fields the same?
    pub fn same_as(&self, other: &PendingOp) -> (r: bool)
        ensures
            r == (self@ == other@),
    {
        self.id == other.id && str_eq(self.op_type.as_str(), other.op_type.as_str()) && str_eq(
            self.target_uid.as_str(),
            other.target_uid.as_str(),
        ) && str_eq(
            self.target_calendar_href.as_str(),
            other.target_calendar_href.as_str(),
        ) && opt_eq(borrow_opt(&self.payload), borrow_opt(&other.payload)) && self.enqueued_at
            == other.enqueued_at && self.error_count == other.error_count && opt_eq(
            borrow_opt(&self.last_error),
            borrow_opt(&other.last_error),
        ) && self.errored == other.errored
    }

    pub fn has_id(&self, id: i64) -> (r: bool)
        ensures
            r == op_with_id(id as int)(self@),
    {
        self.id == id
    }
}

impl CalendarRow {
    pub fn has_href(&self, href: &str) -> (r: bool)
        ensures
            r == calendar_with_href(href@)(self@),
    {
        str_eq(self.href.as_str(), href)
    }
}

} // verus!
