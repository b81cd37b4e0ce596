//! The task list as text and as rows for the screen.
use vstd::prelude::*;
use crate::listing::rank_less;
use crate::marks::Marks;
use crate::seqs::{lemma_insert_at, lemma_ordered_push, ordered};
use crate::task::{task_views, Task, TaskStatus, TaskV};
use crate::text::{decimal, decimal_of, join, joined, opt_text, str_less, texts};

verus! {

/// Open tasks first, then dated ones, then the earlier date.
pub open spec fn task_order() -> spec_fn(TaskV, TaskV) -> bool {
    |a: TaskV, b: TaskV|
        rank_less(
            a.status == TaskStatus::Completed,
            a.due,
            b.status == TaskStatus::Completed,
            b.due,
        )
}

/// The box in front of a task.
pub open spec fn glyph(status: TaskStatus) -> Seq<char> {
    if status == TaskStatus::Completed {
        "✓"@
    } else {
        "☐"@
    }
}

/// A task without its mark.
pub open spec fn task_line(t: TaskV) -> Seq<char> {
    match t.due {
        Some(d) => glyph(t.status) + " "@ + t.summary + " (due "@ + d + ")"@,
        None => glyph(t.status) + " "@ + t.summary,
    }
}

/// The mark in front of a task: given up, waiting, or none.
pub open spec fn mark_prefix(uid: Seq<char>, marks: Map<Seq<char>, bool>) -> Seq<char> {
    if !marks.dom().contains(uid) {
        "  "@
    } else if marks[uid] {
        "! "@
    } else {
        "* "@
    }
}

/// A line of the list. Without any marks there is no column for them.
pub open spec fn marked_line(t: TaskV, marks: Map<Seq<char>, bool>) -> Seq<char> {
    if marks == Map::<Seq<char>, bool>::empty() {
        task_line(t)
    } else {
        mark_prefix(t.uid, marks) + task_line(t)
    }
}

/// The lines of the list.
pub open spec fn marked_lines(tasks: Seq<TaskV>, marks: Map<Seq<char>, bool>) -> Seq<Seq<char>> {
    tasks.map_values(|t: TaskV| marked_line(t, marks))
}

/// The list as text.
pub open spec fn marked_list(tasks: Seq<TaskV>, marks: Map<Seq<char>, bool>) -> Seq<char> {
    if tasks.len() == 0 {
        "(no tasks)"@
    } else {
        joined(marked_lines(ordered(tasks, task_order()), marks), "\n"@)
    }
}

fn task_comes_before(a: &Task, b: &Task) -> (r: bool)
    ensures
        r == task_order()(a@, b@),
{
    let ac = is_completed(a.status);
    let bc = is_completed(b.status);
    if ac != bc {
        bc
    } else {
        match &a.due {
            None => match &b.due {
                None => str_less("", ""),
                Some(_) => false,
            },
            Some(x) => match &b.due {
                None => true,
                Some(y) => str_less(x.as_str(), y.as_str()),
            },
        }
    }
}

/// Is this the completed status?
pub fn is_completed(status: TaskStatus) -> (r: bool)
    ensures
        r == (status == TaskStatus::Completed),
{
    match status {
        TaskStatus::Completed => true,
        _ => false,
    }
}

/// The tasks at the given positions.
pub open spec fn tasks_at(tasks: Seq<TaskV>, idx: Seq<usize>) -> Seq<TaskV> {
    idx.map_values(|k: usize| tasks[k as int])
}

/// The positions of the tasks in display order.
fn task_positions(tasks: &[Task]) -> (idx: Vec<usize>)
    ensures
        forall|i: int| 0 <= i < idx@.len() ==> (#[trigger] idx@[i]) < tasks@.len(),
        tasks_at(task_views(tasks@), idx@) == ordered(task_views(tasks@), task_order()),
{
    let ghost ts = task_views(tasks@);
    let mut idx: Vec<usize> = Vec::new();
    let mut i: usize = 0;
    proof {
        assert(ts.take(0) =~= Seq::empty());
        assert(tasks_at(ts, idx@) =~= Seq::empty());
    }
    while i < tasks.len()
        invariant
            i <= tasks@.len(),
            ts == task_views(tasks@),
            forall|j: int| 0 <= j < idx@.len() ==> (#[trigger] idx@[j]) < tasks@.len(),
            tasks_at(ts, idx@) == ordered(ts.take(i as int), task_order()),
        decreases tasks@.len() - i,
    {
        let mut p: usize = 0;
        while p < idx.len() && !task_comes_before(&tasks[i], &tasks[idx[p]])
            invariant
                p <= idx@.len(),
                i < tasks@.len(),
                ts == task_views(tasks@),
                forall|j: int| 0 <= j < idx@.len() ==> (#[trigger] idx@[j]) < tasks@.len(),
                forall|j: int|
                    0 <= j < p ==> !task_order()(ts[i as int], #[trigger] tasks_at(ts, idx@)[j]),
            decreases idx@.len() - p,
        {
            assert(ts[idx@[p as int] as int] == tasks@[idx@[p as int] as int]@);
            p += 1;
        }
        let ghost before = tasks_at(ts, idx@);
        proof {
            if p < idx@.len() {
                assert(ts[idx@[p as int] as int] == tasks@[idx@[p as int] as int]@);
            }
            lemma_insert_at(before, ts[i as int], task_order(), p as nat);
            lemma_ordered_push(ts.take(i as int), ts[i as int], task_order());
            assert(ts.take(i as int).push(ts[i as int]) =~= ts.take(i + 1));
        }
        idx.insert(p, i);
        assert(tasks_at(ts, idx@) =~= before.insert(p as int, ts[i as int]));
        i += 1;
    }
    assert(ts.take(i as int) =~= ts);
    idx
}

fn render_line(t: &Task, marks: &Marks, any_marks: bool) -> (s: String)
    requires
        any_marks == (marks@ != Map::<Seq<char>, bool>::empty()),
    ensures
        s@ == marked_line(t@, marks@),
{
    let mut body = if is_completed(t.status) {
        "✓".to_owned()
    } else {
        "☐".to_owned()
    };
    body.append(" ");
    body.append(t.summary.as_str());
    match &t.due {
        Some(d) => {
            body.append(" (due ");
            body.append(d.as_str());
            body.append(")");
        },
        None => {},
    }
    if any_marks {
        let mut s = match marks.get(t.uid.as_str()) {
            Some(true) => "! ".to_owned(),
            Some(false) => "* ".to_owned(),
            None => "  ".to_owned(),
        };
        s.append(body.as_str());
        s
    } else {
        body
    }
}

/// Renders the task list with a column for pending writes, which is left out
/// where there are none.
pub fn format_tasks_marked(tasks: &[Task], marks: &Marks) -> (s: String)
    ensures
        s@ == marked_list(task_views(tasks@), marks@),
{
    if tasks.len() == 0 {
        return "(no tasks)".to_owned();
    }
    let idx = task_positions(tasks);
    let any_marks = !marks.is_empty();
    let ghost ts = ordered(task_views(tasks@), task_order());
    let mut lines: Vec<String> = Vec::new();
    let mut i: usize = 0;
    while i < idx.len()
        invariant
            i <= idx@.len(),
            lines@.len() == i,
            ts == tasks_at(task_views(tasks@), idx@),
            any_marks == (marks@ != Map::<Seq<char>, bool>::empty()),
            forall|j: int| 0 <= j < idx@.len() ==> (#[trigger] idx@[j]) < tasks@.len(),
            forall|j: int| 0 <= j < i ==> (#[trigger] lines@[j])@ == marked_line(ts[j], marks@),
        decreases idx@.len() - i,
    {
        let t = &tasks[idx[i]];
        assert(ts[i as int] == t@);
        lines.push(render_line(t, marks, any_marks));
        i += 1;
    }
    assert(texts(lines@) =~= marked_lines(ts, marks@));
    join(&lines, "\n")
}

/// Does the list show a task of this status?
pub open spec fn shown(include_completed: bool) -> spec_fn(TaskV) -> bool {
    |t: TaskV|
        include_completed || !(t.status == TaskStatus::Completed || t.status
            == TaskStatus::Cancelled)
}

/// Drops finished tasks, completed or cancelled, unless they are asked for.
pub fn filter_for_display(tasks: &Vec<Task>, include_completed: bool) -> (r: Vec<Task>)
    ensures
        task_views(r@) == task_views(tasks@).filter(shown(include_completed)),
{
    let ghost ts = task_views(tasks@);
    let mut out: Vec<Task> = Vec::new();
    let mut i: usize = 0;
    proof {
        reveal(Seq::filter);
        assert(ts.take(0) =~= Seq::empty());
        assert(task_views(out@) =~= Seq::empty());
    }
    while i < tasks.len()
        invariant
            i <= tasks@.len(),
            ts == task_views(tasks@),
            task_views(out@) == ts.take(i as int).filter(shown(include_completed)),
        decreases tasks@.len() - i,
    {
        proof {
            crate::seqs::lemma_filter_step(ts, shown(include_completed), i as int);
        }
        let finished = match tasks[i].status {
            TaskStatus::Completed => true,
            TaskStatus::Cancelled => true,
            _ => false,
        };
        if include_completed || !finished {
            let ghost before = task_views(out@);
            let t = tasks[i].copy();
            out.push(t);
            assert(task_views(out@) =~= before.push(t@));
        }
        i += 1;
    }
    assert(ts.take(i as int) =~= ts);
    out
}

/// One row of the list on the screen.
#[derive(Debug)]
pub struct ListRow {
    pub uid: String,
    pub summary: String,
    pub completed: bool,
    pub due: Option<String>,
    pub mark: String,
}

#[verifier::ext_equal]
pub struct ListRowV {
    pub uid: Seq<char>,
    pub summary: Seq<char>,
    pub completed: bool,
    pub due: Option<Seq<char>>,
    pub mark: Seq<char>,
}

impl View for ListRow {
    type V = ListRowV;

    open spec fn view(&self) -> ListRowV {
        ListRowV {
            uid: self.uid@,
            summary: self.summary@,
            completed: self.completed,
            due: opt_text(self.due),
            mark: self.mark@,
        }
    }
}

pub open spec fn list_row_views(v: Seq<ListRow>) -> Seq<ListRowV> {
    v.map_values(|r: ListRow| r@)
}

/// The mark of a row: `!` given up, `*` waiting, empty where there is no write.
pub open spec fn row_mark(uid: Seq<char>, marks: Map<Seq<char>, bool>) -> Seq<char> {
    if !marks.dom().contains(uid) {
        ""@
    } else if marks[uid] {
        "!"@
    } else {
        "*"@
    }
}

pub open spec fn list_row(t: TaskV, marks: Map<Seq<char>, bool>) -> ListRowV {
    ListRowV {
        uid: t.uid,
        summary: t.summary,
        completed: t.status == TaskStatus::Completed,
        due: t.due,
        mark: row_mark(t.uid, marks),
    }
}

/// The rows of the list on the screen, in display order.
pub open spec fn list_rows(tasks: Seq<TaskV>, marks: Map<Seq<char>, bool>) -> Seq<ListRowV> {
    ordered(tasks, task_order()).map_values(|t: TaskV| list_row(t, marks))
}

/// Lays out the task list for the screen.
pub fn task_rows(tasks: &[Task], marks: &Marks) -> (r: Vec<ListRow>)
    ensures
        list_row_views(r@) == list_rows(task_views(tasks@), marks@),
{
    let idx = task_positions(tasks);
    let ghost ts = ordered(task_views(tasks@), task_order());
    let mut out: Vec<ListRow> = Vec::new();
    let mut i: usize = 0;
    while i < idx.len()
        invariant
            i <= idx@.len(),
            out@.len() == i,
            ts == tasks_at(task_views(tasks@), idx@),
            forall|j: int| 0 <= j < idx@.len() ==> (#[trigger] idx@[j]) < tasks@.len(),
            forall|j: int| 0 <= j < i ==> (#[trigger] out@[j])@ == list_row(ts[j], marks@),
        decreases idx@.len() - i,
    {
        let t = &tasks[idx[i]];
        assert(ts[i as int] == t@);
        let mark = match marks.get(t.uid.as_str()) {
            Some(true) => "!".to_owned(),
            Some(false) => "*".to_owned(),
            None => "".to_owned(),
        };
        out.push(
            ListRow {
                uid: t.uid.clone(),
                summary: t.summary.clone(),
                completed: is_completed(t.status),
                due: crate::store::copy_opt(&t.due),
                mark,
            },
        );
        i += 1;
    }
    assert(list_row_views(out@) =~= list_rows(task_views(tasks@), marks@));
    out
}

/// A number of units, in the plural unless it is one.
pub open spec fn units(n: nat, unit: Seq<char>) -> Seq<char> {
    decimal(n) + " "@ + unit + if n == 1 {
        ""@
    } else {
        "s"@
    }
}

/// An age in words, to the largest whole unit.
pub open spec fn age_words(secs: nat) -> Seq<char> {
    if secs < 60 {
        "<1 minute"@
    } else if secs < 3600 {
        units(secs / 60, "minute"@)
    } else if secs < 86400 {
        units(secs / 3600, "hour"@)
    } else {
        units(secs / 86400, "day"@)
    }
}

fn units_of(n: u64, unit: &str) -> (s: String)
    ensures
        s@ == units(n as nat, unit@),
{
    let mut s = decimal_of(n);
    s.append(" ");
    s.append(unit);
    s.append(if n == 1 { "" } else { "s" });
    s
}

/// Says how long ago something was.
pub fn humanize_secs(secs: u64) -> (s: String)
    ensures
        s@ == age_words(secs as nat),
{
    if secs < 60 {
        "<1 minute".to_owned()
    } else if secs < 3600 {
        units_of(secs / 60, "minute")
    } else if secs < 86400 {
        units_of(secs / 3600, "hour")
    } else {
        units_of(secs / 86400, "day")
    }
}

/// The seconds from `then` to `now`, none where `then` is later.
pub open spec fn elapsed(now: int, then: int) -> nat {
    if now >= then {
        (now - then) as nat
    } else {
        0
    }
}

/// Says how long before `now` the second `then` was.
pub fn humanize_since(now: i64, then: i64) -> (s: String)
    ensures
        s@ == age_words(elapsed(now as int, then as int)),
{
    if now >= then {
        let d: i128 = (now as i128) - (then as i128);
        humanize_secs(d as u64)
    } else {
        humanize_secs(0)
    }
}

} // verus!
