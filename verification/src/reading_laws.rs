//! What holds of the tasks that are read out of a text, for every list of components. A
//! component is spoken of by its properties alone: a name and a value each.
use vstd::prelude::*;
use crate::nesting::{begin_depth, lines_short};
use crate::task::{
    components_in, current_status, first_status, first_task_in, parsed_components, parses, property,
    property_from, status_in, status_of, task_of, tasks_in, tasks_of, PropertiesV, TaskStatus,
    TaskV,
};
use crate::text::{ascii_upper, ascii_upper_char};

verus! {

/// `value` is the value of the first property `key`.
pub open spec fn is_value(props: PropertiesV, key: Seq<char>, value: Seq<char>) -> bool {
    exists|i: int|
        {
            &&& 0 <= i < props.len()
            &&& #[trigger] props[i] == (key, value)
            &&& forall|j: int| 0 <= j < i ==> (#[trigger] props[j]).0 != key
        }
}

/// There is no property `key`.
pub open spec fn has_none(props: PropertiesV, key: Seq<char>) -> bool {
    forall|i: int| 0 <= i < props.len() ==> (#[trigger] props[i]).0 != key
}

/// `s` is the upper-case word `word` in some case of its letters.
pub open spec fn spells(s: Seq<char>, word: Seq<char>) -> bool {
    s.len() == word.len() && forall|i: int|
        0 <= i < s.len() ==> #[trigger] s[i] == word[i] || ('A' <= word[i] && word[i] <= 'Z'
            && s[i] as int == word[i] as int + 32)
}

/// The VTODO has a STATUS that spells `word`.
pub open spec fn says_status(props: PropertiesV, word: Seq<char>) -> bool {
    exists|v: Seq<char>| #[trigger] is_value(props, "STATUS"@, v) && spells(v, word)
}

/// `t` is the task of a VTODO with these properties.
pub open spec fn describes(props: PropertiesV, t: TaskV) -> bool {
    &&& is_value(props, "UID"@, t.uid) || (has_none(props, "UID"@) && t.uid.len() == 0)
    &&& is_value(props, "SUMMARY"@, t.summary) || (has_none(props, "SUMMARY"@) && t.summary
        == "(no summary)"@)
    &&& match t.due {
        Some(d) => is_value(props, "DUE"@, d),
        None => has_none(props, "DUE"@),
    }
    &&& (t.status == TaskStatus::Completed) == says_status(props, "COMPLETED"@)
    &&& (t.status == TaskStatus::Cancelled) == says_status(props, "CANCELLED"@)
    &&& (t.status == TaskStatus::InProcess) == says_status(props, "IN-PROCESS"@)
    &&& (t.status == TaskStatus::NeedsAction) == says_status(props, "NEEDS-ACTION"@)
    &&& has_none(props, "STATUS"@) ==> t.status == TaskStatus::Unknown
}

/// The tasks are those of the VTODOs, one each and in order: `origin` gives the place of
/// each task's VTODO among the components.
pub open spec fn tells_todos(
    cs: Seq<Option<PropertiesV>>,
    tasks: Seq<TaskV>,
    origin: Seq<int>,
) -> bool {
    &&& origin.len() == tasks.len()
    &&& forall|k: int|
        0 <= k < tasks.len() ==> 0 <= #[trigger] origin[k] < cs.len() && (
        cs[origin[k]] matches Some(props) && describes(props, tasks[k]))
    &&& forall|i: int, j: int| 0 <= i < j < tasks.len() ==> #[trigger] origin[i] < #[trigger] origin[j]
    &&& forall|i: int|
        0 <= i < cs.len() && #[trigger] cs[i] is Some ==> exists|k: int|
            0 <= k < tasks.len() && #[trigger] origin[k] == i
}

proof fn lemma_property(props: PropertiesV, key: Seq<char>, i: nat)
    requires
        i <= props.len(),
        forall|j: int| 0 <= j < i ==> (#[trigger] props[j]).0 != key,
    ensures
        property_from(props, key, i) is None == has_none(props, key),
        forall|v: Seq<char>|
            (property_from(props, key, i) == Some(v)) == #[trigger] is_value(props, key, v),
    decreases props.len() - i,
{
    if i >= props.len() {
        assert forall|v: Seq<char>| !(#[trigger] is_value(props, key, v)) by {}
    } else if props[i as int].0 == key {
        assert forall|v: Seq<char>|
            (property_from(props, key, i) == Some(v)) == #[trigger] is_value(props, key, v) by {
            if v == props[i as int].1 {
                assert(props[i as int] == (key, v));
            }
            if is_value(props, key, v) {
                let k = choose|k: int|
                    {
                        &&& 0 <= k < props.len()
                        &&& #[trigger] props[k] == (key, v)
                        &&& forall|j: int| 0 <= j < k ==> (#[trigger] props[j]).0 != key
                    };
                assert(k == i) by {
                    if k > i {
                        assert(props[i as int].0 != key);
                    }
                }
            }
        }
    } else {
        lemma_property(props, key, i + 1);
    }
}

proof fn lemma_upper(c: char, u: char)
    requires
        !('a' <= u && u <= 'z'),
    ensures
        (ascii_upper_char(c) == u) == (c == u || ('A' <= u && u <= 'Z' && c as int == u as int
            + 32)),
{
    if 'a' <= c && c <= 'z' {
        let n = (c as u32 - 32) as u32;
        assert(65 <= n <= 90);
        assert(ascii_upper_char(c) as u32 == n);
        if c as int == u as int + 32 {
            assert(n as char == u as u32 as char);
        }
    }
}

/// Comparing in upper case is comparing in whatever case.
proof fn lemma_spells(s: Seq<char>, word: Seq<char>)
    requires
        forall|i: int| 0 <= i < word.len() ==> !('a' <= #[trigger] word[i] && word[i] <= 'z'),
    ensures
        (ascii_upper(s) == word) == spells(s, word),
{
    if ascii_upper(s) == word {
        assert forall|i: int| 0 <= i < s.len() implies #[trigger] s[i] == word[i] || ('A' <= word[i]
            && word[i] <= 'Z' && s[i] as int == word[i] as int + 32) by {
            assert(ascii_upper(s)[i] == ascii_upper_char(s[i]));
            lemma_upper(s[i], word[i]);
        }
    }
    if spells(s, word) {
        assert forall|i: int| 0 <= i < s.len() implies ascii_upper(s)[i] == word[i] by {
            assert(s[i] == word[i] || ('A' <= word[i] && word[i] <= 'Z' && s[i] as int
                == word[i] as int + 32));
            lemma_upper(s[i], word[i]);
        }
        assert(ascii_upper(s) =~= word);
    }
}

/// What a STATUS value stands for, whatever the case of its letters; any other value stands
/// for no status that is known.
pub proof fn law_status_values(raw: Seq<char>)
    ensures
        (status_of(raw) == TaskStatus::Completed) == spells(raw, "COMPLETED"@),
        (status_of(raw) == TaskStatus::Cancelled) == spells(raw, "CANCELLED"@),
        (status_of(raw) == TaskStatus::InProcess) == spells(raw, "IN-PROCESS"@),
        (status_of(raw) == TaskStatus::NeedsAction) == spells(raw, "NEEDS-ACTION"@),
{
    reveal_strlit("COMPLETED");
    reveal_strlit("CANCELLED");
    reveal_strlit("IN-PROCESS");
    reveal_strlit("NEEDS-ACTION");
    lemma_spells(raw, "COMPLETED"@);
    lemma_spells(raw, "CANCELLED"@);
    lemma_spells(raw, "IN-PROCESS"@);
    lemma_spells(raw, "NEEDS-ACTION"@);
    assert("COMPLETED"@[1] != "CANCELLED"@[1]);
    assert("COMPLETED"@.len() == 9);
    assert("CANCELLED"@.len() == 9);
    assert("IN-PROCESS"@.len() == 10);
    assert("NEEDS-ACTION"@.len() == 12);
}

/// A status that is read where a VTODO may have none: `default` stands in for it.
proof fn lemma_status(props: PropertiesV, default: TaskStatus)
    ensures
        has_none(props, "STATUS"@) ==> status_in(props, default) == default,
        !has_none(props, "STATUS"@) ==> {
            let s = status_in(props, default);
            &&& (s == TaskStatus::Completed) == says_status(props, "COMPLETED"@)
            &&& (s == TaskStatus::Cancelled) == says_status(props, "CANCELLED"@)
            &&& (s == TaskStatus::InProcess) == says_status(props, "IN-PROCESS"@)
            &&& (s == TaskStatus::NeedsAction) == says_status(props, "NEEDS-ACTION"@)
        },
{
    lemma_property(props, "STATUS"@, 0);
    if !has_none(props, "STATUS"@) {
        let v = property(props, "STATUS"@)->Some_0;
        law_status_values(v);
        assert(is_value(props, "STATUS"@, v));
        assert forall|w: Seq<char>| #[trigger] is_value(props, "STATUS"@, w) implies w == v by {}
    }
}

proof fn lemma_describes(props: PropertiesV)
    ensures
        describes(props, task_of(props)),
{
    lemma_property(props, "UID"@, 0);
    lemma_property(props, "SUMMARY"@, 0);
    lemma_property(props, "DUE"@, 0);
    lemma_status(props, TaskStatus::Unknown);
    lemma_property(props, "STATUS"@, 0);
    reveal_strlit("");
    let t = task_of(props);
    if property(props, "UID"@) is Some {
        assert(is_value(props, "UID"@, t.uid));
    }
    if property(props, "SUMMARY"@) is Some {
        assert(is_value(props, "SUMMARY"@, t.summary));
    }
    if t.due is Some {
        assert(is_value(props, "DUE"@, t.due->Some_0));
    }
    if has_none(props, "STATUS"@) {
        assert forall|w: Seq<char>| !(#[trigger] is_value(props, "STATUS"@, w)) by {}
    }
}

proof fn lemma_todos(cs: Seq<Option<PropertiesV>>) -> (origin: Seq<int>)
    ensures
        tells_todos(cs, tasks_of(cs), origin),
    decreases cs.len(),
{
    if cs.len() == 0 {
        Seq::<int>::empty()
    } else {
        let rest = cs.drop_last();
        let m = cs.len() - 1;
        let before = tasks_of(rest);
        let sofar = lemma_todos(rest);
        let tasks = tasks_of(cs);
        let origin = if cs.last() is Some {
            sofar.push(m)
        } else {
            sofar
        };
        if cs.last() is Some {
            lemma_describes(cs.last()->Some_0);
        }
        assert forall|k: int| 0 <= k < tasks.len() implies 0 <= #[trigger] origin[k] < cs.len() && (
        cs[origin[k]] matches Some(props) && describes(props, tasks[k])) by {
            if k < before.len() {
                assert(origin[k] == sofar[k]);
                assert(rest[sofar[k]] == cs[sofar[k]]);
            }
        }
        assert forall|i: int| 0 <= i < cs.len() && #[trigger] cs[i] is Some implies exists|k: int|
            0 <= k < tasks.len() && #[trigger] origin[k] == i by {
            if i < m {
                assert(rest[i] is Some);
                let k = choose|k: int| 0 <= k < before.len() && #[trigger] sofar[k] == i;
                assert(origin[k] == i);
            } else {
                assert(origin[before.len() as int] == i);
            }
        }
        origin
    }
}

/// The tasks of a text are its VTODOs, one each and in order. The identifier, the summary
/// and the due date of a task are the properties of its own VTODO, and its status is what
/// the STATUS of that VTODO spells; a VTODO without a STATUS has no status that is known.
pub proof fn law_tasks_are_told(text: Seq<char>)
    requires
        components_in(text) is Ok,
    ensures
        tasks_in(text) is Ok,
        exists|origin: Seq<int>|
            tells_todos(components_in(text)->Ok_0, tasks_in(text)->Ok_0, origin),
{
    let origin = lemma_todos(components_in(text)->Ok_0);
    assert(tells_todos(components_in(text)->Ok_0, tasks_in(text)->Ok_0, origin));
}

/// A task is read as completed only where its VTODO has a STATUS that spells COMPLETED; so
/// that a VTODO without a STATUS is neither completed nor cancelled.
pub proof fn law_completed_is_said(cs: Seq<Option<PropertiesV>>, k: int)
    requires
        0 <= k < tasks_of(cs).len(),
    ensures
        exists|i: int|
            {
                &&& 0 <= i < cs.len() && #[trigger] cs[i] is Some
                &&& tasks_of(cs)[k].status == TaskStatus::Completed ==> says_status(
                    cs[i]->Some_0,
                    "COMPLETED"@,
                )
                &&& has_none(cs[i]->Some_0, "STATUS"@) ==> tasks_of(cs)[k].status
                    != TaskStatus::Completed && tasks_of(cs)[k].status != TaskStatus::Cancelled
                &&& describes(cs[i]->Some_0, tasks_of(cs)[k])
            },
{
    let origin = lemma_todos(cs);
    let i = origin[k];
    assert(cs[i] is Some);
}

/// The first task of a text is that of its first VTODO; there is none only where the text
/// has no VTODO or cannot be read.
pub proof fn law_first_task_is_told(text: Seq<char>)
    ensures
        match first_task_in(text) {
            Ok(t) => components_in(text) is Ok && exists|i: int|
                {
                    let cs = components_in(text)->Ok_0;
                    &&& 0 <= i < cs.len()
                    &&& #[trigger] components_in(text)->Ok_0[i] is Some && describes(
                        cs[i]->Some_0,
                        t,
                    )
                    &&& forall|j: int| 0 <= j < i ==> #[trigger] components_in(text)->Ok_0[j] is None
                },
            Err(_) => components_in(text) is Ok ==> forall|j: int|
                0 <= j < components_in(text)->Ok_0.len()
                    ==> #[trigger] components_in(text)->Ok_0[j] is None,
        },
{
    if components_in(text) is Ok {
        let cs = components_in(text)->Ok_0;
        let tasks = tasks_of(cs);
        let origin = lemma_todos(cs);
        if tasks.len() > 0 {
            let i = origin[0];
            assert(cs[i] is Some);
            assert forall|j: int| 0 <= j < i implies #[trigger] cs[j] is None by {
                if cs[j] is Some {
                    let k = choose|k: int| 0 <= k < tasks.len() && #[trigger] origin[k] == j;
                    if k > 0 {
                        assert(origin[0] < origin[k]);
                    }
                }
            }
        } else {
            assert forall|j: int| 0 <= j < cs.len() implies #[trigger] cs[j] is None by {}
        }
    }
}

proof fn lemma_current(cs: Seq<Option<PropertiesV>>, i: nat)
    requires
        i <= cs.len(),
    ensures
        match first_status(cs, i) {
            Some(s) => exists|k: int|
                {
                    &&& i <= k < cs.len()
                    &&& #[trigger] cs[k] is Some && s == status_in(
                        cs[k]->Some_0,
                        TaskStatus::NeedsAction,
                    )
                    &&& forall|j: int| i <= j < k ==> #[trigger] cs[j] is None
                },
            None => forall|j: int| i <= j < cs.len() ==> #[trigger] cs[j] is None,
        },
    decreases cs.len() - i,
{
    if i < cs.len() {
        if cs[i as int] is Some {
            assert(cs[i as int] is Some);
        } else {
            lemma_current(cs, i + 1);
        }
    }
}

/// The status that a toggle starts from is that of the first VTODO: completed only where
/// its STATUS spells so. A VTODO without a STATUS needs action.
pub proof fn law_current_status_is_told(text: Seq<char>)
    requires
        components_in(text) is Ok,
    ensures
        ({
            let cs = components_in(text)->Ok_0;
            match current_status(text) {
                Ok(s) => exists|k: int|
                    {
                        let props = cs[k]->Some_0;
                        &&& 0 <= k < cs.len()
                        &&& #[trigger] components_in(text)->Ok_0[k] is Some
                        &&& forall|j: int|
                            0 <= j < k ==> #[trigger] components_in(text)->Ok_0[j] is None
                        &&& (s == TaskStatus::Completed) == says_status(props, "COMPLETED"@)
                        &&& (s == TaskStatus::Cancelled) == says_status(props, "CANCELLED"@)
                        &&& (s == TaskStatus::InProcess) == says_status(props, "IN-PROCESS"@)
                        &&& (s == TaskStatus::NeedsAction) == (has_none(props, "STATUS"@)
                            || says_status(props, "NEEDS-ACTION"@))
                    },
                Err(_) => forall|j: int|
                    0 <= j < cs.len() ==> #[trigger] components_in(text)->Ok_0[j] is None,
            }
        }),
{
    let cs = components_in(text)->Ok_0;
    lemma_current(cs, 0);
    if first_status(cs, 0) is Some {
        let s = first_status(cs, 0)->Some_0;
        let k = choose|k: int|
            {
                &&& 0 <= k < cs.len()
                &&& #[trigger] cs[k] is Some && s == status_in(
                    cs[k]->Some_0,
                    TaskStatus::NeedsAction,
                )
                &&& forall|j: int| 0 <= j < k ==> #[trigger] cs[j] is None
            };
        let props = cs[k]->Some_0;
        lemma_status(props, TaskStatus::NeedsAction);
        lemma_property(props, "STATUS"@, 0);
        if has_none(props, "STATUS"@) {
            assert forall|w: Seq<char>| !(#[trigger] is_value(props, "STATUS"@, w)) by {}
        }
        assert(components_in(text)->Ok_0[k] is Some);
    }
}

/// A text whose components nest within the limit is read where it can be read at all; where
/// it cannot, it is refused, in the parser's words where its lines are short. One whose
/// components nest more deeply is refused.
pub proof fn law_readable_text_is_read(text: Seq<char>)
    ensures
        begin_depth(text) <= 100 && parses(text) ==> components_in(text) == parsed_components(
            text,
        ),
        begin_depth(text) <= 100 && lines_short(text) ==> components_in(text) == parsed_components(
            text,
        ),
        begin_depth(text) <= 100 && !lines_short(text) && !parses(text) ==> components_in(
            text,
        ) is Err,
        begin_depth(text) > 100 ==> components_in(text) is Err,
{
}

/// A text that cannot be read, or that has no VTODO, has no first task and no status.
pub proof fn law_unreadable_text(text: Seq<char>)
    ensures
        components_in(text) is Err ==> tasks_in(text) is Err && first_task_in(text) is Err
            && current_status(text) is Err,
{
}

} // verus!
