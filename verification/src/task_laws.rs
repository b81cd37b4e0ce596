//! What holds of editing, toggling and creating a to-do, for every text.
use vstd::prelude::*;
use crate::ical::{
    bare_line, begins_todo, crlf, folded, holds_property, ical_escape_char, ical_escaped, mutated,
    property_text, MutationV,
};
use crate::rewrite_laws::{
    apart, inside_at, law_named_properties_read_new, law_other_lines_verbatim, law_part_unchanged,
    law_property_is_set, law_rewriting_keeps_crlf, law_rewriting_keeps_others, lemma_inside_same,
    one_line, other_lines, part_of, place_at, plain_key, plain_mutation, plain_mutations,
    whole_lines,
};
use crate::task::{
    due_line, due_mutation, due_params, edit_mutations, edit_values, edited, has_edit, has_toggle,
    new_todo, set_to, summary_mutations, toggle_mutations, toggle_value, toggled, with_edit,
    with_toggle, TaskStatus,
};
use crate::text::{has_sub, lines_inclusive, stands_at};
use crate::text_laws::{law_crlf_idempotent, law_crlf_keeps_normal, law_escape_one_line};

verus! {

/// No carriage return.
pub open spec fn no_return(s: Seq<char>) -> bool {
    forall|i: int| 0 <= i < s.len() ==> #[trigger] s[i] != '\r'
}

/// An escaped value without a carriage return is on one line.
proof fn lemma_escaped_on_one_line(s: Seq<char>)
    requires
        no_return(s),
    ensures
        one_line(ical_escaped(s)),
    decreases s.len(),
{
    if s.len() > 0 {
        let front = s.drop_last();
        assert forall|i: int| 0 <= i < front.len() implies #[trigger] front[i] != '\r' by {
            assert(front[i] == s[i]);
        }
        lemma_escaped_on_one_line(front);
        assert(s[s.len() - 1] != '\r');
        law_escape_one_line(s);
        reveal_strlit("\\\\");
        reveal_strlit("\\n");
        reveal_strlit("\\,");
        reveal_strlit("\\;");
        let all = ical_escaped(s);
        let before = ical_escaped(front);
        let e = ical_escape_char(s.last());
        assert forall|i: int| 0 <= i < all.len() implies #[trigger] all[i] != '\n' && all[i]
            != '\r' by {
            if i < before.len() {
                assert(all[i] == before[i]);
            } else {
                assert(all[i] == e[i - before.len()]);
            }
        }
    }
}

/// The names of the properties that edits and toggles change.
proof fn lemma_keys()
    ensures
        plain_key("SUMMARY"@),
        plain_key("DTSTAMP"@),
        plain_key("LAST-MODIFIED"@),
        plain_key("DUE"@),
        plain_key("STATUS"@),
        plain_key("COMPLETED"@),
        plain_key("PERCENT-COMPLETE"@),
        "SUMMARY"@ != "DTSTAMP"@,
        "SUMMARY"@ != "LAST-MODIFIED"@,
        "SUMMARY"@ != "DUE"@,
        "DTSTAMP"@ != "LAST-MODIFIED"@,
        "DTSTAMP"@ != "DUE"@,
        "LAST-MODIFIED"@ != "DUE"@,
        "STATUS"@ != "DTSTAMP"@,
        "STATUS"@ != "LAST-MODIFIED"@,
        "STATUS"@ != "COMPLETED"@,
        "STATUS"@ != "PERCENT-COMPLETE"@,
        "COMPLETED"@ != "DTSTAMP"@,
        "COMPLETED"@ != "LAST-MODIFIED"@,
        "COMPLETED"@ != "PERCENT-COMPLETE"@,
        "PERCENT-COMPLETE"@ != "DTSTAMP"@,
        "PERCENT-COMPLETE"@ != "LAST-MODIFIED"@,
{
    reveal_strlit("SUMMARY");
    reveal_strlit("DTSTAMP");
    reveal_strlit("LAST-MODIFIED");
    reveal_strlit("DUE");
    reveal_strlit("STATUS");
    reveal_strlit("COMPLETED");
    reveal_strlit("PERCENT-COMPLETE");
    reveal_strlit("BEGIN");
    reveal_strlit("END");
    assert("SUMMARY"@[0] == 'S');
    assert("DTSTAMP"@[0] == 'D');
    assert("DUE"@[0] == 'D');
    assert("END"@[0] == 'E');
}

/// The changes of an edit each name a property of their own.
pub proof fn law_edit_mutations_plain(
    summary: Seq<char>,
    due: Option<Seq<char>>,
    now: Seq<char>,
)
    requires
        no_return(summary),
        due is Some ==> no_return(due->Some_0),
        one_line(now),
    ensures
        plain_mutations(edit_mutations(summary, due, now)),
{
    lemma_keys();
    lemma_escaped_on_one_line(summary);
    match due {
        Some(d) => {
            lemma_escaped_on_one_line(d);
            reveal_strlit(";VALUE=DATE");
            assert(plain_mutation(due_mutation(d)));
        },
        None => {},
    }
    let m = edit_mutations(summary, due, now);
    let s = summary_mutations(summary, now);
    assert(s[0] == set_to("SUMMARY"@, ical_escaped(summary)));
    assert(s[1] == set_to("DTSTAMP"@, now));
    assert(s[2] == set_to("LAST-MODIFIED"@, now));
    assert(m[0] == s[0] && m[1] == s[1] && m[2] == s[2]);
    assert(plain_mutation(m[0]) && plain_mutation(m[1]) && plain_mutation(m[2]));
    assert(m.len() > 3 ==> m[3].key == "DUE"@);
}

/// The changes of a toggle each name a property of their own.
pub proof fn law_toggle_mutations_plain(to: TaskStatus, now: Seq<char>)
    requires
        one_line(now),
    ensures
        plain_mutations(toggle_mutations(to, now)),
{
    lemma_keys();
    reveal_strlit("COMPLETED");
    reveal_strlit("NEEDS-ACTION");
    reveal_strlit("100");
    let m = toggle_mutations(to, now);
    assert(m[0].key == "DTSTAMP"@ && m[1].key == "LAST-MODIFIED"@ && m[2].key == "STATUS"@
        && m[3].key == "COMPLETED"@ && m[4].key == "PERCENT-COMPLETE"@);
    assert(plain_mutation(m[0]) && plain_mutation(m[1]) && plain_mutation(m[2]) && plain_mutation(
        m[3],
    ) && plain_mutation(m[4]));
}

/// Inside a VTODO that ends at line `i` of `text`, some line reads `line`.
pub open spec fn todo_reads(text: Seq<char>, i: int, line: Seq<char>) -> bool {
    exists|k: int|
        #![trigger lines_inclusive(text)[k]]
        0 <= k < i && bare_line(lines_inclusive(text)[k]) == line && inside_at(text, k)
            && forall|q: int| k < q < i ==> !begins_todo(#[trigger] lines_inclusive(text)[q])
}

/// Line `i` of `text` ends a VTODO.
pub open spec fn todo_ends_at(text: Seq<char>, i: int) -> bool {
    0 <= i < lines_inclusive(text).len() && inside_at(text, i) && bare_line(
        lines_inclusive(text)[i],
    ) == "END:VTODO"@
}

/// Every line inside a VTODO of `text` that holds the property `key` reads `line`.
pub open spec fn only_reads(text: Seq<char>, key: Seq<char>, line: Seq<char>) -> bool {
    forall|i: int|
        0 <= i < lines_inclusive(text).len() && inside_at(text, i) && !folded(
            lines_inclusive(text)[i],
        ) && holds_property(bare_line(#[trigger] lines_inclusive(text)[i]), key) ==> bare_line(
            lines_inclusive(text)[i],
        ) == line
}

/// No line inside a VTODO of `text` holds the property `key`.
pub open spec fn lacks_property(text: Seq<char>, key: Seq<char>) -> bool {
    forall|i: int|
        0 <= i < lines_inclusive(text).len() && inside_at(text, i) && !folded(
            lines_inclusive(text)[i],
        ) ==> !holds_property(bare_line(#[trigger] lines_inclusive(text)[i]), key)
}

/// A property to set is set: every VTODO that ends has a line of it, and every line of
/// it has the new value.
pub proof fn lemma_is_set(body: Seq<char>, muts: Seq<MutationV>, j: int)
    requires
        plain_mutations(muts),
        0 <= j < muts.len(),
        muts[j].value is Some,
    ensures
        forall|i: int| #[trigger]
            todo_ends_at(mutated(body, muts), i) ==> todo_reads(
                mutated(body, muts),
                i,
                property_text(muts[j]),
            ),
        only_reads(mutated(body, muts), muts[j].key, property_text(muts[j])),
{
    let text = mutated(body, muts);
    let lines = lines_inclusive(text);
    assert forall|i: int| #[trigger] todo_ends_at(text, i) implies todo_reads(
        text,
        i,
        property_text(muts[j]),
    ) by {
        lemma_inside_same(muts, lines.take(i));
        law_property_is_set(body, muts, i, j);
        let k = choose|k: int|
            #![trigger lines[k]]
            0 <= k < i && bare_line(lines[k]) == property_text(muts[j]) && place_at(
                text,
                muts,
                k,
            ).inside && forall|q: int| k < q < i ==> !begins_todo(#[trigger] lines[q]);
        lemma_inside_same(muts, lines.take(k));
        assert(bare_line(lines_inclusive(text)[k]) == property_text(muts[j]));
    }
    assert forall|i: int|
        0 <= i < lines.len() && inside_at(text, i) && !folded(lines[i]) && holds_property(
            bare_line(#[trigger] lines[i]),
            muts[j].key,
        ) implies bare_line(lines[i]) == property_text(muts[j]) by {
        lemma_inside_same(muts, lines.take(i));
        law_named_properties_read_new(body, muts, i, j);
    }
}

/// A property to remove is gone.
proof fn lemma_is_gone(body: Seq<char>, muts: Seq<MutationV>, j: int)
    requires
        plain_mutations(muts),
        0 <= j < muts.len(),
        muts[j].value is None,
    ensures
        lacks_property(mutated(body, muts), muts[j].key),
{
    let text = mutated(body, muts);
    let lines = lines_inclusive(text);
    assert forall|i: int|
        0 <= i < lines.len() && inside_at(text, i) && !folded(lines[i]) implies !holds_property(
        bare_line(#[trigger] lines[i]),
        muts[j].key,
    ) by {
        lemma_inside_same(muts, lines.take(i));
        if holds_property(bare_line(lines[i]), muts[j].key) {
            law_named_properties_read_new(body, muts, i, j);
        }
    }
}

// --- Editing ---

/// An edit leaves everything but the properties that it sets: the other lines of the
/// text, with CRLF endings, in their order. Where no due date is given, the due date is
/// among them.
pub proof fn law_edit_leaves_rest(
    text: Seq<char>,
    summary: Seq<char>,
    due: Option<Seq<char>>,
    now: Seq<char>,
)
    requires
        no_return(summary),
        due is Some ==> no_return(due->Some_0),
        one_line(now),
    ensures
        other_lines(edited(text, summary, due, now), edit_mutations(summary, due, now))
            == other_lines(crlf(text), edit_mutations(summary, due, now)),
{
    law_edit_mutations_plain(summary, due, now);
    law_other_lines_verbatim(crlf(text), edit_mutations(summary, due, now));
}

/// After an edit every VTODO has the new summary and both stamps, and no other line of
/// these properties.
pub proof fn law_edit_sets_summary(
    text: Seq<char>,
    summary: Seq<char>,
    due: Option<Seq<char>>,
    now: Seq<char>,
)
    requires
        no_return(summary),
        due is Some ==> no_return(due->Some_0),
        one_line(now),
    ensures
        ({
            let muts = edit_mutations(summary, due, now);
            let new = edited(text, summary, due, now);
            &&& forall|i: int| #[trigger]
                todo_ends_at(new, i) ==> {
                    &&& todo_reads(new, i, "SUMMARY"@ + ":"@ + ical_escaped(summary))
                    &&& todo_reads(new, i, "DTSTAMP"@ + ":"@ + now)
                    &&& todo_reads(new, i, "LAST-MODIFIED"@ + ":"@ + now)
                }
            &&& only_reads(new, "SUMMARY"@, "SUMMARY"@ + ":"@ + ical_escaped(summary))
            &&& only_reads(new, "DTSTAMP"@, "DTSTAMP"@ + ":"@ + now)
            &&& only_reads(new, "LAST-MODIFIED"@, "LAST-MODIFIED"@ + ":"@ + now)
        }),
{
    law_edit_mutations_plain(summary, due, now);
    let muts = edit_mutations(summary, due, now);
    let s = summary_mutations(summary, now);
    assert(muts[0] == s[0] && muts[1] == s[1] && muts[2] == s[2]);
    lemma_is_set(crlf(text), muts, 0);
    lemma_is_set(crlf(text), muts, 1);
    lemma_is_set(crlf(text), muts, 2);
    assert(property_text(muts[0]) =~= "SUMMARY"@ + ":"@ + ical_escaped(summary));
    assert(property_text(muts[1]) =~= "DTSTAMP"@ + ":"@ + now);
    assert(property_text(muts[2]) =~= "LAST-MODIFIED"@ + ":"@ + now);
}

/// After an edit that gives a due date every VTODO has it, and no other; after one that
/// clears it no VTODO has any.
pub proof fn law_edit_sets_due(
    text: Seq<char>,
    summary: Seq<char>,
    due: Seq<char>,
    now: Seq<char>,
)
    requires
        no_return(summary),
        no_return(due),
        one_line(now),
    ensures
        ({
            let muts = edit_mutations(summary, Some(due), now);
            let new = edited(text, summary, Some(due), now);
            let line = "DUE"@ + due_params(due) + ":"@ + ical_escaped(due);
            if due.len() > 0 {
                &&& forall|i: int| #[trigger]
                    todo_ends_at(new, i) ==> todo_reads(new, i, line)
                &&& only_reads(new, "DUE"@, line)
            } else {
                lacks_property(new, "DUE"@)
            }
        }),
{
    law_edit_mutations_plain(summary, Some(due), now);
    let muts = edit_mutations(summary, Some(due), now);
    assert(muts[3] == due_mutation(due));
    if due.len() > 0 {
        lemma_is_set(crlf(text), muts, 3);
    } else {
        lemma_is_gone(crlf(text), muts, 3);
    }
}

/// Every VTODO of a text has the summary of an edit, and no other. It has the due date
/// that the edit gives, and no other; where the edit clears it, it has none.
pub open spec fn reads_edit(text: Seq<char>, summary: Seq<char>, due: Option<Seq<char>>) -> bool {
    let line = "SUMMARY"@ + ":"@ + ical_escaped(summary);
    &&& forall|i: int| #[trigger] todo_ends_at(text, i) ==> todo_reads(text, i, line)
    &&& only_reads(text, "SUMMARY"@, line)
    &&& match due {
        None => true,
        Some(d) => if d.len() == 0 {
            lacks_property(text, "DUE"@)
        } else {
            let due_line = "DUE"@ + due_params(d) + ":"@ + ical_escaped(d);
            &&& forall|i: int| #[trigger] todo_ends_at(text, i) ==> todo_reads(text, i, due_line)
            &&& only_reads(text, "DUE"@, due_line)
        },
    }
}

/// An edited text reads as edited.
pub proof fn law_edited_reads_edit(
    text: Seq<char>,
    summary: Seq<char>,
    due: Option<Seq<char>>,
    now: Seq<char>,
)
    requires
        no_return(summary),
        due is Some ==> no_return(due->Some_0),
        one_line(now),
    ensures
        reads_edit(edited(text, summary, due, now), summary, due),
{
    law_edit_sets_summary(text, summary, due, now);
    if due is Some {
        law_edit_sets_due(text, summary, due->Some_0, now);
    }
}

/// The values of an edit each have a property of their own, and are among its changes.
proof fn lemma_edit_values(summary: Seq<char>, due: Option<Seq<char>>, now: Seq<char>)
    requires
        no_return(summary),
        due is Some ==> no_return(due->Some_0),
        one_line(now),
    ensures
        plain_mutations(edit_values(summary, due)),
        part_of(edit_values(summary, due), edit_mutations(summary, due, now)),
{
    law_edit_mutations_plain(summary, due, now);
    let m = edit_mutations(summary, due, now);
    let s = summary_mutations(summary, now);
    let v = edit_values(summary, due);
    assert(m[0] == s[0] && v[0] == m[0]);
    assert(plain_mutation(m[0]));
    if due is Some {
        assert(v[1] == m[3]);
        assert(plain_mutation(m[3]));
        assert(m[0].key != m[3].key);
    }
    assert forall|j: int| 0 <= j < v.len() implies m.contains(#[trigger] v[j]) by {
        if j == 0 {
            assert(m[0] == v[j]);
        } else {
            assert(m[3] == v[j]);
        }
    }
}

/// A text that holds an edit reads as edited.
pub proof fn law_held_edit_is_read(text: Seq<char>, summary: Seq<char>, due: Option<Seq<char>>)
    requires
        no_return(summary),
        due is Some ==> no_return(due->Some_0),
        has_edit(text, summary, due),
    ensures
        reads_edit(text, summary, due),
{
    lemma_edit_values(summary, due, Seq::empty());
    let v = edit_values(summary, due);
    lemma_is_set(text, v, 0);
    assert(property_text(v[0]) =~= "SUMMARY"@ + ":"@ + ical_escaped(summary));
    match due {
        Some(d) => {
            assert(v[1] == due_mutation(d));
            if d.len() == 0 {
                lemma_is_gone(text, v, 1);
            } else {
                lemma_is_set(text, v, 1);
            }
        },
        None => {},
    }
}

/// An edited text holds the edit.
pub proof fn law_edited_has_edit(
    text: Seq<char>,
    summary: Seq<char>,
    due: Option<Seq<char>>,
    now: Seq<char>,
)
    requires
        no_return(summary),
        due is Some ==> no_return(due->Some_0),
        one_line(now),
    ensures
        has_edit(edited(text, summary, due, now), summary, due),
{
    law_edit_mutations_plain(summary, due, now);
    lemma_edit_values(summary, due, now);
    law_part_unchanged(
        crlf(text),
        edit_mutations(summary, due, now),
        edit_values(summary, due),
    );
}

/// A text that an edit is brought into holds it, whether it held it before or not.
pub proof fn law_with_edit_has_edit(
    text: Seq<char>,
    summary: Seq<char>,
    due: Option<Seq<char>>,
    now: Seq<char>,
)
    requires
        no_return(summary),
        due is Some ==> no_return(due->Some_0),
        one_line(now),
    ensures
        has_edit(with_edit(text, summary, due, now), summary, due),
        reads_edit(with_edit(text, summary, due, now), summary, due),
{
    law_edited_has_edit(text, summary, due, now);
    law_held_edit_is_read(with_edit(text, summary, due, now), summary, due);
}

/// It makes no difference to an edit whether the line endings were normalised before.
pub proof fn law_edit_normalises(
    text: Seq<char>,
    summary: Seq<char>,
    due: Option<Seq<char>>,
    now: Seq<char>,
)
    ensures
        edited(crlf(text), summary, due, now) == edited(text, summary, due, now),
{
    law_crlf_idempotent(text);
}

// --- Toggling ---

/// A toggle leaves everything but the properties that it sets or removes.
pub proof fn law_toggle_leaves_rest(text: Seq<char>, now: Seq<char>)
    requires
        one_line(now),
        toggled(text, now) is Ok,
    ensures
        ({
            let t = toggled(text, now)->Ok_0;
            let muts = toggle_mutations(t.2, now);
            other_lines(t.0, muts) == other_lines(crlf(text), muts)
        }),
{
    let t = toggled(text, now)->Ok_0;
    law_toggle_mutations_plain(t.2, now);
    law_other_lines_verbatim(crlf(text), toggle_mutations(t.2, now));
}

/// After a toggle every VTODO has the new status. A completed one has the time and the
/// full percentage; one that needs action has neither.
pub proof fn law_toggle_sets_status(text: Seq<char>, now: Seq<char>)
    requires
        one_line(now),
        toggled(text, now) is Ok,
    ensures
        ({
            let t = toggled(text, now)->Ok_0;
            let muts = toggle_mutations(t.2, now);
            if t.2 == TaskStatus::Completed {
                &&& forall|i: int| #[trigger]
                    todo_ends_at(t.0, i) ==> {
                        &&& todo_reads(t.0, i, "STATUS"@ + ":"@ + "COMPLETED"@)
                        &&& todo_reads(t.0, i, "COMPLETED"@ + ":"@ + now)
                        &&& todo_reads(t.0, i, "PERCENT-COMPLETE"@ + ":"@ + "100"@)
                    }
                &&& only_reads(t.0, "STATUS"@, "STATUS"@ + ":"@ + "COMPLETED"@)
                &&& only_reads(t.0, "COMPLETED"@, "COMPLETED"@ + ":"@ + now)
                &&& only_reads(
                    t.0,
                    "PERCENT-COMPLETE"@,
                    "PERCENT-COMPLETE"@ + ":"@ + "100"@,
                )
            } else {
                &&& forall|i: int| #[trigger]
                    todo_ends_at(t.0, i) ==> todo_reads(
                        t.0,
                        i,
                        "STATUS"@ + ":"@ + "NEEDS-ACTION"@,
                    )
                &&& only_reads(t.0, "STATUS"@, "STATUS"@ + ":"@ + "NEEDS-ACTION"@)
                &&& lacks_property(t.0, "COMPLETED"@)
                &&& lacks_property(t.0, "PERCENT-COMPLETE"@)
            }
        }),
{
    let t = toggled(text, now)->Ok_0;
    let body = crlf(text);
    let muts = toggle_mutations(t.2, now);
    law_toggle_mutations_plain(t.2, now);
    lemma_is_set(body, muts, 2);
    if t.2 == TaskStatus::Completed {
        lemma_is_set(body, muts, 3);
        lemma_is_set(body, muts, 4);
        assert(property_text(muts[2]) =~= "STATUS"@ + ":"@ + "COMPLETED"@);
        assert(property_text(muts[3]) =~= "COMPLETED"@ + ":"@ + now);
        assert(property_text(muts[4]) =~= "PERCENT-COMPLETE"@ + ":"@ + "100"@);
    } else {
        lemma_is_gone(body, muts, 3);
        lemma_is_gone(body, muts, 4);
        assert(property_text(muts[2]) =~= "STATUS"@ + ":"@ + "NEEDS-ACTION"@);
    }
}

/// Every VTODO of a text has the status of a toggle to `to`, and no other.
pub open spec fn reads_toggle(text: Seq<char>, to: TaskStatus) -> bool {
    let line = "STATUS"@ + ":"@ + toggle_value(to);
    &&& forall|i: int| #[trigger] todo_ends_at(text, i) ==> todo_reads(text, i, line)
    &&& only_reads(text, "STATUS"@, line)
}

/// The status that a toggle sets is a property of its own, and among its changes.
proof fn lemma_toggle_part(to: TaskStatus, now: Seq<char>)
    requires
        one_line(now),
    ensures
        plain_mutations(seq![set_to("STATUS"@, toggle_value(to))]),
        part_of(seq![set_to("STATUS"@, toggle_value(to))], toggle_mutations(to, now)),
{
    law_toggle_mutations_plain(to, now);
    let m = toggle_mutations(to, now);
    let v = seq![set_to("STATUS"@, toggle_value(to))];
    assert(m[2] == v[0]);
    assert(plain_mutation(m[2]));
    assert forall|j: int| 0 <= j < v.len() implies m.contains(#[trigger] v[j]) by {
        assert(m[2] == v[j]);
    }
}

/// A text that holds a toggle reads as toggled.
pub proof fn law_held_toggle_is_read(text: Seq<char>, to: TaskStatus)
    requires
        has_toggle(text, to),
    ensures
        reads_toggle(text, to),
{
    lemma_toggle_part(to, Seq::empty());
    let v = seq![set_to("STATUS"@, toggle_value(to))];
    lemma_is_set(text, v, 0);
    assert(property_text(v[0]) =~= "STATUS"@ + ":"@ + toggle_value(to));
}

/// A toggled text holds the toggle.
pub proof fn law_toggled_has_toggle(text: Seq<char>, now: Seq<char>)
    requires
        one_line(now),
        toggled(text, now) is Ok,
    ensures
        has_toggle(toggled(text, now)->Ok_0.0, toggled(text, now)->Ok_0.2),
{
    let to = toggled(text, now)->Ok_0.2;
    law_toggle_mutations_plain(to, now);
    lemma_toggle_part(to, now);
    law_part_unchanged(
        crlf(text),
        toggle_mutations(to, now),
        seq![set_to("STATUS"@, toggle_value(to))],
    );
}

/// A text that a toggle is brought into holds it, whether it held it before or not.
pub proof fn law_with_toggle_has_toggle(text: Seq<char>, to: TaskStatus, now: Seq<char>)
    requires
        one_line(now),
    ensures
        has_toggle(with_toggle(text, to, now), to),
        reads_toggle(with_toggle(text, to, now), to),
{
    law_toggle_mutations_plain(to, now);
    lemma_toggle_part(to, now);
    law_part_unchanged(
        crlf(text),
        toggle_mutations(to, now),
        seq![set_to("STATUS"@, toggle_value(to))],
    );
    law_held_toggle_is_read(with_toggle(text, to, now), to);
}

// --- Both ---

/// A rewriting to a status leaves an edit in the text.
proof fn lemma_status_keeps_edit(
    text: Seq<char>,
    to: TaskStatus,
    now: Seq<char>,
    summary: Seq<char>,
    due: Option<Seq<char>>,
)
    requires
        one_line(now),
        whole_lines(text),
        no_return(summary),
        due is Some ==> no_return(due->Some_0),
        has_edit(text, summary, due),
    ensures
        has_edit(mutated(crlf(text), toggle_mutations(to, now)), summary, due),
{
    law_crlf_keeps_normal(text);
    law_toggle_mutations_plain(to, now);
    lemma_edit_values(summary, due, now);
    lemma_keys();
    lemma_more_keys();
    let m = toggle_mutations(to, now);
    let v = edit_values(summary, due);
    assert(m[0].key == "DTSTAMP"@ && m[1].key == "LAST-MODIFIED"@ && m[2].key == "STATUS"@
        && m[3].key == "COMPLETED"@ && m[4].key == "PERCENT-COMPLETE"@);
    assert(v[0].key == "SUMMARY"@);
    assert(v.len() > 1 ==> v[1].key == "DUE"@);
    assert(apart(m, v));
    law_rewriting_keeps_others(text, m, v);
}

/// A toggle leaves an edit in the text.
pub proof fn law_toggled_keeps_edit(
    text: Seq<char>,
    now: Seq<char>,
    summary: Seq<char>,
    due: Option<Seq<char>>,
)
    requires
        one_line(now),
        whole_lines(text),
        no_return(summary),
        due is Some ==> no_return(due->Some_0),
        has_edit(text, summary, due),
        toggled(text, now) is Ok,
    ensures
        has_edit(toggled(text, now)->Ok_0.0, summary, due),
{
    lemma_status_keeps_edit(text, toggled(text, now)->Ok_0.2, now, summary, due);
}

/// A toggle that is brought into a text leaves an edit in it.
pub proof fn law_toggle_keeps_edit(
    text: Seq<char>,
    to: TaskStatus,
    now: Seq<char>,
    summary: Seq<char>,
    due: Option<Seq<char>>,
)
    requires
        one_line(now),
        whole_lines(text),
        no_return(summary),
        due is Some ==> no_return(due->Some_0),
        has_edit(text, summary, due),
    ensures
        has_edit(with_toggle(text, to, now), summary, due),
{
    lemma_status_keeps_edit(text, to, now, summary, due);
}

/// An edit leaves a toggle in the text.
pub proof fn law_edited_keeps_toggle(
    text: Seq<char>,
    summary: Seq<char>,
    due: Option<Seq<char>>,
    now: Seq<char>,
    to: TaskStatus,
)
    requires
        one_line(now),
        whole_lines(text),
        no_return(summary),
        due is Some ==> no_return(due->Some_0),
        has_toggle(text, to),
    ensures
        has_toggle(edited(text, summary, due, now), to),
{
    law_crlf_keeps_normal(text);
    law_edit_mutations_plain(summary, due, now);
    lemma_toggle_part(to, now);
    lemma_keys();
    lemma_more_keys();
    let m = edit_mutations(summary, due, now);
    let s = summary_mutations(summary, now);
    let v = seq![set_to("STATUS"@, toggle_value(to))];
    assert(m[0] == s[0] && m[1] == s[1] && m[2] == s[2]);
    assert(m.len() > 3 ==> m[3].key == "DUE"@);
    assert(apart(m, v));
    law_rewriting_keeps_others(text, m, v);
}

/// An edit that is brought into a text leaves a toggle in it.
pub proof fn law_edit_keeps_toggle(
    text: Seq<char>,
    summary: Seq<char>,
    due: Option<Seq<char>>,
    now: Seq<char>,
    to: TaskStatus,
)
    requires
        one_line(now),
        whole_lines(text),
        no_return(summary),
        due is Some ==> no_return(due->Some_0),
        has_toggle(text, to),
    ensures
        has_toggle(with_edit(text, summary, due, now), to),
{
    law_edited_keeps_toggle(text, summary, due, now, to);
}

/// What a change is brought into keeps CRLF endings.
pub proof fn law_changes_keep_crlf(
    text: Seq<char>,
    summary: Seq<char>,
    due: Option<Seq<char>>,
    to: TaskStatus,
    now: Seq<char>,
)
    requires
        one_line(now),
        whole_lines(text),
        no_return(summary),
        due is Some ==> no_return(due->Some_0),
    ensures
        whole_lines(with_edit(text, summary, due, now)),
        whole_lines(with_toggle(text, to, now)),
{
    law_crlf_keeps_normal(text);
    law_edit_mutations_plain(summary, due, now);
    law_toggle_mutations_plain(to, now);
    law_rewriting_keeps_crlf(text, edit_mutations(summary, due, now));
    law_rewriting_keeps_crlf(text, toggle_mutations(to, now));
}

proof fn lemma_more_keys()
    ensures
        "SUMMARY"@ != "STATUS"@,
        "SUMMARY"@ != "COMPLETED"@,
        "SUMMARY"@ != "PERCENT-COMPLETE"@,
        "DUE"@ != "STATUS"@,
        "DUE"@ != "COMPLETED"@,
        "DUE"@ != "PERCENT-COMPLETE"@,
{
    reveal_strlit("SUMMARY");
    reveal_strlit("DUE");
    reveal_strlit("STATUS");
    reveal_strlit("COMPLETED");
    reveal_strlit("PERCENT-COMPLETE");
    assert("SUMMARY"@.len() == 7);
    assert("DUE"@.len() == 3);
}

// --- Creating ---

/// A new to-do with a due date holds its line.
pub proof fn law_new_todo_has_due(
    uid: Seq<char>,
    summary: Seq<char>,
    due: Seq<char>,
    now: Seq<char>,
)
    requires
        due.len() > 0,
    ensures
        has_sub(
            new_todo(uid, summary, Some(due), now),
            "\r\n"@ + ("DUE"@ + due_params(due) + ":"@ + ical_escaped(due)) + "\r\n"@,
        ),
{
    reveal_strlit("\r\n");
    reveal_strlit("\r\nSTATUS:NEEDS-ACTION\r\nEND:VTODO\r\nEND:VCALENDAR\r\n");
    let all = new_todo(uid, summary, Some(due), now);
    let tail = "\r\nSTATUS:NEEDS-ACTION\r\nEND:VTODO\r\nEND:VCALENDAR\r\n"@;
    let line = due_line(Some(due));
    let sub = "\r\n"@ + ("DUE"@ + due_params(due) + ":"@ + ical_escaped(due)) + "\r\n"@;
    let at = all.len() - tail.len() - line.len();
    assert(sub =~= line + "\r\n"@);
    assert(all.subrange(at, at + sub.len()) =~= sub);
    assert(stands_at(all, sub, at));
}

} // verus!
