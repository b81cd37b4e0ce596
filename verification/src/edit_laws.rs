//! What a change does to the text of a task, line by line, for every text.
use vstd::prelude::*;
use crate::change_laws::due_line_of;
use crate::exchange::{reapplied, ChangeV};
use crate::ical::{
    after_line, after_lines, bare_line, begins_todo, crlf, first_hit, folded, holds_property,
    ical_escaped, is_named, joined, lemma_joined_add, lemma_joined_one, line_end, mutated, outset,
    property_text, rewritten, rewritten_line, MutationV, Place,
};
use crate::json::{json_top, JsonTopV};
use crate::queue::{change_of, payload_due, payload_summary, toggle_goal, with_change, with_waiting};
use crate::rewrite_laws::{
    ended_line, ended_lines, law_lines_cut_again, law_other_lines_verbatim, lemma_pass_add,
    lemma_pass_one, line_like, one_line, other_lines, plain_key, plain_mutation, text_lines,
};
use crate::settings_laws::{is_silent, tells};
use crate::store::PendingOpV;
use crate::task::{
    current_status, due_params, edit_mutations, edited, toggle_mutations, toggled, TaskStatus,
};
use crate::task_laws::{
    lacks_property, law_edit_mutations_plain, law_edit_sets_due, law_toggle_mutations_plain,
    law_with_edit_has_edit, law_with_toggle_has_toggle, lemma_is_set, no_return, only_reads,
    todo_ends_at, todo_reads,
};
use crate::text::{has_sub, lines_inclusive, stands_at, trim_end_char};

verus! {

// --- Values ---

/// Escaping goes character by character: a backslash, a comma and a semicolon get a
/// backslash in front, a line feed becomes a backslash and an `n`, and all else stays.
pub proof fn law_escape_by_character(s: Seq<char>, c: char)
    ensures
        ical_escaped(Seq::empty()) == Seq::<char>::empty(),
        ical_escaped(s.push(c)) == ical_escaped(s) + if c == '\\' || c == ',' || c == ';' {
            seq!['\\', c]
        } else if c == '\n' {
            seq!['\\', 'n']
        } else {
            seq![c]
        },
{
    reveal_strlit("\\\\");
    reveal_strlit("\\n");
    reveal_strlit("\\,");
    reveal_strlit("\\;");
    assert(s.push(c).drop_last() =~= s);
    assert("\\\\"@ =~= seq!['\\', '\\']);
    assert("\\n"@ =~= seq!['\\', 'n']);
    assert("\\,"@ =~= seq!['\\', ',']);
    assert("\\;"@ =~= seq!['\\', ';']);
}

/// Line endings are made CRLF one by one: a CRLF stays, a lone line feed and a lone carriage
/// return become one, and all else stays.
pub proof fn law_line_endings_one_by_one(s: Seq<char>, c: char)
    ensures
        crlf(Seq::empty()) == Seq::<char>::empty(),
        c != '\r' && c != '\n' ==> crlf(seq![c] + s) == seq![c] + crlf(s),
        crlf(seq!['\n'] + s) == seq!['\r', '\n'] + crlf(s),
        crlf(seq!['\r', '\n'] + s) == seq!['\r', '\n'] + crlf(s),
        s.len() == 0 || s[0] != '\n' ==> crlf(seq!['\r'] + s) == seq!['\r', '\n'] + crlf(s),
{
    assert((seq![c] + s).skip(1) =~= s);
    assert((seq!['\n'] + s).skip(1) =~= s);
    assert((seq!['\r'] + s).skip(1) =~= s);
    assert((seq!['\r', '\n'] + s).skip(2) =~= s);
}

/// The parameters of a due date: a date without a time of day is marked as one.
pub proof fn law_due_parameters(due: Seq<char>)
    ensures
        due.contains('T') ==> due_params(due).len() == 0,
        !due.contains('T') ==> due_params(due) == ";VALUE=DATE"@,
{
    reveal_strlit("T");
    if has_sub(due, "T"@) {
        let i = choose|i: int| stands_at(due, "T"@, i);
        assert(due.subrange(i, i + 1)[0] == 'T');
        assert(due[i] == 'T');
    }
    if due.contains('T') {
        let i = choose|i: int| 0 <= i < due.len() && due[i] == 'T';
        assert(due.subrange(i, i + 1) =~= "T"@);
        assert(stands_at(due, "T"@, i));
    }
}

// --- Edits and toggles ---

/// A mutation by the name of its property alone.
pub open spec fn names(key: Seq<char>) -> MutationV {
    MutationV { key, params: Seq::empty(), value: None }
}

/// The mutations name the same properties.
pub open spec fn same_keys(a: Seq<MutationV>, b: Seq<MutationV>) -> bool {
    a.len() == b.len() && forall|j: int| 0 <= j < a.len() ==> (#[trigger] a[j]).key == b[j].key
}

proof fn lemma_same_hit(line: Seq<char>, a: Seq<MutationV>, b: Seq<MutationV>, j: nat)
    requires
        same_keys(a, b),
        j <= a.len(),
    ensures
        first_hit(line, a, j) == first_hit(line, b, j),
    decreases a.len() - j,
{
    if j < a.len() {
        assert(a[j as int].key == b[j as int].key);
        lemma_same_hit(line, a, b, j + 1);
    }
}

proof fn lemma_same_after(a: Seq<MutationV>, b: Seq<MutationV>, lines: Seq<Seq<char>>)
    requires
        same_keys(a, b),
    ensures
        after_lines(outset(), a, lines) == after_lines(outset(), b, lines),
        crate::rewrite_laws::others(outset(), a, lines) == crate::rewrite_laws::others(
            outset(),
            b,
            lines,
        ),
    decreases lines.len(),
{
    if lines.len() > 0 {
        lemma_same_after(a, b, lines.drop_last());
        let line = lines.last();
        lemma_same_hit(bare_line(line), a, b, 0);
        let hit = first_hit(bare_line(line), a, 0) as int;
        if hit < a.len() {
            assert(a[hit].key == b[hit].key);
        }
    }
}

/// An edit that gives no due date touches the summary and the two stamps alone: all other
/// lines, those of the due date and of the status among them, stay in their order.
pub proof fn law_edit_without_due_touches(text: Seq<char>, summary: Seq<char>, now: Seq<char>)
    requires
        no_return(summary),
        one_line(now),
    ensures
        ({
            let touched = seq![names("SUMMARY"@), names("DTSTAMP"@), names("LAST-MODIFIED"@)];
            other_lines(edited(text, summary, None, now), touched) == other_lines(
                crlf(text),
                touched,
            )
        }),
{
    let touched = seq![names("SUMMARY"@), names("DTSTAMP"@), names("LAST-MODIFIED"@)];
    let muts = edit_mutations(summary, None, now);
    law_edit_mutations_plain(summary, None, now);
    law_other_lines_verbatim(crlf(text), muts);
    assert(same_keys(touched, muts));
    lemma_same_after(touched, muts, lines_inclusive(crlf(text)));
    lemma_same_after(touched, muts, lines_inclusive(edited(text, summary, None, now)));
}

/// An edit that gives a due date touches that and the summary and the two stamps alone.
pub proof fn law_edit_with_due_touches(
    text: Seq<char>,
    summary: Seq<char>,
    due: Seq<char>,
    now: Seq<char>,
)
    requires
        no_return(summary),
        no_return(due),
        one_line(now),
    ensures
        ({
            let touched = seq![
                names("SUMMARY"@),
                names("DTSTAMP"@),
                names("LAST-MODIFIED"@),
                names("DUE"@),
            ];
            let new = edited(text, summary, Some(due), now);
            &&& other_lines(new, touched) == other_lines(crlf(text), touched)
            &&& due.len() > 0 ==> {
                &&& forall|i: int| #[trigger]
                    todo_ends_at(new, i) ==> todo_reads(new, i, due_line_of(due))
                &&& only_reads(new, "DUE"@, due_line_of(due))
            }
            &&& due.len() == 0 ==> lacks_property(new, "DUE"@)
        }),
{
    let touched = seq![
        names("SUMMARY"@),
        names("DTSTAMP"@),
        names("LAST-MODIFIED"@),
        names("DUE"@),
    ];
    let muts = edit_mutations(summary, Some(due), now);
    law_edit_mutations_plain(summary, Some(due), now);
    law_other_lines_verbatim(crlf(text), muts);
    assert(same_keys(touched, muts));
    lemma_same_after(touched, muts, lines_inclusive(crlf(text)));
    lemma_same_after(touched, muts, lines_inclusive(edited(text, summary, Some(due), now)));
    law_edit_sets_due(text, summary, due, now);
    law_due_parameters(due);
    reveal_strlit("DUE");
    reveal_strlit(":");
    reveal_strlit(";VALUE=DATE");
    reveal_strlit("DUE:");
    reveal_strlit("DUE;VALUE=DATE:");
    let line = "DUE"@ + due_params(due) + ":"@ + ical_escaped(due);
    if due.contains('T') {
        let i = choose|i: int| 0 <= i < due.len() && due[i] == 'T';
        assert(due[i] == 'T');
        assert(line =~= due_line_of(due));
    } else {
        assert forall|i: int| 0 <= i < due.len() implies #[trigger] due[i] != 'T' by {}
        assert(line =~= due_line_of(due));
    }
}

/// A toggle touches the status, the time and the percentage of completion, and the two
/// stamps alone. Both stamps are set to the time.
pub proof fn law_toggle_touches(text: Seq<char>, now: Seq<char>)
    requires
        one_line(now),
        toggled(text, now) is Ok,
    ensures
        ({
            let touched = seq![
                names("DTSTAMP"@),
                names("LAST-MODIFIED"@),
                names("STATUS"@),
                names("COMPLETED"@),
                names("PERCENT-COMPLETE"@),
            ];
            let new = toggled(text, now)->Ok_0.0;
            &&& other_lines(new, touched) == other_lines(crlf(text), touched)
            &&& forall|i: int| #[trigger]
                todo_ends_at(new, i) ==> todo_reads(new, i, "DTSTAMP"@ + ":"@ + now) && todo_reads(
                    new,
                    i,
                    "LAST-MODIFIED"@ + ":"@ + now,
                )
            &&& only_reads(new, "DTSTAMP"@, "DTSTAMP"@ + ":"@ + now)
            &&& only_reads(new, "LAST-MODIFIED"@, "LAST-MODIFIED"@ + ":"@ + now)
        }),
{
    let touched = seq![
        names("DTSTAMP"@),
        names("LAST-MODIFIED"@),
        names("STATUS"@),
        names("COMPLETED"@),
        names("PERCENT-COMPLETE"@),
    ];
    let t = toggled(text, now)->Ok_0;
    let muts = toggle_mutations(t.2, now);
    law_toggle_mutations_plain(t.2, now);
    law_other_lines_verbatim(crlf(text), muts);
    assert(same_keys(touched, muts));
    lemma_same_after(touched, muts, lines_inclusive(crlf(text)));
    lemma_same_after(touched, muts, lines_inclusive(t.0));
    lemma_is_set(crlf(text), muts, 0);
    lemma_is_set(crlf(text), muts, 1);
    assert(property_text(muts[0]) =~= "DTSTAMP"@ + ":"@ + now);
    assert(property_text(muts[1]) =~= "LAST-MODIFIED"@ + ":"@ + now);
}

/// The text that a queued toggle sends has the status that the cache shows: completed where
/// the row is, and that it needs action where the row does.
pub proof fn law_sent_toggle_is_shown(
    text: Seq<char>,
    status: Option<Seq<char>>,
    now: Seq<char>,
)
    requires
        one_line(now),
    ensures
        ({
            let sent = with_change(text, status, ChangeV::Toggle, now);
            &&& status == Some("completed"@) ==> {
                &&& forall|i: int| #[trigger]
                    todo_ends_at(sent, i) ==> todo_reads(sent, i, "STATUS"@ + ":"@ + "COMPLETED"@)
                &&& only_reads(sent, "STATUS"@, "STATUS"@ + ":"@ + "COMPLETED"@)
            }
            &&& status == Some("needs-action"@) ==> {
                &&& forall|i: int| #[trigger]
                    todo_ends_at(sent, i) ==> todo_reads(
                        sent,
                        i,
                        "STATUS"@ + ":"@ + "NEEDS-ACTION"@,
                    )
                &&& only_reads(sent, "STATUS"@, "STATUS"@ + ":"@ + "NEEDS-ACTION"@)
            }
        }),
{
    reveal_strlit("completed");
    reveal_strlit("needs-action");
    assert("completed"@.len() != "needs-action"@.len());
    let to = toggle_goal(status);
    law_with_toggle_has_toggle(text, to, now);
}

/// What was queued reads back: the summary and the due date are the strings of those names in
/// the payload.
pub proof fn law_payload_is_read(payload: Seq<char>, top: JsonTopV)
    requires
        json_top(payload) == Ok::<JsonTopV, Seq<char>>(top),
    ensures
        forall|v: Seq<char>| #[trigger]
            tells(top, "summary"@, v) ==> payload_summary(Some(payload)) == Some(v),
        forall|v: Seq<char>| #[trigger]
            tells(top, "due"@, v) ==> payload_due(Some(payload)) == Some(v),
        is_silent(top, "summary"@) ==> payload_summary(Some(payload)) is None,
        is_silent(top, "due"@) ==> payload_due(Some(payload)) is None,
{
    crate::settings_laws::lemma_string(top, "summary"@, Seq::empty());
    crate::settings_laws::lemma_string(top, "due"@, Seq::empty());
}

/// An operation changes the text of its task where it is a toggle, or an edit with a summary:
/// that edit has the summary and the due date of the payload.
pub proof fn law_change_of_operation(op: PendingOpV)
    ensures
        match change_of(op) {
            Some(ChangeV::Toggle) => op.op_type == "toggle"@,
            Some(ChangeV::Edit { summary, due }) => op.op_type == "edit"@ && payload_summary(
                op.payload,
            ) == Some(summary) && payload_due(op.payload) == due,
            None => op.op_type != "toggle"@ && (op.op_type == "edit"@ ==> payload_summary(
                op.payload,
            ) is None),
        },
{
}

/// A change that is made again on a newer text is made on that text: a toggle flips its
/// status, and an edit sets its summary and due date.
pub proof fn law_change_made_again(
    text: Seq<char>,
    summary: Seq<char>,
    due: Option<Seq<char>>,
    now: Seq<char>,
)
    ensures
        match toggled(text, now) {
            Ok(t) => reapplied(ChangeV::Toggle, text, now) == Ok::<
                Seq<char>,
                crate::failure::FailureV,
            >(t.0),
            Err(_) => reapplied(ChangeV::Toggle, text, now) is Err,
        },
        reapplied(ChangeV::Edit { summary, due }, text, now) == Ok::<
            Seq<char>,
            crate::failure::FailureV,
        >(edited(text, summary, due, now)),
{
}

// --- Lines ---

/// The line is `words` and a line end.
pub open spec fn is_line_of(line: Seq<char>, words: Seq<char>) -> bool {
    line == words + seq!['\n'] || line == words + seq!['\r', '\n']
}

/// The lines end inside a VTODO: one begins in them, and it is not ended.
pub open spec fn ends_inside(lines: Seq<Seq<char>>) -> bool {
    exists|b: int|
        {
            &&& 0 <= b < lines.len()
            &&& is_line_of(#[trigger] lines[b], "BEGIN:VTODO"@)
            &&& forall|j: int|
                b < j < lines.len() ==> bare_line(#[trigger] lines[j]) != "END:VTODO"@
        }
}

/// The line continues the one before it.
pub open spec fn continues(line: Seq<char>) -> bool {
    line.len() > 0 && (line[0] == ' ' || line[0] == '\t')
}

/// The line holds the property `key`.
pub open spec fn is_line_with(line: Seq<char>, key: Seq<char>) -> bool {
    &&& line.len() > key.len()
    &&& line.take(key.len() as int) == key
    &&& line[key.len() as int] == ':' || line[key.len() as int] == ';'
}

proof fn lemma_trim_range(s: Seq<char>, c: char) -> (n: int)
    ensures
        0 <= n <= s.len(),
        trim_end_char(s, c) == s.take(n),
        forall|i: int| n <= i < s.len() ==> #[trigger] s[i] == c,
        n > 0 ==> s[n - 1] != c,
    decreases s.len(),
{
    if s.len() > 0 && s.last() == c {
        let d = s.drop_last();
        let n = lemma_trim_range(d, c);
        assert(d.take(n) =~= s.take(n));
        assert forall|i: int| n <= i < s.len() implies #[trigger] s[i] == c by {
            if i < d.len() {
                assert(d[i] == s[i]);
            }
        }
        n
    } else {
        assert(s.take(s.len() as int) =~= s);
        s.len() as int
    }
}

/// What stands before a line end is in the bare line.
proof fn lemma_bare(line: Seq<char>) -> (n: int)
    ensures
        0 <= n <= line.len(),
        bare_line(line) == line.take(n),
        forall|i: int| n <= i < line.len() ==> #[trigger] line[i] == '\n' || line[i] == '\r',
{
    let a = lemma_trim_range(line, '\n');
    let t = trim_end_char(line, '\n');
    let b = lemma_trim_range(t, '\r');
    assert(t.take(b) =~= line.take(b));
    assert forall|i: int| b <= i < line.len() implies #[trigger] line[i] == '\n' || line[i]
        == '\r' by {
        if i < a {
            assert(t[i] == line[i]);
        }
    }
    b
}

proof fn lemma_inside(lines: Seq<Seq<char>>, muts: Seq<MutationV>)
    requires
        ends_inside(lines),
    ensures
        after_lines(outset(), muts, lines).inside,
    decreases lines.len(),
{
    let b = choose|b: int|
        {
            &&& 0 <= b < lines.len()
            &&& is_line_of(#[trigger] lines[b], "BEGIN:VTODO"@)
            &&& forall|j: int|
                b < j < lines.len() ==> bare_line(#[trigger] lines[j]) != "END:VTODO"@
        };
    let front = lines.drop_last();
    reveal_strlit("BEGIN:VTODO");
    reveal_strlit("END:VTODO");
    assert("BEGIN:VTODO"@.len() != "END:VTODO"@.len());
    if b == lines.len() - 1 {
        let line = lines[b];
        let n = lemma_bare(line);
        let w = "BEGIN:VTODO"@;
        assert(n >= w.len()) by {
            if n < w.len() {
                assert(line[w.len() - 1] == 'O');
            }
        }
        lemma_bare_of(line, w);
        assert(begins_todo(line));
    } else {
        assert(front[b] == lines[b]);
        assert forall|j: int| b < j < front.len() implies bare_line(#[trigger] front[j])
            != "END:VTODO"@ by {
            assert(front[j] == lines[j]);
        }
        assert(ends_inside(front));
        lemma_inside(front, muts);
        assert(bare_line(lines[lines.len() - 1]) != "END:VTODO"@);
    }
}

/// The bare line of words with a line end is the words.
proof fn lemma_bare_of(line: Seq<char>, words: Seq<char>)
    requires
        is_line_of(line, words),
        words.len() > 0,
        words.last() != '\n',
        words.last() != '\r',
    ensures
        bare_line(line) == words,
{
    if line == words + seq!['\n'] {
        assert(line.drop_last() =~= words);
        assert(trim_end_char(line, '\n') == trim_end_char(words, '\n'));
        assert(trim_end_char(words, '\n') == words);
    } else {
        let more = words + seq!['\r'];
        assert(line.drop_last() =~= more);
        assert(line.last() == '\n');
        assert(trim_end_char(line, '\n') == trim_end_char(more, '\n'));
        assert(more.last() == '\r');
        assert(trim_end_char(more, '\n') == more);
        assert(more.drop_last() =~= words);
        assert(trim_end_char(more, '\r') == trim_end_char(words, '\r'));
    }
    assert(trim_end_char(words, '\r') == words);
}

/// A line that continues another is neither the beginning nor the end of a VTODO.
proof fn lemma_continues(line: Seq<char>)
    requires
        continues(line),
    ensures
        bare_line(line) != "BEGIN:VTODO"@,
        bare_line(line) != "END:VTODO"@,
{
    let n = lemma_bare(line);
    reveal_strlit("BEGIN:VTODO");
    reveal_strlit("END:VTODO");
    assert("BEGIN:VTODO"@[0] == 'B' && "END:VTODO"@[0] == 'E');
    if n > 0 {
        assert(bare_line(line)[0] == line[0]);
    }
}

/// A line with a property holds it, and is neither the beginning nor the end of a VTODO.
proof fn lemma_line_with(line: Seq<char>, key: Seq<char>)
    requires
        plain_key(key),
        is_line_with(line, key),
    ensures
        holds_property(bare_line(line), key),
        bare_line(line) != "BEGIN:VTODO"@,
        bare_line(line) != "END:VTODO"@,
        !folded(line),
{
    let n = lemma_bare(line);
    let k = key.len() as int;
    assert(n > k);
    let bare = bare_line(line);
    assert(bare.subrange(0, k) =~= line.take(k));
    assert(stands_at(bare, key, 0));
    assert(bare[k] == line[k]);
    assert(line.take(k)[0] == line[0]);
    reveal_strlit("BEGIN:VTODO");
    reveal_strlit("END:VTODO");
    reveal_strlit("BEGIN");
    reveal_strlit("END");
    if bare == "BEGIN:VTODO"@ {
        assert(bare.subrange(0, k) == key);
        if k < 5 {
            assert(bare[k] != ':' && bare[k] != ';');
        } else if k > 5 {
            assert(key[5] == bare.subrange(0, k)[5]);
        } else {
            assert(key =~= "BEGIN"@);
        }
    }
    if bare == "END:VTODO"@ {
        assert(bare.subrange(0, k) == key);
        if k < 3 {
            assert(bare[k] != ':' && bare[k] != ';');
        } else if k > 3 {
            assert(key[3] == bare.subrange(0, k)[3]);
        } else {
            assert(key =~= "END"@);
        }
    }
}

/// The lines that continue a property to change are dropped.
proof fn lemma_folds_go(p: Place, muts: Seq<MutationV>, folds: Seq<Seq<char>>)
    requires
        p.inside,
        p.named,
        forall|i: int| 0 <= i < folds.len() ==> continues(#[trigger] folds[i]),
    ensures
        rewritten(p, muts, folds) == Seq::<Seq<char>>::empty(),
        after_lines(p, muts, folds) == p,
    decreases folds.len(),
{
    if folds.len() > 0 {
        let front = folds.drop_last();
        assert forall|i: int| 0 <= i < front.len() implies continues(#[trigger] front[i]) by {
            assert(front[i] == folds[i]);
        }
        lemma_folds_go(p, muts, front);
        let line = folds.last();
        assert(continues(folds[folds.len() - 1]));
        lemma_continues(line);
        assert(Seq::<Seq<char>>::empty() + Seq::<Seq<char>>::empty()
            =~= Seq::<Seq<char>>::empty());
        assert(after_line(p, muts, line) == p);
    }
}

/// The lines are those of some text, each with its line end but perhaps the last.
proof fn lemma_cut(lines: Seq<Seq<char>>, muts: Seq<MutationV>)
    requires
        text_lines(lines),
    ensures
        mutated(joined(lines), muts) == joined(rewritten(outset(), muts, lines)),
{
    law_lines_cut_again(lines);
}

/// What a property was set to before makes no difference: the text becomes the same whether
/// its line in a VTODO had an old value, with any lines that continue it, or has the new one
/// already. No line that continued an old value is left.
pub proof fn law_old_value_is_immaterial(
    before: Seq<Seq<char>>,
    old: Seq<char>,
    folds: Seq<Seq<char>>,
    after: Seq<Seq<char>>,
    m: MutationV,
)
    requires
        ended_lines(before),
        ended_line(old),
        ended_lines(folds),
        text_lines(after),
        plain_mutation(m),
        m.value is Some,
        ends_inside(before),
        is_line_with(old, m.key),
        forall|i: int| 0 <= i < folds.len() ==> continues(#[trigger] folds[i]),
    ensures
        ({
            let end = if old.len() > 1 && old[old.len() - 2] == '\r' {
                seq!['\r', '\n']
            } else {
                seq!['\n']
            };
            let new = m.key + m.params + seq![':'] + m.value->Some_0 + end;
            mutated(joined(before + seq![old] + folds + after), seq![m]) == mutated(
                joined(before + seq![new] + after),
                seq![m],
            )
        }),
{
    let muts = seq![m];
    let end = if old.len() > 1 && old[old.len() - 2] == '\r' {
        seq!['\r', '\n']
    } else {
        seq!['\n']
    };
    let new = m.key + m.params + seq![':'] + m.value->Some_0 + end;
    let p = after_lines(outset(), muts, before);
    lemma_inside(before, muts);
    lemma_line_with(old, m.key);
    lemma_new_line(m, old, new, end);
    assert(first_hit(bare_line(old), muts, 0) == 0);
    assert(first_hit(bare_line(new), muts, 0) == 0);
    let q = Place { inside: true, named: true, met: p.met.insert(m.key) };
    assert(after_line(p, muts, old) == q);
    assert(after_line(p, muts, new) == q);
    assert(rewritten_line(p, muts, old) == seq![new]);
    assert(rewritten_line(p, muts, new) == seq![new]);
    lemma_pass_one(p, muts, old);
    lemma_pass_one(p, muts, new);
    lemma_folds_go(q, muts, folds);
    let a = before + seq![old];
    let b = a + folds;
    let c = before + seq![new];
    lemma_pass_add(outset(), muts, before, seq![old]);
    lemma_pass_add(outset(), muts, a, folds);
    lemma_pass_add(outset(), muts, b, after);
    lemma_pass_add(outset(), muts, before, seq![new]);
    lemma_pass_add(outset(), muts, c, after);
    assert(rewritten(outset(), muts, b) =~= rewritten(outset(), muts, a));
    assert(rewritten(outset(), muts, b + after) == rewritten(outset(), muts, c + after));
    lemma_text_lines(b, after);
    lemma_text_lines(c, after);
    lemma_cut(b + after, muts);
    lemma_cut(c + after, muts);
}

proof fn lemma_text_lines(a: Seq<Seq<char>>, b: Seq<Seq<char>>)
    requires
        ended_lines(a),
        text_lines(b),
    ensures
        text_lines(a + b),
{
    let all = a + b;
    assert forall|i: int| 0 <= i < all.len() implies line_like(#[trigger] all[i]) by {
        if i < a.len() {
            assert(all[i] == a[i]);
            assert(ended_line(a[i]));
        } else {
            assert(all[i] == b[i - a.len()]);
        }
    }
    assert forall|i: int| 0 <= i < all.len() - 1 implies ended_line(#[trigger] all[i]) by {
        if i < a.len() {
            assert(all[i] == a[i]);
        } else {
            assert(all[i] == b[i - a.len()]);
        }
    }
}

proof fn lemma_new_line(m: MutationV, old: Seq<char>, new: Seq<char>, end: Seq<char>)
    requires
        plain_mutation(m),
        m.value is Some,
        ended_line(old),
        is_line_with(old, m.key),
        end == if old.len() > 1 && old[old.len() - 2] == '\r' {
            seq!['\r', '\n']
        } else {
            seq!['\n']
        },
        new == m.key + m.params + seq![':'] + m.value->Some_0 + end,
    ensures
        ended_line(new),
        line_end(old) == end,
        line_end(new) == end,
        new == property_text(m) + end,
        holds_property(bare_line(new), m.key),
        bare_line(new) != "BEGIN:VTODO"@,
        bare_line(new) != "END:VTODO"@,
        !folded(new),
{
    reveal_strlit("\r\n");
    reveal_strlit("\n");
    reveal_strlit(":");
    let words = property_text(m);
    assert(":"@ =~= seq![':']);
    assert(new =~= words + end);
    assert("\r\n"@ =~= seq!['\r', '\n']);
    assert("\n"@ =~= seq!['\n']);
    let v = m.value->Some_0;
    let k = m.key.len() as int;
    assert forall|i: int| 0 <= i < words.len() implies #[trigger] words[i] != '\n' && words[i]
        != '\r' by {
        if i < k {
            assert(words[i] == m.key[i]);
        } else if i < k + m.params.len() {
            assert(words[i] == m.params[i - k]);
        } else if i > k + m.params.len() {
            assert(words[i] == v[i - k - m.params.len() - 1]);
        }
    }
    assert forall|i: int| 0 <= i < new.len() - 1 implies #[trigger] new[i] != '\n' by {
        if i < words.len() {
            assert(new[i] == words[i]);
        }
    }
    assert(new.take(k) =~= m.key);
    if m.params.len() > 0 {
        assert(new[k] == m.params[0]);
    } else {
        assert(new[k] == ':');
    }
    lemma_line_with(new, m.key);
    // the line ends
    let n = old.len();
    if n > 1 && old[n - 2] == '\r' {
        assert(old.subrange(n - 2, n as int) =~= "\r\n"@);
    } else {
        if n >= 2 {
            assert(old.subrange(n - 2, n as int)[0] == old[n - 2]);
        }
    }
    let l = new.len();
    if end == seq!['\r', '\n'] {
        assert(new.subrange(l - 2, l as int) =~= "\r\n"@);
    } else {
        assert(new[l - 2] == words[words.len() - 1]);
        assert(new.subrange(l - 2, l as int)[0] == new[l - 2]);
    }
}

/// Whether the line before belonged to a property to change makes no difference to lines of
/// which the first continues nothing.
proof fn lemma_named_forgotten(
    inside: bool,
    met: Set<Seq<char>>,
    muts: Seq<MutationV>,
    lines: Seq<Seq<char>>,
)
    requires
        lines.len() > 0 ==> !continues(lines[0]),
    ensures
        ({
            let p = Place { inside, named: true, met };
            let q = Place { inside, named: false, met };
            &&& rewritten(p, muts, lines) == rewritten(q, muts, lines)
            &&& lines.len() > 0 ==> after_lines(p, muts, lines) == after_lines(q, muts, lines)
        }),
    decreases lines.len(),
{
    let p = Place { inside, named: true, met };
    let q = Place { inside, named: false, met };
    if lines.len() == 1 {
        let line = lines[0];
        assert(lines =~= seq![line]);
        lemma_pass_one(p, muts, line);
        lemma_pass_one(q, muts, line);
        assert(after_line(p, muts, line) == after_line(q, muts, line));
        assert(rewritten_line(p, muts, line) == rewritten_line(q, muts, line));
    } else if lines.len() > 1 {
        let front = lines.drop_last();
        assert(front[0] == lines[0]);
        lemma_named_forgotten(inside, met, muts, front);
    }
}

/// A line that has nothing to do with the property passes as it is, and makes no difference
/// to what becomes of the lines around it.
pub proof fn law_other_line_passes(
    before: Seq<Seq<char>>,
    line: Seq<char>,
    after: Seq<Seq<char>>,
    m: MutationV,
)
    requires
        ended_lines(before),
        ended_line(line),
        text_lines(after),
        plain_mutation(m),
        !continues(line),
        after.len() > 0 ==> !continues(after[0]),
        bare_line(line) != "BEGIN:VTODO"@,
        bare_line(line) != "END:VTODO"@,
        !is_line_with(line, m.key),
    ensures
        exists|a: Seq<char>, b: Seq<char>|
            {
                &&& mutated(joined(before + after), seq![m]) == #[trigger] (a + b)
                &&& mutated(joined(before + seq![line] + after), seq![m]) == a + line + b
            },
{
    let muts = seq![m];
    let p = after_lines(outset(), muts, before);
    assert(!holds_property(bare_line(line), m.key)) by {
        let n = lemma_bare(line);
        let bare = bare_line(line);
        let k = m.key.len() as int;
        if holds_property(bare, m.key) {
            assert(bare.subrange(0, k) =~= line.take(k));
            assert(bare[k] == line[k]);
        }
    }
    assert(first_hit(bare_line(line), muts, 1) == 1);
    assert(first_hit(bare_line(line), muts, 0) == 1);
    assert(!is_named(p, muts, line));
    let q = Place { inside: p.inside, named: false, met: p.met };
    assert(after_line(p, muts, line) == q);
    assert(rewritten_line(p, muts, line) == seq![line]);
    lemma_pass_one(p, muts, line);
    lemma_named_forgotten(p.inside, p.met, muts, after);
    let rest = rewritten(q, muts, after);
    assert(rewritten(p, muts, after) == rest) by {
        assert(p == q || p == Place { inside: p.inside, named: true, met: p.met });
    }
    let front = rewritten(outset(), muts, before);
    lemma_pass_add(outset(), muts, before, after);
    lemma_pass_add(outset(), muts, before, seq![line]);
    lemma_pass_add(outset(), muts, before + seq![line], after);
    lemma_text_lines(before, after);
    lemma_text_lines(before + seq![line], after);
    lemma_cut(before + after, muts);
    lemma_cut(before + seq![line] + after, muts);
    lemma_joined_add(front, rest);
    lemma_joined_add(front, seq![line]);
    lemma_joined_add(front + seq![line], rest);
    lemma_joined_one(line);
    let a = joined(front);
    let b = joined(rest);
    assert(mutated(joined(before + after), muts) == a + b);
    assert(mutated(joined(before + seq![line] + after), muts) == a + line + b);
}

/// The text that a queued edit sends has the summary of the edit in every VTODO, and the due
/// date where the edit gives one: none where that is empty.
pub proof fn law_sent_edit_is_shown(
    text: Seq<char>,
    status: Option<Seq<char>>,
    summary: Seq<char>,
    due: Option<Seq<char>>,
    now: Seq<char>,
)
    requires
        no_return(summary),
        due is Some ==> no_return(due->Some_0),
        one_line(now),
    ensures
        ({
            let sent = with_change(text, status, ChangeV::Edit { summary, due }, now);
            let line = "SUMMARY"@ + ":"@ + ical_escaped(summary);
            &&& forall|i: int| #[trigger] todo_ends_at(sent, i) ==> todo_reads(sent, i, line)
            &&& only_reads(sent, "SUMMARY"@, line)
            &&& due is Some && due->Some_0.len() == 0 ==> lacks_property(sent, "DUE"@)
            &&& due is Some && due->Some_0.len() > 0 ==> only_reads(
                sent,
                "DUE"@,
                due_line_of(due->Some_0),
            ) && forall|i: int| #[trigger]
                todo_ends_at(sent, i) ==> todo_reads(sent, i, due_line_of(due->Some_0))
        }),
{
    law_with_edit_has_edit(text, summary, due, now);
    if due is Some && due->Some_0.len() > 0 {
        let d = due->Some_0;
        law_due_parameters(d);
        reveal_strlit("DUE");
        reveal_strlit(":");
        reveal_strlit(";VALUE=DATE");
        reveal_strlit("DUE:");
        reveal_strlit("DUE;VALUE=DATE:");
        let line = "DUE"@ + due_params(d) + ":"@ + ical_escaped(d);
        if d.contains('T') {
            let i = choose|i: int| 0 <= i < d.len() && d[i] == 'T';
            assert(d[i] == 'T');
        } else {
            assert forall|i: int| 0 <= i < d.len() implies #[trigger] d[i] != 'T' by {}
        }
        assert(line =~= due_line_of(d));
    }
}

/// A toggle starts from the status of the text, with its line ends made CRLF, and is refused
/// just where that has none. It leads to completed, or from there to needing action.
pub proof fn law_toggle_starts_from(text: Seq<char>, now: Seq<char>)
    ensures
        match current_status(crlf(text)) {
            Ok(from) => toggled(text, now) matches Ok(t) && t.1 == from && t.2 == if from
                == TaskStatus::Completed {
                TaskStatus::NeedsAction
            } else {
                TaskStatus::Completed
            },
            Err(_) => toggled(text, now) is Err,
        },
{
}

/// The operation waits for the task: it was not given up, and is on the task of the list.
pub open spec fn is_waiting_for(op: PendingOpV, cal: Seq<char>, uid: Seq<char>) -> bool {
    op.errored == 0 && op.target_calendar_href == cal && op.target_uid == uid
}

/// The changes that wait for a task are brought into its text one by one, in the order of
/// the queue: one more operation brings its change in where it waits for the task and makes
/// one, and else nothing.
pub proof fn law_waiting_changes_one_by_one(
    text: Seq<char>,
    status: Option<Seq<char>>,
    ops: Seq<PendingOpV>,
    cal: Seq<char>,
    uid: Seq<char>,
    now: Seq<char>,
    n: nat,
)
    requires
        n < ops.len(),
    ensures
        with_waiting(text, status, ops, cal, uid, now, 0) == text,
        ({
            let before = with_waiting(text, status, ops, cal, uid, now, n);
            let after = with_waiting(text, status, ops, cal, uid, now, n + 1);
            let op = ops[n as int];
            &&& is_waiting_for(op, cal, uid) && change_of(op) is Some ==> after == with_change(
                before,
                status,
                change_of(op)->Some_0,
                now,
            )
            &&& !is_waiting_for(op, cal, uid) || change_of(op) is None ==> after == before
        }),
{
}

} // verus!
