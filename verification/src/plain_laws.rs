//! What holds of toggling a text of a plain shape: it stays one, and reads the new status.
use vstd::prelude::*;
use crate::ical::{
    additions, after_lines, bare_line, begins_todo, crlf, first_hit, folded, holds_property,
    is_named, line_end, outset, property_text, rewritten, rewritten_line, MutationV,
};
use crate::nesting::{is_name_char, is_property_line, name_width};
use crate::plain::{
    frames, in_todo, is_word, one_plain_todo, plain_property, shape_from, shape_step, status_reads,
    unbegun, Shape,
};
use crate::rewrite_laws::{
    crlf_line, inside_at, law_lines_lose_nothing, law_rewriting_keeps_crlf, lemma_inside_same,
    lemma_mutated_lines, one_line,
};
use crate::seqs::lemma_find_is;
use crate::task::{set_to, status_of, toggle_mutations, toggle_value, toggled, TaskStatus};
use crate::task_laws::{
    law_toggle_mutations_plain, lemma_is_set, only_reads, todo_ends_at, todo_reads,
};
use crate::text::{
    ascii_lower, ascii_upper, lemma_index_before, lemma_index_before_at, lines_inclusive,
    trim_end_char,
};
use crate::text_laws::{law_crlf_keeps_normal, law_crlf_normal};

verus! {

/// A line that ends in CRLF, without its ending.
proof fn lemma_bare(line: Seq<char>)
    requires
        crlf_line(line),
    ensures
        bare_line(line) == line.take(line.len() - 2),
        line == line.take(line.len() - 2) + "\r\n"@,
        line_end(line) == "\r\n"@,
{
    reveal_strlit("\r\n");
    let t = line.take(line.len() - 2);
    let u = line.drop_last();
    assert(line =~= t + "\r\n"@);
    assert(u.last() == '\r');
    assert(trim_end_char(u, '\n') == u);
    assert(trim_end_char(line, '\n') == u);
    assert(u.drop_last() =~= t);
    if t.len() > 0 {
        assert(t[t.len() - 1] != '\r');
    }
    assert(trim_end_char(t, '\r') == t);
    assert(trim_end_char(u, '\r') == t);
    assert(line.subrange(line.len() - 2, line.len() as int) =~= "\r\n"@);
}

/// The name in front of a line.
proof fn lemma_name_width(t: Seq<char>, n: int)
    requires
        0 <= n < t.len(),
        forall|i: int| 0 <= i < n ==> is_name_char(#[trigger] t[i]),
        !is_name_char(t[n]),
    ensures
        name_width(t) == n,
{
    let p = |c: char| !is_name_char(c);
    assert forall|i: int| 0 <= i < n implies !p(#[trigger] t[i]) by {}
    lemma_find_is(t, p, n as nat);
}

/// The lines that begin and end a to-do hold no property.
proof fn lemma_frames_no_property()
    ensures
        !is_property_line("BEGIN:VTODO"@),
        !is_property_line("END:VTODO"@),
{
    reveal_strlit("BEGIN:VTODO");
    reveal_strlit("END:VTODO");
    reveal_strlit("begin");
    reveal_strlit("end");
    lemma_name_width("BEGIN:VTODO"@, 5);
    lemma_name_width("END:VTODO"@, 3);
    assert(ascii_lower("BEGIN:VTODO"@.take(5)) =~= "begin"@);
    assert(ascii_lower("END:VTODO"@.take(3)) =~= "end"@);
}

/// A plain property is no line that begins or ends a to-do, nor one that continues another.
proof fn lemma_plain_property(line: Seq<char>)
    requires
        plain_property(line),
    ensures
        !begins_todo(line),
        bare_line(line) != "END:VTODO"@,
        line != "END:VTODO\r\n"@,
        !folded(line),
        line_end(line) == "\r\n"@,
{
    lemma_bare(line);
    lemma_frames_no_property();
    let t = line.take(line.len() - 2);
    reveal_strlit("END:VTODO\r\n");
    reveal_strlit("END:VTODO");
    assert("END:VTODO\r\n"@.take(9) =~= "END:VTODO"@);
    let p = |c: char| !is_name_char(c);
    crate::seqs::lemma_find(t, p, 0);
    assert(!p(t[0]));
    assert(t[0] == line[0]);
}

/// Whether a line of a text that fits begins a to-do.
proof fn lemma_begins(s: Shape, line: Seq<char>)
    requires
        shape_step(s, line).fits,
        !(s.todo is Here),
    ensures
        begins_todo(line) == (shape_step(s, line).todo is Here),
{
    reveal_strlit("BEGIN:VCALENDAR\r\n");
    reveal_strlit("BEGIN:VTODO\r\n");
    reveal_strlit("BEGIN:VTODO");
    reveal_strlit("BEGIN:VCALENDAR");
    reveal_strlit("\r\n");
    let full = "BEGIN:VTODO\r\n"@;
    assert(full =~= "BEGIN:VTODO"@ + "\r\n"@);
    if !s.begun {
        assert(line.take(15) =~= "BEGIN:VCALENDAR"@);
        assert(crlf_line(line));
        lemma_bare(line);
        assert("BEGIN:VCALENDAR"@.len() != "BEGIN:VTODO"@.len());
    } else if line == full {
        assert(line.take(11) =~= "BEGIN:VTODO"@);
        assert(crlf_line(line));
        lemma_bare(line);
    } else if plain_property(line) && !frames(line, "BEGIN:"@) && !frames(line, "END:"@) {
        lemma_plain_property(line);
    } else {
        lemma_bare(line);
        if begins_todo(line) {
            assert(line =~= full);
        }
    }
}

proof fn lemma_shape_add(s: Shape, a: Seq<Seq<char>>, b: Seq<Seq<char>>)
    ensures
        shape_from(s, a + b) == shape_from(shape_from(s, a), b),
    decreases b.len(),
{
    if b.len() == 0 {
        assert(a + b =~= a);
    } else {
        lemma_shape_add(s, a, b.drop_last());
        assert((a + b).drop_last() =~= a + b.drop_last());
        assert((a + b).last() == b.last());
    }
}

proof fn lemma_shape_one(s: Shape, line: Seq<char>)
    ensures
        shape_from(s, seq![line]) == shape_step(s, line),
        shape_from(s, Seq::empty()) == s,
{
    assert(seq![line].drop_last() =~= Seq::empty());
    assert(seq![line].last() == line);
}

/// What does not fit at first does not fit later.
proof fn lemma_fits_before(s: Shape, lines: Seq<Seq<char>>, i: int)
    requires
        0 <= i <= lines.len(),
        shape_from(s, lines).fits,
    ensures
        shape_from(s, lines.take(i)).fits,
    decreases lines.len(),
{
    if i < lines.len() {
        let front = lines.drop_last();
        lemma_fits_before(s, front, i);
        assert(front.take(i) =~= lines.take(i));
    } else {
        assert(lines.take(i) =~= lines);
    }
}

/// The lines that the mutations set are plain.
pub open spec fn sets_plain_lines(muts: Seq<MutationV>) -> bool {
    forall|j: int|
        0 <= j < muts.len() && (#[trigger] muts[j]).value is Some ==> plain_property(
            property_text(muts[j]) + "\r\n"@,
        )
}

/// Plain lines in the to-do change nothing of the shape.
proof fn lemma_additions_shape(s: Shape, muts: Seq<MutationV>, met: Set<Seq<char>>, n: nat)
    requires
        s.todo is Here,
        s.fits,
        sets_plain_lines(muts),
        n <= muts.len(),
    ensures
        shape_from(s, additions(muts, met, n)) == s,
    decreases n,
{
    let adds = additions(muts, met, n);
    if n > 0 {
        let m = muts[n - 1];
        let before = additions(muts, met, (n - 1) as nat);
        lemma_additions_shape(s, muts, met, (n - 1) as nat);
        if m.value is Some && !met.contains(m.key) {
            let line = property_text(m) + "\r\n"@;
            assert(plain_property(line));
            lemma_plain_property(line);
            assert(adds =~= before + seq![line]);
            lemma_shape_add(s, before, seq![line]);
            lemma_shape_one(s, line);
        }
    }
}

/// A rewriting that sets plain lines keeps the shape of a text, and it is inside a VTODO
/// where the shape says that the to-do is.
proof fn lemma_shape_pass(muts: Seq<MutationV>, lines: Seq<Seq<char>>)
    requires
        sets_plain_lines(muts),
        shape_from(unbegun(), lines).fits,
    ensures
        shape_from(unbegun(), rewritten(outset(), muts, lines)) == shape_from(unbegun(), lines),
        after_lines(outset(), muts, lines).inside == (shape_from(unbegun(), lines).todo is Here),
    decreases lines.len(),
{
    let o = outset();
    if lines.len() == 0 {
        assert(rewritten(o, muts, lines) =~= Seq::empty());
        assert(lines =~= Seq::empty());
    } else {
        let front = lines.drop_last();
        let line = lines.last();
        lemma_fits_before(unbegun(), lines, lines.len() - 1);
        assert(lines.take(lines.len() - 1) =~= front);
        lemma_shape_pass(muts, front);
        let s = shape_from(unbegun(), front);
        let here = after_lines(o, muts, front);
        let a = rewritten(o, muts, front);
        let e = rewritten_line(here, muts, line);
        lemma_shape_add(unbegun(), a, e);
        assert(rewritten(o, muts, lines) == a + e);
        lemma_shape_one(s, line);
        if s.todo is Here {
            if line == "END:VTODO\r\n"@ {
                reveal_strlit("END:VTODO\r\n");
                reveal_strlit("END:VTODO");
                assert(line.take(9) =~= "END:VTODO"@);
                assert(crlf_line(line));
                lemma_bare(line);
                let adds = additions(muts, here.met, muts.len());
                lemma_additions_shape(s, muts, here.met, muts.len());
                assert(e =~= adds + seq![line]);
                lemma_shape_add(s, adds, seq![line]);
            } else {
                lemma_plain_property(line);
                let hit = first_hit(bare_line(line), muts, 0);
                if is_named(here, muts, line) {
                    if muts[hit as int].value is Some {
                        let set = property_text(muts[hit as int]) + "\r\n"@;
                        assert(plain_property(set));
                        lemma_plain_property(set);
                        assert(e =~= seq![set]);
                        lemma_shape_one(s, set);
                    } else {
                        assert(e =~= Seq::empty());
                        lemma_shape_one(s, line);
                    }
                } else {
                    assert(e =~= seq![line]);
                }
            }
        } else {
            assert(e =~= seq![line]);
            lemma_begins(s, line);
        }
    }
}

/// The lines of a text that fits end in CRLF.
proof fn lemma_fitting_line(s: Shape, line: Seq<char>)
    requires
        shape_step(s, line).fits,
    ensures
        crlf_line(line),
{
    reveal_strlit("BEGIN:VCALENDAR\r\n");
    reveal_strlit("BEGIN:VTODO\r\n");
    reveal_strlit("END:VTODO\r\n");
}

/// Where the to-do of a text ends.
proof fn lemma_todo_end(lines: Seq<Seq<char>>) -> (e: int)
    requires
        shape_from(unbegun(), lines).todo is Behind,
    ensures
        0 <= e < lines.len(),
        lines[e] == "END:VTODO\r\n"@,
        shape_from(unbegun(), lines.take(e)).todo is Here,
    decreases lines.len(),
{
    let front = lines.drop_last();
    let s = shape_from(unbegun(), front);
    if s.todo is Behind {
        let e = lemma_todo_end(front);
        assert(front.take(e) =~= lines.take(e));
        assert(front[e] == lines[e]);
        e
    } else {
        assert(s.todo is Here);
        assert(lines.take(lines.len() - 1) =~= front);
        lines.len() - 1
    }
}

/// A line of a text that fits, in its to-do.
proof fn lemma_line_in_todo(text: Seq<char>, muts: Seq<MutationV>, i: int)
    requires
        one_plain_todo(text),
        sets_plain_lines(muts),
        0 <= i < lines_inclusive(text).len(),
    ensures
        inside_at(text, i) == in_todo(text, i),
        crlf_line(lines_inclusive(text)[i]),
        in_todo(text, i) && lines_inclusive(text)[i] != "END:VTODO\r\n"@ ==> plain_property(
            lines_inclusive(text)[i],
        ),
{
    let lines = lines_inclusive(text);
    let front = lines.take(i);
    let more = lines.take(i + 1);
    lemma_fits_before(unbegun(), lines, i);
    lemma_fits_before(unbegun(), lines, i + 1);
    lemma_shape_pass(muts, front);
    lemma_inside_same(muts, front);
    assert(more.drop_last() =~= front);
    assert(more.last() == lines[i]);
    lemma_fitting_line(shape_from(unbegun(), front), lines[i]);
}

/// The line of a property without parameters is plain.
proof fn lemma_set_is_plain(key: Seq<char>, value: Seq<char>)
    requires
        key.len() > 5,
        forall|i: int| 0 <= i < key.len() ==> is_name_char(#[trigger] key[i]),
        one_line(value),
    ensures
        plain_property(property_text(set_to(key, value)) + "\r\n"@),
{
    reveal_strlit(":");
    reveal_strlit("\r\n");
    reveal_strlit("begin");
    reveal_strlit("end");
    let t = property_text(set_to(key, value));
    let line = t + "\r\n"@;
    let n = key.len() as int;
    assert(t =~= key + ":"@ + value);
    assert(line.take(line.len() - 2) =~= t);
    assert forall|i: int| 0 <= i < t.len() implies #[trigger] t[i] != '\n' && t[i] != '\r' by {
        if i < n {
            assert(t[i] == key[i]);
            assert(is_name_char(key[i]));
        } else if i > n {
            assert(t[i] == value[i - n - 1]);
        }
    }
    assert(one_line(t));
    assert(crlf_line(line));
    assert forall|i: int| 0 <= i < n implies is_name_char(#[trigger] t[i]) by {
        assert(t[i] == key[i]);
    }
    assert(t[n] == ':');
    lemma_name_width(t, n);
    assert(t.take(n) =~= key);
    assert(ascii_lower(key).len() == key.len());
    assert forall|i: int| 0 <= i < n implies t[i] != ':' && t[i] != '"' by {
        assert(is_name_char(t[i]));
    }
    lemma_index_before_at(t, ':', n as nat);
    lemma_index_before(t, '"');
}

/// A toggle sets plain lines.
proof fn lemma_toggle_sets_plain(to: TaskStatus, now: Seq<char>)
    requires
        one_line(now),
    ensures
        sets_plain_lines(toggle_mutations(to, now)),
{
    reveal_strlit("DTSTAMP");
    reveal_strlit("LAST-MODIFIED");
    reveal_strlit("STATUS");
    reveal_strlit("COMPLETED");
    reveal_strlit("PERCENT-COMPLETE");
    reveal_strlit("NEEDS-ACTION");
    reveal_strlit("100");
    lemma_set_is_plain("DTSTAMP"@, now);
    lemma_set_is_plain("LAST-MODIFIED"@, now);
    lemma_set_is_plain("STATUS"@, toggle_value(to));
    lemma_set_is_plain("COMPLETED"@, now);
    lemma_set_is_plain("PERCENT-COMPLETE"@, "100"@);
    let m = toggle_mutations(to, now);
    assert(m[0] == set_to("DTSTAMP"@, now) && m[1] == set_to("LAST-MODIFIED"@, now) && m[2]
        == set_to("STATUS"@, toggle_value(to)));
}

/// A text of a plain shape ends in CRLF.
proof fn lemma_plain_ends(text: Seq<char>)
    requires
        one_plain_todo(text),
    ensures
        text.len() > 0 && text.last() == '\n',
{
    let lines = lines_inclusive(text);
    law_lines_lose_nothing(text);
    assert(lines.len() > 0);
    lemma_fitting_line(shape_from(unbegun(), lines.drop_last()), lines.last());
    let j = crate::ical::joined(lines.drop_last());
    assert(text == j + lines.last());
    assert(text[text.len() - 1] == lines.last()[lines.last().len() - 1]);
}

/// The words of a toggle's statuses.
proof fn lemma_toggle_words(to: TaskStatus)
    requires
        to is Completed || to is NeedsAction,
    ensures
        is_word(toggle_value(to)),
        status_of(toggle_value(to)) == to,
{
    reveal_strlit("COMPLETED");
    reveal_strlit("NEEDS-ACTION");
    reveal_strlit("IN-PROCESS");
    assert(ascii_upper("COMPLETED"@) =~= "COMPLETED"@);
    assert(ascii_upper("NEEDS-ACTION"@) =~= "NEEDS-ACTION"@);
    assert("COMPLETED"@[0] == 'C');
    assert("NEEDS-ACTION"@[0] == 'N');
    assert("IN-PROCESS"@[0] == 'I');
}

/// Every line of the status in the to-do of a plain text reads `v`.
proof fn lemma_status_lines(out: Seq<char>, muts: Seq<MutationV>, v: Seq<char>)
    requires
        one_plain_todo(out),
        sets_plain_lines(muts),
        only_reads(out, "STATUS"@, "STATUS:"@ + v),
    ensures
        forall|i: int|
            0 <= i < lines_inclusive(out).len() && in_todo(out, i) && holds_property(
                bare_line(#[trigger] lines_inclusive(out)[i]),
                "STATUS"@,
            ) ==> lines_inclusive(out)[i] == "STATUS:"@ + v + "\r\n"@,
{
    let lines = lines_inclusive(out);
    assert forall|i: int|
        0 <= i < lines.len() && in_todo(out, i) && holds_property(
            bare_line(#[trigger] lines[i]),
            "STATUS"@,
        ) implies lines[i] == "STATUS:"@ + v + "\r\n"@ by {
        lemma_line_in_todo(out, muts, i);
        lemma_bare(lines[i]);
        if lines[i] == "END:VTODO\r\n"@ {
            reveal_strlit("END:VTODO\r\n");
            reveal_strlit("STATUS");
            assert(bare_line(lines[i]).subrange(0, 6)[0] == 'E');
            assert("STATUS"@[0] == 'S');
        } else {
            lemma_plain_property(lines[i]);
        }
        assert(bare_line(lines[i]) == "STATUS:"@ + v);
    }
}

/// Some line in the to-do of a plain text reads the status `v`.
proof fn lemma_status_line(out: Seq<char>, muts: Seq<MutationV>, v: Seq<char>)
    requires
        one_plain_todo(out),
        sets_plain_lines(muts),
        forall|i: int| #[trigger]
            todo_ends_at(out, i) ==> todo_reads(out, i, "STATUS:"@ + v),
    ensures
        exists|i: int|
            0 <= i < lines_inclusive(out).len() && in_todo(out, i) && #[trigger] lines_inclusive(
                out,
            )[i] == "STATUS:"@ + v + "\r\n"@,
{
    let lines = lines_inclusive(out);
    let e = lemma_todo_end(lines);
    lemma_line_in_todo(out, muts, e);
    lemma_bare(lines[e]);
    reveal_strlit("END:VTODO\r\n");
    reveal_strlit("END:VTODO");
    assert(lines[e].take(9) =~= "END:VTODO"@);
    assert(todo_ends_at(out, e));
    let k = choose|k: int|
        #![trigger lines_inclusive(out)[k]]
        0 <= k < e && bare_line(lines_inclusive(out)[k]) == "STATUS:"@ + v && inside_at(out, k)
            && forall|q: int| k < q < e ==> !begins_todo(#[trigger] lines_inclusive(out)[q]);
    lemma_line_in_todo(out, muts, k);
    lemma_bare(lines[k]);
    assert(lines[k] == "STATUS:"@ + v + "\r\n"@);
}

/// A toggled text of a plain shape is one too. It reads the new status, and no other, and
/// keeps its CRLF endings; that status is the one that its word stands for.
pub proof fn law_toggled_reads_new_status(text: Seq<char>, now: Seq<char>)
    requires
        one_line(now),
        toggled(text, now) is Ok,
        one_plain_todo(crlf(text)),
    ensures
        ({
            let t = toggled(text, now)->Ok_0;
            &&& crlf(t.0) == t.0
            &&& one_plain_todo(t.0)
            &&& is_word(toggle_value(t.2))
            &&& status_reads(t.0, toggle_value(t.2))
            &&& status_of(toggle_value(t.2)) == t.2
        }),
{
    let body = crlf(text);
    let t = toggled(text, now)->Ok_0;
    let muts = toggle_mutations(t.2, now);
    let v = toggle_value(t.2);
    law_toggle_mutations_plain(t.2, now);
    lemma_toggle_sets_plain(t.2, now);
    law_crlf_normal(text);
    lemma_plain_ends(body);
    law_rewriting_keeps_crlf(body, muts);
    law_crlf_keeps_normal(t.0);
    lemma_mutated_lines(body, muts);
    lemma_shape_pass(muts, lines_inclusive(body));
    lemma_is_set(body, muts, 2);
    assert(muts[2] == set_to("STATUS"@, v));
    assert(property_text(muts[2]) =~= "STATUS:"@ + v) by {
        reveal_strlit("STATUS:");
        reveal_strlit("STATUS");
        reveal_strlit(":");
        assert("STATUS:"@ =~= "STATUS"@ + ":"@);
    }
    lemma_status_lines(t.0, muts, v);
    lemma_status_line(t.0, muts, v);
    lemma_toggle_words(t.2);
}

} // verus!
