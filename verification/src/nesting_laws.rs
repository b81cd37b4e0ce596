//! What holds of the bound on how deeply the components of a text nest.
use vstd::prelude::*;
use crate::nesting::{
    begin_depth, begins_before, is_name_char, is_property_line, name_width, nesting, opened_by,
    starts_end, unfolded,
};
use crate::seqs::lemma_find;
use crate::text::{ascii_lower, has_sub, lines_inclusive, stands_at};

verus! {

/// The line begins a component.
pub open spec fn opens(line: Seq<char>) -> bool {
    line.len() >= 6 && ascii_lower(line.take(6)) == "begin:"@
}

/// The line ends a component.
pub open spec fn closes(line: Seq<char>) -> bool {
    line.len() >= 4 && ascii_lower(line.take(4)) == "end:"@
}

/// How many of the lines begin a component.
pub open spec fn opened_in(lines: Seq<Seq<char>>) -> nat
    decreases lines.len(),
{
    if lines.len() == 0 {
        0
    } else {
        opened_in(lines.drop_last()) + if opens(lines.last()) {
            1nat
        } else {
            0nat
        }
    }
}

/// How many of the lines end a component.
pub open spec fn closed_in(lines: Seq<Seq<char>>) -> nat
    decreases lines.len(),
{
    if lines.len() == 0 {
        0
    } else {
        closed_in(lines.drop_last()) + if closes(lines.last()) {
            1nat
        } else {
            0nat
        }
    }
}

proof fn lemma_begins_grow(line: Seq<char>, n: nat)
    requires
        n >= 1,
    ensures
        begins_before(line, n) >= begins_before(line, 1),
    decreases n,
{
    if n > 1 {
        lemma_begins_grow(line, (n - 1) as nat);
    }
}

proof fn lemma_opens(line: Seq<char>, alone: bool)
    requires
        opens(line),
    ensures
        opened_by(line, alone) >= 1,
        !starts_end(line),
{
    reveal_strlit("begin:");
    reveal_strlit("begin");
    reveal_strlit("end:");
    let low = ascii_lower(line);
    let front = ascii_lower(line.take(6));
    assert(low.subrange(0, 6) =~= front);
    assert(stands_at(low, "begin:"@, 0));
    assert(begins_before(line, 0) == 0);
    assert(begins_before(line, 1) == 1);
    lemma_begins_grow(line, line.len());
    assert(low[0] == 'b') by {
        assert(front[0] == 'b');
    }
    if starts_end(line) {
        assert(low.subrange(0, 4)[0] == 'e');
    }
    // the name in front of the colon is that of no property
    let p = |c: char| !is_name_char(c);
    lemma_find(line, p, 0);
    let n = name_width(line) as int;
    assert(front[5] == ':' && low[5] == ':');
    assert(line[5] == ':');
    assert(p(line[5]));
    assert(n <= 5);
    assert forall|i: int| 0 <= i < 5 implies !p(#[trigger] line[i]) by {
        assert(front[i] == "begin:"@[i]);
        assert(low[i] == front[i]);
    }
    assert(n == 5) by {
        if n < 5 {
            assert(p(line[n]));
        }
    }
    assert(ascii_lower(line.take(5)) =~= "begin"@) by {
        assert forall|i: int| 0 <= i < 5 implies ascii_lower(line.take(5))[i] == "begin"@[i] by {
            assert(front[i] == "begin:"@[i]);
            assert(line.take(5)[i] == line[i] && line.take(6)[i] == line[i]);
        }
    }
    assert(!is_property_line(line));
}

proof fn lemma_closes(line: Seq<char>)
    ensures
        starts_end(line) == closes(line),
{
    reveal_strlit("end:");
    let low = ascii_lower(line);
    if line.len() >= 4 {
        assert(low.subrange(0, 4) =~= ascii_lower(line.take(4)));
    }
}

proof fn lemma_depth(lines: Seq<Seq<char>>, crlf_text: bool, n: nat)
    requires
        n <= lines.len(),
    ensures
        nesting(lines, crlf_text, n).open + closed_in(lines.take(n as int)) >= opened_in(
            lines.take(n as int),
        ),
        nesting(lines, crlf_text, n).deepest >= nesting(lines, crlf_text, n).open,
    decreases n,
{
    if n > 0 {
        let m = (n - 1) as nat;
        lemma_depth(lines, crlf_text, m);
        let line = lines[m as int];
        assert(lines.take(n as int).drop_last() =~= lines.take(m as int));
        assert(lines.take(n as int).last() == line);
        lemma_closes(line);
        let sure = nesting(lines, crlf_text, n).sure;
        if opens(line) {
            lemma_opens(line, sure);
        }
    }
}

proof fn lemma_deepest(lines: Seq<Seq<char>>, crlf_text: bool, n: nat, k: nat)
    requires
        k <= n <= lines.len(),
    ensures
        nesting(lines, crlf_text, n).deepest >= nesting(lines, crlf_text, k).deepest,
    decreases n,
{
    if k < n {
        lemma_deepest(lines, crlf_text, (n - 1) as nat, k);
    }
}

/// The bound holds: at any line of the text, without its folds, no more components are open
/// than the bound says, where each line that starts with `BEGIN:` opens one and each that
/// starts with `END:` closes one at most.
pub proof fn law_bound_on_nesting(text: Seq<char>, n: nat)
    requires
        n <= lines_inclusive(unfolded(text)).len(),
    ensures
        opened_in(lines_inclusive(unfolded(text)).take(n as int)) - closed_in(
            lines_inclusive(unfolded(text)).take(n as int),
        ) <= begin_depth(text),
{
    let flat = unfolded(text);
    let lines = lines_inclusive(flat);
    let c = has_sub(flat, "\r\n"@);
    lemma_depth(lines, c, n);
    lemma_deepest(lines, c, lines.len(), n);
}

/// Folds are taken out, and nothing else: a line end and the blank or the tab behind it go,
/// and any other character stays.
pub proof fn law_folds_are_taken_out(s: Seq<char>, c: char)
    ensures
        unfolded(Seq::empty()) == Seq::<char>::empty(),
        c != '\r' && c != '\n' ==> unfolded(seq![c] + s) == seq![c] + unfolded(s),
        unfolded(seq!['\n', ' '] + s) == unfolded(s),
        unfolded(seq!['\n', '\t'] + s) == unfolded(s),
        unfolded(seq!['\r', '\n', ' '] + s) == unfolded(s),
        unfolded(seq!['\r', '\n', '\t'] + s) == unfolded(s),
        c != ' ' && c != '\t' ==> unfolded(seq!['\n', c] + s) == seq!['\n'] + unfolded(
            seq![c] + s,
        ),
{
    assert((seq![c] + s).skip(1) =~= s);
    assert((seq!['\n', ' '] + s).skip(2) =~= s);
    assert((seq!['\n', '\t'] + s).skip(2) =~= s);
    assert((seq!['\r', '\n', ' '] + s).skip(3) =~= s);
    assert((seq!['\r', '\n', '\t'] + s).skip(3) =~= s);
    assert((seq!['\n', c] + s).skip(1) =~= seq![c] + s);
}

} // verus!
