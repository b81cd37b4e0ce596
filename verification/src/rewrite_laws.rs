//! What holds of rewriting a VTODO, for every text: what passes through, what is set,
//! what is gone, and that a second pass changes nothing.
use vstd::prelude::*;
use crate::ical::{
    additions, after_line, after_lines, bare_line, begins_todo, ends_todo, first_hit, folded,
    holds_property, is_named, joined, lemma_joined_add, lemma_joined_one, line_end, mutated, outset,
    property_text, rewritten, rewritten_line, MutationV, Place,
};
use crate::text::{
    finishes_with, index_before, lemma_index_before, lemma_index_before_at, lines_inclusive,
    trim_end_char,
};
use crate::text_laws::crlf_only;

verus! {

// --- Lines ---

/// A line: not empty, and a line feed only at its end.
pub open spec fn line_like(l: Seq<char>) -> bool {
    l.len() > 0 && forall|i: int| 0 <= i < l.len() - 1 ==> #[trigger] l[i] != '\n'
}

/// A line with its terminator.
pub open spec fn ended_line(l: Seq<char>) -> bool {
    line_like(l) && l.last() == '\n'
}

/// The lines of some text: all but the last have their terminator.
pub open spec fn text_lines(lines: Seq<Seq<char>>) -> bool {
    &&& forall|i: int| 0 <= i < lines.len() ==> line_like(#[trigger] lines[i])
    &&& forall|i: int| 0 <= i < lines.len() - 1 ==> ended_line(#[trigger] lines[i])
}

pub open spec fn ended_lines(lines: Seq<Seq<char>>) -> bool {
    forall|i: int| 0 <= i < lines.len() ==> ended_line(#[trigger] lines[i])
}

proof fn lemma_joined_front(lines: Seq<Seq<char>>)
    requires
        lines.len() > 0,
    ensures
        joined(lines) == lines[0] + joined(lines.skip(1)),
{
    assert(lines =~= seq![lines[0]] + lines.skip(1));
    lemma_joined_add(seq![lines[0]], lines.skip(1));
    lemma_joined_one(lines[0]);
}

/// Cutting a text into lines loses nothing.
pub proof fn law_lines_lose_nothing(s: Seq<char>)
    ensures
        joined(lines_inclusive(s)) == s,
        text_lines(lines_inclusive(s)),
    decreases s.len(),
{
    if s.len() == 0 {
        assert(joined(lines_inclusive(s)) =~= s);
    } else {
        let k = index_before(s, '\n') as int;
        lemma_index_before(s, '\n');
        if k >= s.len() {
            lemma_joined_one(s);
        } else {
            let rest = lines_inclusive(s.skip(k + 1));
            let head = s.take(k + 1);
            law_lines_lose_nothing(s.skip(k + 1));
            let all = lines_inclusive(s);
            assert(all == seq![head] + rest);
            lemma_joined_front(all);
            assert(all.skip(1) =~= rest);
            assert(head + s.skip(k + 1) =~= s);
            assert(ended_line(head));
            assert forall|i: int| 0 <= i < all.len() implies line_like(#[trigger] all[i]) by {
                if i > 0 {
                    assert(all[i] == rest[i - 1]);
                }
            }
            assert forall|i: int| 0 <= i < all.len() - 1 implies ended_line(#[trigger] all[i]) by {
                if i > 0 {
                    assert(all[i] == rest[i - 1]);
                }
            }
        }
    }
}

/// Lines put together are cut into the same lines again.
pub proof fn law_lines_cut_again(lines: Seq<Seq<char>>)
    requires
        text_lines(lines),
    ensures
        lines_inclusive(joined(lines)) == lines,
    decreases lines.len(),
{
    if lines.len() == 0 {
        assert(lines_inclusive(joined(lines)) =~= lines);
    } else {
        let l = lines[0];
        let rest = lines.skip(1);
        let s = joined(lines);
        lemma_joined_front(lines);
        assert(text_lines(rest)) by {
            assert forall|i: int| 0 <= i < rest.len() implies line_like(#[trigger] rest[i]) by {
                assert(rest[i] == lines[i + 1]);
            }
            assert forall|i: int| 0 <= i < rest.len() - 1 implies ended_line(#[trigger] rest[i]) by {
                assert(rest[i] == lines[i + 1]);
            }
        }
        law_lines_cut_again(rest);
        assert(line_like(l));
        if l.last() == '\n' {
            let k = (l.len() - 1) as nat;
            assert forall|i: int| 0 <= i < k implies s[i] != '\n' by {
                assert(s[i] == l[i]);
            }
            assert(s[k as int] == l[k as int]);
            lemma_index_before_at(s, '\n', k);
            assert(s.take(k as int + 1) =~= l);
            assert(s.skip(k as int + 1) =~= joined(rest));
            assert(lines =~= seq![l] + rest);
        } else {
            assert(lines.len() == 1) by {
                if lines.len() > 1 {
                    assert(ended_line(lines[0]));
                }
            }
            assert(rest =~= Seq::empty());
            assert(s =~= l);
            assert forall|i: int| 0 <= i < l.len() implies s[i] != '\n' by {
                assert(i == l.len() - 1 || l[i] != '\n');
            }
            lemma_index_before_at(s, '\n', s.len());
            assert(lines =~= seq![s]);
        }
    }
}

// --- Mutations that name properties ---

/// No line break.
pub open spec fn one_line(s: Seq<char>) -> bool {
    forall|i: int| 0 <= i < s.len() ==> #[trigger] s[i] != '\n' && s[i] != '\r'
}

/// The name of a property.
pub open spec fn plain_key(k: Seq<char>) -> bool {
    &&& k.len() > 0
    &&& one_line(k)
    &&& forall|i: int| 0 <= i < k.len() ==> #[trigger] k[i] != ':' && k[i] != ';'
    &&& k[0] != ' '
    &&& k[0] != '\t'
    &&& k != "BEGIN"@
    &&& k != "END"@
}

/// A property's name, parameters that are empty or start with `;`, and a value, each
/// on one line.
pub open spec fn plain_mutation(m: MutationV) -> bool {
    &&& plain_key(m.key)
    &&& one_line(m.params)
    &&& (m.params.len() == 0 || m.params[0] == ';')
    &&& m.value is Some ==> one_line(m.value->Some_0)
}

/// Each mutation is plain.
pub open spec fn all_plain(muts: Seq<MutationV>) -> bool {
    forall|j: int| 0 <= j < muts.len() ==> plain_mutation(#[trigger] muts[j])
}

/// Each mutation is plain, and no two have the same key.
pub open spec fn plain_mutations(muts: Seq<MutationV>) -> bool {
    &&& all_plain(muts)
    &&& forall|a: int, b: int|
        0 <= a < b < muts.len() ==> (#[trigger] muts[a]).key != (#[trigger] muts[b]).key
}

/// A line that begins or ends a VTODO holds no property with a plain key.
proof fn lemma_frame_holds_none(line: Seq<char>, key: Seq<char>)
    requires
        plain_key(key),
        line == "BEGIN:VTODO"@ || line == "END:VTODO"@,
    ensures
        !holds_property(line, key),
{
    reveal_strlit("BEGIN:VTODO");
    reveal_strlit("END:VTODO");
    reveal_strlit("BEGIN");
    reveal_strlit("END");
    if holds_property(line, key) {
        let n = key.len() as int;
        if line == "END:VTODO"@ {
            assert(n == 3);
            assert(key =~= line.subrange(0, n));
            assert(key =~= "END"@);
        } else {
            assert(n == 5);
            assert(key =~= line.subrange(0, n));
            assert(key =~= "BEGIN"@);
        }
    }
}

/// A line holds the property of one plain key at most.
proof fn lemma_holds_one(line: Seq<char>, a: Seq<char>, b: Seq<char>)
    requires
        plain_key(a),
        plain_key(b),
        holds_property(line, a),
        holds_property(line, b),
    ensures
        a == b,
{
    let n = a.len() as int;
    let m = b.len() as int;
    assert(a =~= line.subrange(0, n));
    assert(b =~= line.subrange(0, m));
    if n < m {
        assert(b[n] == line[n]);
    }
    if m < n {
        assert(a[m] == line[m]);
    }
    assert(a =~= b);
}

proof fn lemma_first_hit(line: Seq<char>, muts: Seq<MutationV>, j: nat)
    ensures
        first_hit(line, muts, j) <= muts.len() || j > muts.len(),
        j <= muts.len() ==> first_hit(line, muts, j) >= j,
        first_hit(line, muts, j) < muts.len() ==> holds_property(
            line,
            muts[first_hit(line, muts, j) as int].key,
        ),
        forall|i: int|
            j <= i < muts.len() && holds_property(line, #[trigger] muts[i].key) ==> first_hit(
                line,
                muts,
                j,
            ) <= i,
    decreases muts.len() - j,
{
    if j < muts.len() {
        lemma_first_hit(line, muts, j + 1);
    }
}

/// A line that holds the property of a plain mutation is hit by that mutation.
proof fn lemma_hit(line: Seq<char>, muts: Seq<MutationV>, j: nat)
    requires
        plain_mutations(muts),
        j < muts.len(),
        holds_property(line, muts[j as int].key),
    ensures
        first_hit(line, muts, 0) == j,
{
    lemma_first_hit(line, muts, 0);
    let h = first_hit(line, muts, 0);
    assert(muts[h as int].key == muts[h as int].key);
    lemma_holds_one(line, muts[h as int].key, muts[j as int].key);
}

/// The line of a property that is set: it reads as that property, and is a line of
/// its own.
proof fn lemma_set_line(muts: Seq<MutationV>, j: nat, end: Seq<char>)
    requires
        all_plain(muts),
        j < muts.len(),
        muts[j as int].value is Some,
        end == "\r\n"@ || end == "\n"@,
    ensures
        ({
            let line = property_text(muts[j as int]) + end;
            &&& bare_line(line) == property_text(muts[j as int])
            &&& line_end(line) == end
            &&& ended_line(line)
            &&& !folded(line)
            &&& !begins_todo(line)
            &&& bare_line(line) != "END:VTODO"@
            &&& first_hit(bare_line(line), muts, 0) < muts.len()
            &&& plain_mutations(muts) ==> first_hit(bare_line(line), muts, 0) == j
        }),
{
    let m = muts[j as int];
    let t = property_text(m);
    let line = t + end;
    let key = m.key;
    let n = key.len() as int;
    reveal_strlit(":");
    reveal_strlit("\r\n");
    reveal_strlit("\n");
    assert(plain_mutation(m));
    assert(one_line(t)) by {
        assert forall|i: int| 0 <= i < t.len() implies #[trigger] t[i] != '\n' && t[i] != '\r' by {
            if i < n {
                assert(t[i] == key[i]);
            } else if i < n + m.params.len() {
                assert(t[i] == m.params[i - n]);
            } else if i > n + m.params.len() {
                assert(t[i] == m.value->Some_0[i - n - m.params.len() - 1]);
            }
        }
    }
    assert(t.len() > n);
    assert(t[n] == ':' || t[n] == ';') by {
        if m.params.len() > 0 {
            assert(t[n] == m.params[0]);
        }
    }
    assert(t.subrange(0, n) =~= key);
    assert(holds_property(t, key));
    assert(t.last() == t[t.len() - 1]);
    if end == "\n"@ {
        assert(line.drop_last() =~= t);
        assert(line.last() == '\n');
        assert(trim_end_char(t, '\n') == t);
        assert(trim_end_char(line, '\n') == t);
        assert(line[line.len() - 2] == t.last());
        assert(!finishes_with(line, "\r\n"@)) by {
            if finishes_with(line, "\r\n"@) {
                let tail = line.subrange(line.len() - 2, line.len() as int);
                assert(tail[0] == '\r');
            }
        }
    } else {
        let u = t + seq!['\r'];
        assert(line.drop_last() =~= u);
        assert(line.last() == '\n');
        assert(u.last() == '\r');
        assert(trim_end_char(u, '\n') == u);
        assert(trim_end_char(line, '\n') == u);
        assert(u.drop_last() =~= t);
        assert(trim_end_char(t, '\r') == t);
        assert(trim_end_char(u, '\r') == t);
        assert(line.subrange(line.len() - 2, line.len() as int) =~= "\r\n"@);
    }
    assert(bare_line(line) == t);
    lemma_first_hit(t, muts, 0);
    assert(holds_property(t, muts[j as int].key));
    if plain_mutations(muts) {
        lemma_hit(t, muts, j);
    }
    assert(t[0] == key[0]);
    assert(line[0] == key[0]);
    if t == "BEGIN:VTODO"@ || t == "END:VTODO"@ {
        lemma_frame_holds_none(t, key);
    }
    assert forall|i: int| 0 <= i < line.len() - 1 implies #[trigger] line[i] != '\n' by {
        if i < t.len() {
            assert(line[i] == t[i]);
        }
    }
}

// --- One pass over the lines ---

/// The lines that no mutation names, each with whether it is inside a VTODO.
pub open spec fn others(p: Place, muts: Seq<MutationV>, lines: Seq<Seq<char>>) -> Seq<
    (bool, Seq<char>),
>
    decreases lines.len(),
{
    if lines.len() == 0 {
        Seq::empty()
    } else {
        let before = others(p, muts, lines.drop_last());
        let here = after_lines(p, muts, lines.drop_last());
        if is_named(here, muts, lines.last()) {
            before
        } else {
            before.push((here.inside, lines.last()))
        }
    }
}

/// At `here`, `line` agrees with the mutations: one that belongs to a named property
/// is the line of a property to set, with its new value, and a VTODO ends only once
/// every property to set was met.
pub open spec fn agrees(here: Place, muts: Seq<MutationV>, line: Seq<char>) -> bool {
    let hit = first_hit(bare_line(line), muts, 0);
    &&& is_named(here, muts, line) ==> !folded(line) && hit < muts.len()
        && muts[hit as int].value is Some && line == property_text(muts[hit as int]) + line_end(
        line,
    )
    &&& ends_todo(here, line) ==> forall|j: int|
        0 <= j < muts.len() && (#[trigger] muts[j]).value is Some ==> here.met.contains(muts[j].key)
}

/// Every line agrees with the mutations.
pub open spec fn all_agree(p: Place, muts: Seq<MutationV>, lines: Seq<Seq<char>>) -> bool
    decreases lines.len(),
{
    if lines.len() == 0 {
        true
    } else {
        &&& all_agree(p, muts, lines.drop_last())
        &&& agrees(after_lines(p, muts, lines.drop_last()), muts, lines.last())
    }
}

/// A pass over `a` and then `b` is a pass over `a`, and one over `b` from there.
pub proof fn lemma_pass_add(p: Place, muts: Seq<MutationV>, a: Seq<Seq<char>>, b: Seq<Seq<char>>)
    ensures
        after_lines(p, muts, a + b) == after_lines(after_lines(p, muts, a), muts, b),
        rewritten(p, muts, a + b) == rewritten(p, muts, a) + rewritten(
            after_lines(p, muts, a),
            muts,
            b,
        ),
        others(p, muts, a + b) == others(p, muts, a) + others(after_lines(p, muts, a), muts, b),
        all_agree(p, muts, a + b) == (all_agree(p, muts, a) && all_agree(
            after_lines(p, muts, a),
            muts,
            b,
        )),
    decreases b.len(),
{
    if b.len() == 0 {
        assert(a + b =~= a);
        assert(rewritten(p, muts, a + b) =~= rewritten(p, muts, a) + Seq::<Seq<char>>::empty());
        assert(others(p, muts, a + b) =~= others(p, muts, a) + Seq::<(bool, Seq<char>)>::empty());
    } else {
        lemma_pass_add(p, muts, a, b.drop_last());
        assert((a + b).drop_last() =~= a + b.drop_last());
        assert((a + b).last() == b.last());
        let q = after_lines(p, muts, a);
        assert(rewritten(p, muts, a + b) =~= rewritten(p, muts, a) + rewritten(q, muts, b));
        assert(others(p, muts, a + b) =~= others(p, muts, a) + others(q, muts, b));
    }
}

/// A pass over one line.
pub proof fn lemma_pass_one(p: Place, muts: Seq<MutationV>, line: Seq<char>)
    ensures
        after_lines(p, muts, seq![line]) == after_line(p, muts, line),
        rewritten(p, muts, seq![line]) == rewritten_line(p, muts, line),
        others(p, muts, seq![line]) == (if is_named(p, muts, line) {
            Seq::empty()
        } else {
            seq![(p.inside, line)]
        }),
        all_agree(p, muts, seq![line]) == agrees(p, muts, line),
{
    let one = seq![line];
    assert(one.drop_last() =~= Seq::empty());
    assert(one.last() == line);
    assert(after_lines(p, muts, one.drop_last()) == p);
    assert(rewritten(p, muts, one.drop_last()) =~= Seq::empty());
    assert(rewritten(p, muts, one) =~= rewritten_line(p, muts, line));
    assert(others(p, muts, one.drop_last()) =~= Seq::empty());
    assert(all_agree(p, muts, one.drop_last()));
}

/// How the place in the rewritten text follows the place in the text.
spec fn follows(s: Place, t: Place, muts: Seq<MutationV>) -> bool {
    &&& s.inside == t.inside
    &&& !s.named ==> !t.named
    &&& s.inside ==> forall|j: int|
        0 <= j < muts.len() ==> t.met.contains((#[trigger] muts[j]).key) == (s.met.contains(
            muts[j].key,
        ) && muts[j].value is Some)
}

/// The lines added at the end of a VTODO, read from inside it.
proof fn lemma_additions(t: Place, muts: Seq<MutationV>, met: Set<Seq<char>>, n: nat)
    requires
        plain_mutations(muts),
        n <= muts.len(),
        t.inside,
    ensures
        ({
            let adds = additions(muts, met, n);
            let u = after_lines(t, muts, adds);
            &&& rewritten(t, muts, adds) == adds
            &&& all_agree(t, muts, adds)
            &&& u.inside
            &&& forall|j: int|
                0 <= j < muts.len() ==> u.met.contains((#[trigger] muts[j]).key) == (
                t.met.contains(muts[j].key) || (j < n && muts[j].value is Some && !met.contains(
                    muts[j].key,
                )))
        }),
    decreases n,
{
    if n > 0 {
        lemma_additions(t, muts, met, (n - 1) as nat);
        let k = (n - 1) as nat;
        let m = muts[k as int];
        let before = additions(muts, met, k);
        let v = after_lines(t, muts, before);
        if m.value is Some && !met.contains(m.key) {
            let line = property_text(m) + "\r\n"@;
            lemma_set_line(muts, k, "\r\n"@);
            let adds = additions(muts, met, n);
            assert(adds =~= before + seq![line]);
            lemma_pass_add(t, muts, before, seq![line]);
            lemma_pass_one(v, muts, line);
            assert(rewritten(t, muts, adds) =~= before + seq![line]);
            let u = after_lines(t, muts, adds);
            assert(u.met == v.met.insert(m.key));
            assert forall|j: int| 0 <= j < muts.len() implies u.met.contains(
                (#[trigger] muts[j]).key,
            ) == (t.met.contains(muts[j].key) || (j < n && muts[j].value is Some && !met.contains(
                muts[j].key,
            ))) by {
                if j < k {
                    assert(muts[j].key != muts[k as int].key);
                } else if j > k {
                    assert(muts[k as int].key != muts[j].key);
                }
            }
        }
    } else {
        let none = Seq::<Seq<char>>::empty();
        assert(additions(muts, met, 0) =~= none);
    }
}

/// Nothing is missing where every property to set was met.
proof fn lemma_nothing_missing(muts: Seq<MutationV>, met: Set<Seq<char>>, n: nat)
    requires
        n <= muts.len(),
        forall|j: int|
            0 <= j < muts.len() && (#[trigger] muts[j]).value is Some ==> met.contains(muts[j].key),
    ensures
        additions(muts, met, n) == Seq::<Seq<char>>::empty(),
    decreases n,
{
    if n > 0 {
        lemma_nothing_missing(muts, met, (n - 1) as nat);
        assert(muts[n - 1].value is Some ==> met.contains(muts[n - 1].key));
    }
}

/// One line of the text, and what it becomes.
proof fn lemma_step(s: Place, t: Place, muts: Seq<MutationV>, line: Seq<char>)
    requires
        plain_mutations(muts),
        follows(s, t, muts),
    ensures
        ({
            let e = rewritten_line(s, muts, line);
            &&& rewritten(t, muts, e) == e
            &&& follows(after_line(s, muts, line), after_lines(t, muts, e), muts)
            &&& all_agree(t, muts, e)
        }),
{
    let e = rewritten_line(s, muts, line);
    let hit = first_hit(bare_line(line), muts, 0);
    lemma_first_hit(bare_line(line), muts, 0);
    lemma_pass_one(s, muts, line);
    reveal_strlit("BEGIN:VTODO");
    reveal_strlit("END:VTODO");
    assert("BEGIN:VTODO"@.len() != "END:VTODO"@.len());
    if ends_todo(s, line) {
        let adds = additions(muts, s.met, muts.len());
        lemma_additions(t, muts, s.met, muts.len());
        let u = after_lines(t, muts, adds);
        assert forall|j: int|
            0 <= j < muts.len() && (#[trigger] muts[j]).value is Some implies u.met.contains(
            muts[j].key,
        ) by {}
        lemma_nothing_missing(muts, u.met, muts.len());
        assert(e =~= adds + seq![line]);
        lemma_pass_add(t, muts, adds, seq![line]);
        lemma_pass_one(u, muts, line);
        assert(ends_todo(u, line));
        assert(rewritten_line(u, muts, line) =~= seq![line]);
        assert(rewritten(t, muts, e) =~= e);
    } else if !is_named(s, muts, line) {
        assert(!is_named(t, muts, line));
        lemma_pass_one(t, muts, line);
        assert(ends_todo(t, line) == ends_todo(s, line));
        assert(rewritten_line(t, muts, line) =~= seq![line]);
    } else if !folded(line) && muts[hit as int].value is Some {
        let m = muts[hit as int];
        let set_line = property_text(m) + line_end(line);
        lemma_set_line(muts, hit, line_end(line));
        assert(e =~= seq![set_line]);
        lemma_pass_one(t, muts, set_line);
        assert(is_named(t, muts, set_line));
        assert(rewritten_line(t, muts, set_line) =~= seq![set_line]);
        let s2 = after_line(s, muts, line);
        let t2 = after_lines(t, muts, e);
        assert forall|j: int| 0 <= j < muts.len() implies t2.met.contains((#[trigger] muts[j]).key)
            == (s2.met.contains(muts[j].key) && muts[j].value is Some) by {
            if j < hit {
                assert(muts[j].key != muts[hit as int].key);
            } else if j > hit {
                assert(muts[hit as int].key != muts[j].key);
            }
        }
    } else {
        assert(e =~= Seq::empty());
        assert(rewritten(t, muts, e) =~= e);
        if !folded(line) {
            let s2 = after_line(s, muts, line);
            assert forall|j: int| 0 <= j < muts.len() implies t.met.contains(
                (#[trigger] muts[j]).key,
            ) == (s2.met.contains(muts[j].key) && muts[j].value is Some) by {
                if j < hit {
                    assert(muts[j].key != muts[hit as int].key);
                } else if j > hit {
                    assert(muts[hit as int].key != muts[j].key);
                }
            }
        }
    }
}

/// All lines of the text, and what they become.
proof fn lemma_pass(muts: Seq<MutationV>, lines: Seq<Seq<char>>)
    requires
        plain_mutations(muts),
    ensures
        ({
            let out = rewritten(outset(), muts, lines);
            &&& rewritten(outset(), muts, out) == out
            &&& follows(
                after_lines(outset(), muts, lines),
                after_lines(outset(), muts, out),
                muts,
            )
            &&& all_agree(outset(), muts, out)
        }),
    decreases lines.len(),
{
    let o = outset();
    if lines.len() == 0 {
        let none = Seq::<Seq<char>>::empty();
        assert(rewritten(o, muts, lines) =~= none);
    } else {
        let front = lines.drop_last();
        let line = lines.last();
        lemma_pass(muts, front);
        let a = rewritten(o, muts, front);
        let s = after_lines(o, muts, front);
        let t = after_lines(o, muts, a);
        let e = rewritten_line(s, muts, line);
        lemma_step(s, t, muts, line);
        lemma_pass_add(o, muts, a, e);
    }
}

// --- The lines that stay ---

/// How the place in the rewritten text follows the place in the text, as far as the lines
/// that stay go.
spec fn stays_level(s: Place, t: Place) -> bool {
    &&& s.inside == t.inside
    &&& !s.named ==> !t.named
}

/// The lines added at the end of a VTODO belong to named properties.
proof fn lemma_additions_named(t: Place, muts: Seq<MutationV>, met: Set<Seq<char>>, n: nat)
    requires
        all_plain(muts),
        n <= muts.len(),
        t.inside,
    ensures
        ({
            let adds = additions(muts, met, n);
            &&& others(t, muts, adds) == Seq::<(bool, Seq<char>)>::empty()
            &&& after_lines(t, muts, adds).inside
            &&& ended_lines(adds)
        }),
    decreases n,
{
    let adds = additions(muts, met, n);
    if n == 0 {
        assert(adds =~= Seq::empty());
        assert(others(t, muts, adds) =~= Seq::empty());
    } else {
        let k = (n - 1) as nat;
        let m = muts[k as int];
        let before = additions(muts, met, k);
        lemma_additions_named(t, muts, met, k);
        if m.value is Some && !met.contains(m.key) {
            let line = property_text(m) + "\r\n"@;
            lemma_set_line(muts, k, "\r\n"@);
            assert(adds =~= before + seq![line]);
            lemma_pass_add(t, muts, before, seq![line]);
            lemma_pass_one(after_lines(t, muts, before), muts, line);
            assert(others(t, muts, adds) =~= Seq::empty());
        }
    }
}

/// One line of the text, and what it becomes: it stays, or it belongs to a named property
/// and so does what it becomes.
proof fn lemma_step_stays(s: Place, t: Place, muts: Seq<MutationV>, line: Seq<char>)
    requires
        all_plain(muts),
        stays_level(s, t),
    ensures
        ({
            let e = rewritten_line(s, muts, line);
            &&& stays_level(after_line(s, muts, line), after_lines(t, muts, e))
            &&& others(t, muts, e) == others(s, muts, seq![line])
            &&& ended_line(line) ==> ended_lines(e)
            &&& line_like(line) ==> text_lines(e)
        }),
{
    let e = rewritten_line(s, muts, line);
    let hit = first_hit(bare_line(line), muts, 0);
    lemma_first_hit(bare_line(line), muts, 0);
    lemma_pass_one(s, muts, line);
    reveal_strlit("BEGIN:VTODO");
    reveal_strlit("END:VTODO");
    assert("BEGIN:VTODO"@.len() != "END:VTODO"@.len());
    if ends_todo(s, line) {
        let adds = additions(muts, s.met, muts.len());
        lemma_additions_named(t, muts, s.met, muts.len());
        let u = after_lines(t, muts, adds);
        assert(e =~= adds + seq![line]);
        lemma_pass_add(t, muts, adds, seq![line]);
        lemma_pass_one(u, muts, line);
        assert(ends_todo(u, line));
        assert(others(t, muts, e) =~= others(s, muts, seq![line]));
        assert forall|i: int| 0 <= i < e.len() - 1 implies ended_line(#[trigger] e[i]) by {
            assert(e[i] == adds[i]);
        }
    } else if !is_named(s, muts, line) {
        lemma_pass_one(t, muts, line);
    } else if !folded(line) && muts[hit as int].value is Some {
        let set_line = property_text(muts[hit as int]) + line_end(line);
        lemma_set_line(muts, hit, line_end(line));
        assert(e =~= seq![set_line]);
        lemma_pass_one(t, muts, set_line);
        assert(is_named(t, muts, set_line));
    } else {
        assert(e =~= Seq::empty());
        assert(others(t, muts, e) =~= Seq::empty());
    }
}

/// All lines of the text, and what they become.
proof fn lemma_pass_stays(muts: Seq<MutationV>, lines: Seq<Seq<char>>)
    requires
        all_plain(muts),
        text_lines(lines),
    ensures
        ({
            let out = rewritten(outset(), muts, lines);
            &&& stays_level(after_lines(outset(), muts, lines), after_lines(outset(), muts, out))
            &&& others(outset(), muts, out) == others(outset(), muts, lines)
            &&& ended_lines(lines) ==> ended_lines(out)
            &&& text_lines(out)
        }),
    decreases lines.len(),
{
    let o = outset();
    if lines.len() == 0 {
        let none = Seq::<Seq<char>>::empty();
        assert(rewritten(o, muts, lines) =~= none);
        assert(others(o, muts, none) =~= others(o, muts, lines));
    } else {
        let front = lines.drop_last();
        let line = lines.last();
        assert(text_lines(front) && ended_lines(front)) by {
            assert forall|i: int| 0 <= i < front.len() implies ended_line(#[trigger] front[i]) by {
                assert(front[i] == lines[i]);
            }
        }
        lemma_pass_stays(muts, front);
        let a = rewritten(o, muts, front);
        let s = after_lines(o, muts, front);
        let t = after_lines(o, muts, a);
        let e = rewritten_line(s, muts, line);
        assert(line_like(lines[lines.len() - 1]));
        lemma_step_stays(s, t, muts, line);
        lemma_pass_add(o, muts, a, e);
        assert(lines =~= front + seq![line]);
        lemma_pass_add(o, muts, front, seq![line]);
        let out = rewritten(o, muts, lines);
        assert(out == a + e);
        assert forall|i: int| 0 <= i < out.len() implies line_like(#[trigger] out[i]) by {
            if i < a.len() {
                assert(out[i] == a[i]);
            } else {
                assert(out[i] == e[i - a.len()]);
            }
        }
        assert forall|i: int| 0 <= i < out.len() - 1 implies ended_line(#[trigger] out[i]) by {
            if i < a.len() {
                assert(out[i] == a[i]);
            } else {
                assert(out[i] == e[i - a.len()]);
            }
        }
        if ended_lines(lines) {
            assert(ended_line(lines[lines.len() - 1]));
            assert forall|i: int| 0 <= i < out.len() implies ended_line(#[trigger] out[i]) by {
                if i < a.len() {
                    assert(out[i] == a[i]);
                } else {
                    assert(out[i] == e[i - a.len()]);
                }
            }
        }
    }
}

// --- The laws ---

/// The place before line `i` of a text.
pub open spec fn place_at(text: Seq<char>, muts: Seq<MutationV>, i: int) -> Place {
    after_lines(outset(), muts, lines_inclusive(text).take(i))
}

/// Line `i` of a text is inside a VTODO.
pub open spec fn inside_at(text: Seq<char>, i: int) -> bool {
    place_at(text, Seq::empty(), i).inside
}

/// Whether a line is inside a VTODO does not depend on the mutations.
pub proof fn lemma_inside_same(muts: Seq<MutationV>, lines: Seq<Seq<char>>)
    ensures
        after_lines(outset(), muts, lines).inside == after_lines(
            outset(),
            Seq::empty(),
            lines,
        ).inside,
    decreases lines.len(),
{
    if lines.len() > 0 {
        lemma_inside_same(muts, lines.drop_last());
    }
}

/// The lines of a text that no mutation names, each with whether it is inside a VTODO.
pub open spec fn other_lines(text: Seq<char>, muts: Seq<MutationV>) -> Seq<(bool, Seq<char>)> {
    others(outset(), muts, lines_inclusive(text))
}

/// The lines of the rewritten text.
pub proof fn lemma_mutated_lines(text: Seq<char>, muts: Seq<MutationV>)
    requires
        all_plain(muts),
    ensures
        lines_inclusive(mutated(text, muts)) == rewritten(outset(), muts, lines_inclusive(text)),
{
    law_lines_lose_nothing(text);
    lemma_pass_stays(muts, lines_inclusive(text));
    law_lines_cut_again(rewritten(outset(), muts, lines_inclusive(text)));
}

/// Everything but the named properties passes verbatim: the lines outside every VTODO,
/// and those inside one that belong to no named property, are the same lines in the same
/// order before and after. So it is too where several mutations have the same key.
pub proof fn law_other_lines_verbatim(text: Seq<char>, muts: Seq<MutationV>)
    requires
        all_plain(muts),
    ensures
        other_lines(mutated(text, muts), muts) == other_lines(text, muts),
{
    law_lines_lose_nothing(text);
    lemma_pass_stays(muts, lines_inclusive(text));
    lemma_mutated_lines(text, muts);
}

/// A second pass changes nothing.
pub proof fn law_second_pass_unchanged(text: Seq<char>, muts: Seq<MutationV>)
    requires
        plain_mutations(muts),
    ensures
        mutated(mutated(text, muts), muts) == mutated(text, muts),
{
    law_lines_lose_nothing(text);
    lemma_pass(muts, lines_inclusive(text));
    lemma_mutated_lines(text, muts);
}

proof fn lemma_agrees_at(p: Place, muts: Seq<MutationV>, lines: Seq<Seq<char>>, i: int)
    requires
        all_agree(p, muts, lines),
        0 <= i < lines.len(),
    ensures
        agrees(after_lines(p, muts, lines.take(i)), muts, lines[i]),
    decreases lines.len(),
{
    let front = lines.drop_last();
    if i < lines.len() - 1 {
        lemma_agrees_at(p, muts, front, i);
        assert(front.take(i) =~= lines.take(i));
        assert(front[i] == lines[i]);
    } else {
        assert(front =~= lines.take(i));
    }
}

/// After the rewriting, a line inside a VTODO that holds a named property is the line of
/// a property to set, with its new value: no line of a property to remove is left, none
/// has an old value, and none is continued on the next line.
pub proof fn law_named_properties_read_new(text: Seq<char>, muts: Seq<MutationV>, i: int, j: int)
    requires
        plain_mutations(muts),
        0 <= j < muts.len(),
        0 <= i < lines_inclusive(mutated(text, muts)).len(),
        place_at(mutated(text, muts), muts, i).inside,
        !folded(lines_inclusive(mutated(text, muts))[i]),
        holds_property(bare_line(lines_inclusive(mutated(text, muts))[i]), muts[j].key),
    ensures
        muts[j].value is Some,
        bare_line(lines_inclusive(mutated(text, muts))[i]) == property_text(muts[j]),
        i + 1 < lines_inclusive(mutated(text, muts)).len() ==> !folded(
            lines_inclusive(mutated(text, muts))[i + 1],
        ),
{
    law_lines_lose_nothing(text);
    lemma_pass(muts, lines_inclusive(text));
    lemma_mutated_lines(text, muts);
    let out = lines_inclusive(mutated(text, muts));
    lemma_agrees_at(outset(), muts, out, i);
    let line = out[i];
    assert(plain_mutation(muts[j]));
    if bare_line(line) == "BEGIN:VTODO"@ || bare_line(line) == "END:VTODO"@ {
        lemma_frame_holds_none(bare_line(line), muts[j].key);
    }
    lemma_hit(bare_line(line), muts, j as nat);
    assert(is_named(place_at(mutated(text, muts), muts, i), muts, line));
    lemma_set_line(muts, j as nat, line_end(line));
    if i + 1 < out.len() {
        lemma_agrees_at(outset(), muts, out, i + 1);
        assert(out.take(i + 1).drop_last() =~= out.take(i));
        assert(out.take(i + 1).last() == line);
        let next = out[i + 1];
        if folded(next) {
            lemma_folded_is_no_frame(next);
            assert(is_named(place_at(mutated(text, muts), muts, i + 1), muts, next));
        }
    }
}

/// A folded line neither begins nor ends a VTODO.
proof fn lemma_folded_is_no_frame(line: Seq<char>)
    requires
        folded(line),
    ensures
        bare_line(line) != "BEGIN:VTODO"@,
        bare_line(line) != "END:VTODO"@,
{
    reveal_strlit("BEGIN:VTODO");
    reveal_strlit("END:VTODO");
    lemma_trim_end_front(line, '\n');
    lemma_trim_end_front(trim_end_char(line, '\n'), '\r');
    let b = bare_line(line);
    if b.len() > 0 {
        assert(b[0] == line[0]);
    }
}

proof fn lemma_trim_end_front(s: Seq<char>, c: char)
    ensures
        trim_end_char(s, c).len() <= s.len(),
        trim_end_char(s, c) == s.take(trim_end_char(s, c).len() as int),
    decreases s.len(),
{
    if s.len() > 0 && s.last() == c {
        lemma_trim_end_front(s.drop_last(), c);
        let n = trim_end_char(s, c).len() as int;
        assert(s.drop_last().take(n) =~= s.take(n));
    } else {
        assert(s.take(s.len() as int) =~= s);
    }
}

/// A key that was met was met on a line of the VTODO in hand.
proof fn lemma_key_met(muts: Seq<MutationV>, lines: Seq<Seq<char>>, i: int, key: Seq<char>) -> (k:
    int)
    requires
        0 <= i <= lines.len(),
        after_lines(outset(), muts, lines.take(i)).met.contains(key),
    ensures
        0 <= k < i,
        is_named(after_lines(outset(), muts, lines.take(k)), muts, lines[k]),
        !folded(lines[k]),
        muts[first_hit(bare_line(lines[k]), muts, 0) as int].key == key,
        forall|q: int| k < q < i ==> !begins_todo(#[trigger] lines[q]),
    decreases i,
{
    assert(lines.take(0) =~= Seq::empty());
    assert(i > 0);
    assert(lines.take(i).drop_last() =~= lines.take(i - 1));
    assert(lines.take(i).last() == lines[i - 1]);
    let before = after_lines(outset(), muts, lines.take(i - 1));
    if before.met.contains(key) && !(begins_todo(lines[i - 1]) && !ends_todo(
        before,
        lines[i - 1],
    )) {
        reveal_strlit("BEGIN:VTODO");
        reveal_strlit("END:VTODO");
        assert("BEGIN:VTODO"@.len() != "END:VTODO"@.len());
        lemma_key_met(muts, lines, i - 1, key)
    } else {
        i - 1
    }
}

/// After the rewriting, every VTODO that ends holds every property to set, with its new
/// value.
pub proof fn law_property_is_set(text: Seq<char>, muts: Seq<MutationV>, i: int, j: int)
    requires
        plain_mutations(muts),
        0 <= j < muts.len(),
        muts[j].value is Some,
        0 <= i < lines_inclusive(mutated(text, muts)).len(),
        ends_todo(
            place_at(mutated(text, muts), muts, i),
            lines_inclusive(mutated(text, muts))[i],
        ),
    ensures
        exists|k: int|
            #![trigger lines_inclusive(mutated(text, muts))[k]]
            0 <= k < i && bare_line(lines_inclusive(mutated(text, muts))[k]) == property_text(
                muts[j],
            ) && place_at(mutated(text, muts), muts, k).inside && forall|q: int|
                k < q < i ==> !begins_todo(#[trigger] lines_inclusive(mutated(text, muts))[q]),
{
    law_lines_lose_nothing(text);
    lemma_pass(muts, lines_inclusive(text));
    lemma_mutated_lines(text, muts);
    let out = lines_inclusive(mutated(text, muts));
    lemma_agrees_at(outset(), muts, out, i);
    let k = lemma_key_met(muts, out, i, muts[j].key);
    lemma_agrees_at(outset(), muts, out, k);
    let hit = first_hit(bare_line(out[k]), muts, 0);
    if hit < j {
        assert(muts[hit as int].key != muts[j].key);
    } else if hit > j {
        assert(muts[j].key != muts[hit as int].key);
    }
    lemma_set_line(muts, j as nat, line_end(out[k]));
    assert(bare_line(out[k]) == property_text(muts[j]));
}

// --- Parts of the mutations ---

/// Every mutation of `part` is one of `muts`.
pub open spec fn part_of(part: Seq<MutationV>, muts: Seq<MutationV>) -> bool {
    forall|j: int| 0 <= j < part.len() ==> muts.contains(#[trigger] part[j])
}

/// How the place under a part of the mutations follows the place under all of them.
spec fn follows_part(p: Place, q: Place, part: Seq<MutationV>) -> bool {
    &&& p.inside == q.inside
    &&& q.named ==> p.named
    &&& forall|j: int|
        0 <= j < part.len() ==> q.met.contains((#[trigger] part[j]).key) == p.met.contains(
            part[j].key,
        )
}

/// One line that agrees with all of the mutations, under a part of them.
proof fn lemma_part_step(
    p: Place,
    q: Place,
    muts: Seq<MutationV>,
    part: Seq<MutationV>,
    line: Seq<char>,
)
    requires
        plain_mutations(muts),
        plain_mutations(part),
        part_of(part, muts),
        follows_part(p, q, part),
        agrees(p, muts, line),
    ensures
        rewritten_line(q, part, line) == seq![line],
        follows_part(after_line(p, muts, line), after_line(q, part, line), part),
{
    let bare = bare_line(line);
    let hit = first_hit(bare, part, 0);
    let all = first_hit(bare, muts, 0);
    lemma_first_hit(bare, part, 0);
    lemma_first_hit(bare, muts, 0);
    reveal_strlit("BEGIN:VTODO");
    reveal_strlit("END:VTODO");
    assert("BEGIN:VTODO"@.len() != "END:VTODO"@.len());
    if ends_todo(p, line) {
        assert forall|j: int|
            0 <= j < part.len() && (#[trigger] part[j]).value is Some implies q.met.contains(
            part[j].key,
        ) by {
            let i = choose|i: int| 0 <= i < muts.len() && muts[i] == part[j];
            assert(p.met.contains(muts[i].key));
        }
        lemma_nothing_missing(part, q.met, part.len());
        assert(rewritten_line(q, part, line) =~= seq![line]);
    } else if p.inside && !begins_todo(line) && !folded(line) {
        if hit < part.len() {
            let i = choose|i: int| 0 <= i < muts.len() && muts[i] == part[hit as int];
            lemma_hit(bare, muts, i as nat);
            assert(is_named(p, muts, line));
            assert(rewritten_line(q, part, line) =~= seq![line]);
        }
        let p2 = after_line(p, muts, line);
        let q2 = after_line(q, part, line);
        assert forall|j: int| 0 <= j < part.len() implies q2.met.contains((#[trigger] part[j]).key)
            == p2.met.contains(part[j].key) by {
            if all < muts.len() && muts[all as int].key == part[j].key {
                lemma_hit(bare, part, j as nat);
            }
            if hit < part.len() && part[hit as int].key == part[j].key {
                let i = choose|i: int| 0 <= i < muts.len() && muts[i] == part[hit as int];
                lemma_hit(bare, muts, i as nat);
            }
        }
    }
}

/// Lines that agree with all of the mutations are left by a part of them.
proof fn lemma_part_pass(muts: Seq<MutationV>, part: Seq<MutationV>, lines: Seq<Seq<char>>)
    requires
        plain_mutations(muts),
        plain_mutations(part),
        part_of(part, muts),
        all_agree(outset(), muts, lines),
    ensures
        rewritten(outset(), part, lines) == lines,
        follows_part(
            after_lines(outset(), muts, lines),
            after_lines(outset(), part, lines),
            part,
        ),
    decreases lines.len(),
{
    if lines.len() == 0 {
        assert(rewritten(outset(), part, lines) =~= lines);
    } else {
        let front = lines.drop_last();
        lemma_part_pass(muts, part, front);
        lemma_part_step(
            after_lines(outset(), muts, front),
            after_lines(outset(), part, front),
            muts,
            part,
            lines.last(),
        );
        assert(front + seq![lines.last()] =~= lines);
    }
}

/// After a rewriting, a part of its mutations changes nothing.
pub proof fn law_part_unchanged(text: Seq<char>, muts: Seq<MutationV>, part: Seq<MutationV>)
    requires
        plain_mutations(muts),
        plain_mutations(part),
        part_of(part, muts),
    ensures
        mutated(mutated(text, muts), part) == mutated(text, muts),
{
    law_lines_lose_nothing(text);
    lemma_pass(muts, lines_inclusive(text));
    lemma_mutated_lines(text, muts);
    lemma_part_pass(muts, part, lines_inclusive(mutated(text, muts)));
}

// --- Mutations of other properties ---

/// No mutation of `a` has the key of one of `b`.
pub open spec fn apart(a: Seq<MutationV>, b: Seq<MutationV>) -> bool {
    forall|i: int, j: int|
        0 <= i < a.len() && 0 <= j < b.len() ==> (#[trigger] a[i]).key != (#[trigger] b[j]).key
}

/// A line is hit by one of two such lists at most.
proof fn lemma_hit_by_one(line: Seq<char>, a: Seq<MutationV>, b: Seq<MutationV>)
    requires
        plain_mutations(a),
        plain_mutations(b),
        apart(a, b),
    ensures
        first_hit(line, a, 0) >= a.len() || first_hit(line, b, 0) >= b.len(),
{
    lemma_first_hit(line, a, 0);
    lemma_first_hit(line, b, 0);
    let i = first_hit(line, a, 0);
    let j = first_hit(line, b, 0);
    if i < a.len() && j < b.len() {
        assert(plain_mutation(a[i as int]) && plain_mutation(b[j as int]));
        lemma_holds_one(line, a[i as int].key, b[j as int].key);
    }
}

/// The lines added by one list are no lines of the other.
proof fn lemma_additions_apart(
    q: Place,
    muts: Seq<MutationV>,
    kept: Seq<MutationV>,
    met: Set<Seq<char>>,
    n: nat,
)
    requires
        plain_mutations(muts),
        plain_mutations(kept),
        apart(muts, kept),
        n <= muts.len(),
        q.inside,
    ensures
        ({
            let adds = additions(muts, met, n);
            let u = after_lines(q, kept, adds);
            &&& u.inside
            &&& u.met == q.met
            &&& rewritten(q, kept, adds) == adds
        }),
    decreases n,
{
    let adds = additions(muts, met, n);
    if n == 0 {
        assert(adds =~= Seq::empty());
        assert(rewritten(q, kept, adds) =~= adds);
    } else {
        let k = (n - 1) as nat;
        let m = muts[k as int];
        let before = additions(muts, met, k);
        lemma_additions_apart(q, muts, kept, met, k);
        if m.value is Some && !met.contains(m.key) {
            let line = property_text(m) + "\r\n"@;
            lemma_set_line(muts, k, "\r\n"@);
            lemma_hit_by_one(bare_line(line), muts, kept);
            let u = after_lines(q, kept, before);
            assert(adds =~= before + seq![line]);
            lemma_pass_add(q, kept, before, seq![line]);
            lemma_pass_one(u, kept, line);
            assert(!is_named(u, kept, line));
            assert(rewritten_line(u, kept, line) =~= seq![line]);
            assert(rewritten(q, kept, adds) =~= adds);
        }
    }
}

/// How the place under `kept` in the rewritten text follows the places in the text under
/// `kept` and under the mutations.
spec fn follows_apart(s: Place, p: Place, q: Place) -> bool {
    &&& s.inside == p.inside
    &&& q.inside == p.inside
    &&& q.met == p.met
    &&& q.named ==> p.named || s.named
}

/// One line that agrees with `kept`, and what the mutations make of it.
proof fn lemma_apart_step(
    s: Place,
    p: Place,
    q: Place,
    muts: Seq<MutationV>,
    kept: Seq<MutationV>,
    line: Seq<char>,
)
    requires
        plain_mutations(muts),
        plain_mutations(kept),
        apart(muts, kept),
        follows_apart(s, p, q),
        agrees(p, kept, line),
    ensures
        ({
            let e = rewritten_line(s, muts, line);
            &&& rewritten(q, kept, e) == e
            &&& follows_apart(
                after_line(s, muts, line),
                after_line(p, kept, line),
                after_lines(q, kept, e),
            )
        }),
{
    let bare = bare_line(line);
    let hit = first_hit(bare, muts, 0);
    let e = rewritten_line(s, muts, line);
    lemma_first_hit(bare, muts, 0);
    lemma_first_hit(bare, kept, 0);
    lemma_hit_by_one(bare, muts, kept);
    reveal_strlit("BEGIN:VTODO");
    reveal_strlit("END:VTODO");
    assert("BEGIN:VTODO"@.len() != "END:VTODO"@.len());
    if ends_todo(p, line) {
        let adds = additions(muts, s.met, muts.len());
        lemma_additions_apart(q, muts, kept, s.met, muts.len());
        let u = after_lines(q, kept, adds);
        assert(e =~= adds + seq![line]);
        lemma_pass_add(q, kept, adds, seq![line]);
        lemma_pass_one(u, kept, line);
        lemma_nothing_missing(kept, u.met, kept.len());
        assert(ends_todo(u, line));
        assert(rewritten_line(u, kept, line) =~= seq![line]);
        assert(rewritten(q, kept, e) =~= e);
    } else if !is_named(s, muts, line) {
        assert(e =~= seq![line]);
        lemma_pass_one(q, kept, line);
        if is_named(p, kept, line) {
            assert(is_named(q, kept, line));
        } else {
            assert(!is_named(q, kept, line));
        }
        assert(rewritten_line(q, kept, line) =~= seq![line]);
    } else if !folded(line) && muts[hit as int].value is Some {
        let set_line = property_text(muts[hit as int]) + line_end(line);
        lemma_set_line(muts, hit, line_end(line));
        lemma_hit_by_one(bare_line(set_line), muts, kept);
        assert(e =~= seq![set_line]);
        lemma_pass_one(q, kept, set_line);
        assert(!is_named(q, kept, set_line));
        assert(rewritten_line(q, kept, set_line) =~= seq![set_line]);
    } else {
        assert(e =~= Seq::empty());
        assert(rewritten(q, kept, e) =~= e);
    }
}

/// Lines that agree with `kept`, and what the mutations make of them.
proof fn lemma_apart_pass(muts: Seq<MutationV>, kept: Seq<MutationV>, lines: Seq<Seq<char>>)
    requires
        plain_mutations(muts),
        plain_mutations(kept),
        apart(muts, kept),
        all_agree(outset(), kept, lines),
    ensures
        ({
            let out = rewritten(outset(), muts, lines);
            &&& rewritten(outset(), kept, out) == out
            &&& follows_apart(
                after_lines(outset(), muts, lines),
                after_lines(outset(), kept, lines),
                after_lines(outset(), kept, out),
            )
        }),
    decreases lines.len(),
{
    let o = outset();
    if lines.len() == 0 {
        let none = Seq::<Seq<char>>::empty();
        assert(rewritten(o, muts, lines) =~= none);
        assert(rewritten(o, kept, none) =~= none);
    } else {
        let front = lines.drop_last();
        let line = lines.last();
        lemma_apart_pass(muts, kept, front);
        let a = rewritten(o, muts, front);
        let s = after_lines(o, muts, front);
        let e = rewritten_line(s, muts, line);
        lemma_apart_step(
            s,
            after_lines(o, kept, front),
            after_lines(o, kept, a),
            muts,
            kept,
            line,
        );
        lemma_pass_add(o, kept, a, e);
        assert(rewritten(o, muts, lines) == a + e);
    }
}

/// A rewriting keeps what it does not name: a text that other mutations would not change
/// is one that they would not change afterwards either.
pub proof fn law_rewriting_keeps_others(
    text: Seq<char>,
    muts: Seq<MutationV>,
    kept: Seq<MutationV>,
)
    requires
        plain_mutations(muts),
        plain_mutations(kept),
        apart(muts, kept),
        mutated(text, kept) == text,
    ensures
        mutated(mutated(text, muts), kept) == mutated(text, muts),
{
    law_lines_lose_nothing(text);
    lemma_pass(kept, lines_inclusive(text));
    lemma_mutated_lines(text, kept);
    lemma_mutated_lines(text, muts);
    lemma_apart_pass(muts, kept, lines_inclusive(text));
}

// --- CRLF endings ---

/// A line that ends in CRLF and has no other line break.
pub open spec fn crlf_line(l: Seq<char>) -> bool {
    &&& l.len() >= 2
    &&& l.last() == '\n'
    &&& l[l.len() - 2] == '\r'
    &&& one_line(l.take(l.len() - 2))
}

/// A text whose endings are CRLF, and which is empty or ends with one.
pub open spec fn whole_lines(s: Seq<char>) -> bool {
    crlf_only(s) && (s.len() == 0 || s.last() == '\n')
}

pub open spec fn crlf_lines(lines: Seq<Seq<char>>) -> bool {
    forall|i: int| 0 <= i < lines.len() ==> crlf_line(#[trigger] lines[i])
}

/// The lines of a text whose endings are CRLF, and which ends with one.
proof fn lemma_cut_crlf(s: Seq<char>)
    requires
        whole_lines(s),
    ensures
        crlf_lines(lines_inclusive(s)),
    decreases s.len(),
{
    if s.len() > 0 {
        let k = index_before(s, '\n') as int;
        lemma_index_before(s, '\n');
        assert(k < s.len()) by {
            if k >= s.len() {
                assert(s[s.len() - 1] != '\n');
            }
        }
        let head = s.take(k + 1);
        let rest = s.skip(k + 1);
        assert(s[k] == '\n');
        assert(crlf_only(rest)) by {
            assert forall|i: int| 0 <= i < rest.len() && #[trigger] rest[i] == '\r' implies i + 1
                < rest.len() && rest[i + 1] == '\n' by {
                assert(s[i + k + 1] == '\r');
            }
            assert forall|i: int| 0 <= i < rest.len() && #[trigger] rest[i] == '\n' implies i > 0
                && rest[i - 1] == '\r' by {
                assert(s[i + k + 1] == '\n');
                assert(s[i + k] == '\r');
            }
        }
        assert(rest.len() > 0 ==> rest.last() == s.last());
        lemma_cut_crlf(rest);
        assert(crlf_line(head)) by {
            let t = head.take(head.len() - 2);
            assert forall|i: int| 0 <= i < t.len() implies #[trigger] t[i] != '\n' && t[i]
                != '\r' by {
                assert(t[i] == s[i]);
                if s[i] == '\r' {
                    assert(s[i + 1] == '\n');
                }
            }
        }
        let all = lines_inclusive(s);
        assert(all == seq![head] + lines_inclusive(rest));
        assert forall|i: int| 0 <= i < all.len() implies crlf_line(#[trigger] all[i]) by {
            if i > 0 {
                assert(all[i] == lines_inclusive(rest)[i - 1]);
            }
        }
    }
}

/// Such lines make a text whose endings are CRLF.
proof fn lemma_joined_crlf(lines: Seq<Seq<char>>)
    requires
        crlf_lines(lines),
    ensures
        whole_lines(joined(lines)),
    decreases lines.len(),
{
    if lines.len() > 0 {
        let front = lines.drop_last();
        assert forall|i: int| 0 <= i < front.len() implies crlf_line(#[trigger] front[i]) by {
            assert(front[i] == lines[i]);
        }
        lemma_joined_crlf(front);
        let a = joined(front);
        let l = lines.last();
        assert(crlf_line(lines[lines.len() - 1]));
        let s = joined(lines);
        let n = a.len() as int;
        let t = l.take(l.len() - 2);
        assert forall|i: int| 0 <= i < s.len() && #[trigger] s[i] == '\r' implies i + 1 < s.len()
            && s[i + 1] == '\n' by {
            if i < n {
                assert(a[i] == '\r');
                assert(s[i + 1] == a[i + 1]);
            } else {
                if i - n < t.len() {
                    assert(l[i - n] == t[i - n]);
                }
                assert(i == s.len() - 2);
                assert(s[i + 1] == l.last());
            }
        }
        assert forall|i: int| 0 <= i < s.len() && #[trigger] s[i] == '\n' implies i > 0 && s[i - 1]
            == '\r' by {
            if i < n {
                assert(a[i] == '\n');
                assert(s[i - 1] == a[i - 1]);
            } else {
                if i - n < t.len() {
                    assert(l[i - n] == t[i - n]);
                }
                assert(i == s.len() - 1 || i == s.len() - 2);
                assert(s[i - 1] == l[i - n - 1]);
            }
        }
    }
}

/// The line of a property that is set, with a CRLF ending.
proof fn lemma_set_line_crlf(muts: Seq<MutationV>, j: nat)
    requires
        all_plain(muts),
        j < muts.len(),
        muts[j as int].value is Some,
    ensures
        crlf_line(property_text(muts[j as int]) + "\r\n"@),
{
    let m = muts[j as int];
    let t = property_text(m);
    let line = t + "\r\n"@;
    let n = m.key.len() as int;
    reveal_strlit("\r\n");
    reveal_strlit(":");
    assert(plain_mutation(m));
    assert(line.take(line.len() - 2) =~= t);
    assert forall|i: int| 0 <= i < t.len() implies #[trigger] t[i] != '\n' && t[i] != '\r' by {
        if i < n {
            assert(t[i] == m.key[i]);
        } else if i < n + m.params.len() {
            assert(t[i] == m.params[i - n]);
        } else if i > n + m.params.len() {
            assert(t[i] == m.value->Some_0[i - n - m.params.len() - 1]);
        }
    }
}

proof fn lemma_additions_crlf(muts: Seq<MutationV>, met: Set<Seq<char>>, n: nat)
    requires
        all_plain(muts),
        n <= muts.len(),
    ensures
        crlf_lines(additions(muts, met, n)),
    decreases n,
{
    if n > 0 {
        lemma_additions_crlf(muts, met, (n - 1) as nat);
        let before = additions(muts, met, (n - 1) as nat);
        let after = additions(muts, met, n);
        if muts[n - 1].value is Some && !met.contains(muts[n - 1].key) {
            lemma_set_line_crlf(muts, (n - 1) as nat);
            assert forall|i: int| 0 <= i < after.len() implies crlf_line(#[trigger] after[i]) by {
                if i < before.len() {
                    assert(after[i] == before[i]);
                }
            }
        }
    }
}

proof fn lemma_rewritten_crlf(muts: Seq<MutationV>, lines: Seq<Seq<char>>)
    requires
        all_plain(muts),
        crlf_lines(lines),
    ensures
        crlf_lines(rewritten(outset(), muts, lines)),
    decreases lines.len(),
{
    if lines.len() > 0 {
        let front = lines.drop_last();
        let line = lines.last();
        assert forall|i: int| 0 <= i < front.len() implies crlf_line(#[trigger] front[i]) by {
            assert(front[i] == lines[i]);
        }
        lemma_rewritten_crlf(muts, front);
        assert(crlf_line(lines[lines.len() - 1]));
        let here = after_lines(outset(), muts, front);
        let a = rewritten(outset(), muts, front);
        let e = rewritten_line(here, muts, line);
        let hit = first_hit(bare_line(line), muts, 0);
        lemma_first_hit(bare_line(line), muts, 0);
        lemma_additions_crlf(muts, here.met, muts.len());
        assert(line_end(line) == "\r\n"@) by {
            reveal_strlit("\r\n");
            assert(line.subrange(line.len() - 2, line.len() as int) =~= "\r\n"@);
        }
        if is_named(here, muts, line) && !folded(line) && muts[hit as int].value is Some {
            lemma_set_line_crlf(muts, hit);
        }
        assert forall|i: int| 0 <= i < e.len() implies crlf_line(#[trigger] e[i]) by {
            if ends_todo(here, line) {
                let adds = additions(muts, here.met, muts.len());
                if i < adds.len() {
                    assert(e[i] == adds[i]);
                }
            }
        }
        let out = rewritten(outset(), muts, lines);
        assert forall|i: int| 0 <= i < out.len() implies crlf_line(#[trigger] out[i]) by {
            if i < a.len() {
                assert(out[i] == a[i]);
            } else {
                assert(out[i] == e[i - a.len()]);
            }
        }
    }
}

/// A text whose endings are CRLF, and which ends with one, is rewritten into another such
/// text.
pub proof fn law_rewriting_keeps_crlf(text: Seq<char>, muts: Seq<MutationV>)
    requires
        all_plain(muts),
        whole_lines(text),
    ensures
        whole_lines(mutated(text, muts)),
{
    lemma_cut_crlf(text);
    lemma_rewritten_crlf(muts, lines_inclusive(text));
    lemma_joined_crlf(rewritten(outset(), muts, lines_inclusive(text)));
}

/// A VTODO that lacks a property to set gets its line just before it ends.
pub proof fn law_missing_is_added_at_end(p: Place, muts: Seq<MutationV>, line: Seq<char>)
    requires
        ends_todo(p, line),
    ensures
        rewritten_line(p, muts, line) == additions(muts, p.met, muts.len()).push(line),
{
}

/// A text without a VTODO is left as it is.
pub proof fn law_no_todo_unchanged(s: Seq<char>, muts: Seq<MutationV>)
    requires
        forall|i: int|
            0 <= i < lines_inclusive(s).len() ==> !begins_todo(#[trigger] lines_inclusive(s)[i]),
    ensures
        mutated(s, muts) == s,
{
    lemma_never_inside(lines_inclusive(s), muts);
    law_lines_lose_nothing(s);
}

proof fn lemma_never_inside(lines: Seq<Seq<char>>, muts: Seq<MutationV>)
    requires
        forall|i: int| 0 <= i < lines.len() ==> !begins_todo(#[trigger] lines[i]),
    ensures
        !after_lines(outset(), muts, lines).inside,
        rewritten(outset(), muts, lines) == lines,
    decreases lines.len(),
{
    if lines.len() > 0 {
        let front = lines.drop_last();
        assert forall|i: int| 0 <= i < front.len() implies !begins_todo(#[trigger] front[i]) by {
            assert(front[i] == lines[i]);
        }
        lemma_never_inside(front, muts);
        assert(!begins_todo(lines[lines.len() - 1]));
        assert(front + seq![lines.last()] =~= lines);
    }
}

/// Without mutations nothing changes.
pub proof fn law_no_mutations_unchanged(s: Seq<char>)
    ensures
        mutated(s, Seq::empty()) == s,
{
    lemma_no_mutations(lines_inclusive(s));
    law_lines_lose_nothing(s);
}

proof fn lemma_no_mutations(lines: Seq<Seq<char>>)
    ensures
        rewritten(outset(), Seq::empty(), lines) == lines,
        !after_lines(outset(), Seq::empty(), lines).named,
    decreases lines.len(),
{
    if lines.len() > 0 {
        lemma_no_mutations(lines.drop_last());
        let none = Seq::<MutationV>::empty();
        let line = lines.last();
        let here = after_lines(outset(), none, lines.drop_last());
        assert(additions(none, here.met, 0) =~= Seq::empty());
        assert(rewritten_line(here, none, line) =~= seq![line]);
        assert(lines.drop_last() + seq![line] =~= lines);
    }
}

} // verus!
