//! iCalendar text: line endings, escaping, and rewriting the properties of a
//! VTODO in place while every other line passes through verbatim.
use vstd::prelude::*;
use crate::text::{
    begins_with, chars_of, expand, lines_inclusive, opt_text, split_inclusive, str_eq, texts,
    trim_end_char, trim_end_of,
};

verus! {

/// `s` with every line ending, be it CRLF, LF or a lone CR, written as CRLF.
pub open spec fn crlf(s: Seq<char>) -> Seq<char>
    decreases s.len(),
{
    if s.len() == 0 {
        Seq::empty()
    } else if s[0] == '\r' && s.len() > 1 && s[1] == '\n' {
        seq!['\r', '\n'] + crlf(s.skip(2))
    } else if s[0] == '\r' || s[0] == '\n' {
        seq!['\r', '\n'] + crlf(s.skip(1))
    } else {
        seq![s[0]] + crlf(s.skip(1))
    }
}

/// The escaped form of one character of a text value.
pub open spec fn ical_escape_char(c: char) -> Seq<char> {
    if c == '\\' {
        "\\\\"@
    } else if c == '\n' {
        "\\n"@
    } else if c == ',' {
        "\\,"@
    } else if c == ';' {
        "\\;"@
    } else {
        seq![c]
    }
}

/// The escaped form of a text value.
pub open spec fn ical_escaped(s: Seq<char>) -> Seq<char> {
    expand(s, |c: char| ical_escape_char(c))
}

/// A change to one property of a VTODO: set it to a value, with the parameters to
/// write behind its name, or remove it.
pub struct Mutation {
    pub key: String,
    pub params: String,
    pub value: Option<String>,
}

#[verifier::ext_equal]
pub struct MutationV {
    pub key: Seq<char>,
    pub params: Seq<char>,
    pub value: Option<Seq<char>>,
}

impl View for Mutation {
    type V = MutationV;

    open spec fn view(&self) -> MutationV {
        MutationV { key: self.key@, params: self.params@, value: opt_text(self.value) }
    }
}

pub open spec fn mutation_views(v: Seq<Mutation>) -> Seq<MutationV> {
    v.map_values(|m: Mutation| m@)
}

/// A line without its terminator.
pub open spec fn bare_line(line: Seq<char>) -> Seq<char> {
    trim_end_char(trim_end_char(line, '\n'), '\r')
}

/// A line that continues the one before it: it starts with a space or a tab.
pub open spec fn folded(line: Seq<char>) -> bool {
    line.len() > 0 && (line[0] == ' ' || line[0] == '\t')
}

/// `line` holds the property `key`: the key, then `:` or `;`.
pub open spec fn holds_property(line: Seq<char>, key: Seq<char>) -> bool {
    begins_with(line, key) && line.len() > key.len() && (line[key.len() as int] == ':'
        || line[key.len() as int] == ';')
}

/// The first mutation from `j` on whose property `line` holds, or the number of
/// mutations where there is none.
pub open spec fn first_hit(line: Seq<char>, muts: Seq<MutationV>, j: nat) -> nat
    decreases muts.len() - j,
{
    if j >= muts.len() {
        muts.len()
    } else if holds_property(line, muts[j as int].key) {
        j
    } else {
        first_hit(line, muts, j + 1)
    }
}

/// What is known between two lines: whether a VTODO was begun and not yet ended,
/// whether the last line belongs to a property to change, and the keys of the
/// properties to change that were met since the last `BEGIN:VTODO`.
#[verifier::ext_equal]
pub struct Place {
    pub inside: bool,
    pub named: bool,
    pub met: Set<Seq<char>>,
}

/// Before the first line.
pub open spec fn outset() -> Place {
    Place { inside: false, named: false, met: Set::empty() }
}

/// `line` ends the VTODO in hand.
pub open spec fn ends_todo(p: Place, line: Seq<char>) -> bool {
    p.inside && bare_line(line) == "END:VTODO"@
}

/// `line` begins a VTODO.
pub open spec fn begins_todo(line: Seq<char>) -> bool {
    bare_line(line) == "BEGIN:VTODO"@
}

/// `line` belongs to a property to change: it holds one, or it continues a line
/// that does.
pub open spec fn is_named(p: Place, muts: Seq<MutationV>, line: Seq<char>) -> bool {
    if !p.inside || ends_todo(p, line) || begins_todo(line) {
        false
    } else if folded(line) {
        p.named
    } else {
        first_hit(bare_line(line), muts, 0) < muts.len()
    }
}

/// The place after `line`.
pub open spec fn after_line(p: Place, muts: Seq<MutationV>, line: Seq<char>) -> Place {
    let hit = first_hit(bare_line(line), muts, 0);
    if ends_todo(p, line) {
        Place { inside: false, named: false, met: p.met }
    } else if begins_todo(line) {
        Place { inside: true, named: false, met: Set::empty() }
    } else if is_named(p, muts, line) && !folded(line) {
        Place { inside: true, named: true, met: p.met.insert(muts[hit as int].key) }
    } else {
        Place { inside: p.inside, named: is_named(p, muts, line), met: p.met }
    }
}

/// The place after all of `lines`.
pub open spec fn after_lines(p: Place, muts: Seq<MutationV>, lines: Seq<Seq<char>>) -> Place
    decreases lines.len(),
{
    if lines.len() == 0 {
        p
    } else {
        after_line(after_lines(p, muts, lines.drop_last()), muts, lines.last())
    }
}

/// The text of the property that a mutation sets: `KEY`, its parameters, `:` and the
/// value.
pub open spec fn property_text(m: MutationV) -> Seq<char> {
    m.key + m.params + ":"@ + m.value->Some_0
}

/// The lines to add at the end of a VTODO: one for each of the first `n`
/// mutations that sets a property the VTODO did not have.
pub open spec fn additions(muts: Seq<MutationV>, met: Set<Seq<char>>, n: nat) -> Seq<Seq<char>>
    decreases n,
{
    if n == 0 {
        Seq::empty()
    } else {
        let m = muts[n - 1];
        let before = additions(muts, met, (n - 1) as nat);
        if m.value is Some && !met.contains(m.key) {
            before.push(property_text(m) + "\r\n"@)
        } else {
            before
        }
    }
}

/// The terminator that a line set anew gets: that of the line before.
pub open spec fn line_end(line: Seq<char>) -> Seq<char> {
    if crate::text::finishes_with(line, "\r\n"@) {
        "\r\n"@
    } else {
        "\n"@
    }
}

/// The lines that `line` becomes. The end of a VTODO gets the missing properties in
/// front of it. A line that holds a property to change is set anew or dropped, and the
/// lines that continue it are dropped with it. Any other line stays.
pub open spec fn rewritten_line(p: Place, muts: Seq<MutationV>, line: Seq<char>) -> Seq<Seq<char>> {
    let hit = first_hit(bare_line(line), muts, 0);
    if ends_todo(p, line) {
        additions(muts, p.met, muts.len()).push(line)
    } else if !is_named(p, muts, line) {
        seq![line]
    } else if !folded(line) && muts[hit as int].value is Some {
        seq![property_text(muts[hit as int]) + line_end(line)]
    } else {
        Seq::empty()
    }
}

/// The lines that `lines` become.
pub open spec fn rewritten(p: Place, muts: Seq<MutationV>, lines: Seq<Seq<char>>) -> Seq<Seq<char>>
    decreases lines.len(),
{
    if lines.len() == 0 {
        Seq::empty()
    } else {
        rewritten(p, muts, lines.drop_last()) + rewritten_line(
            after_lines(p, muts, lines.drop_last()),
            muts,
            lines.last(),
        )
    }
}

/// The lines one behind the other.
pub open spec fn joined(lines: Seq<Seq<char>>) -> Seq<char>
    decreases lines.len(),
{
    if lines.len() == 0 {
        Seq::empty()
    } else {
        joined(lines.drop_last()) + lines.last()
    }
}

/// `ical` with the mutations applied to each of its VTODOs.
pub open spec fn mutated(ical: Seq<char>, muts: Seq<MutationV>) -> Seq<char> {
    joined(rewritten(outset(), muts, lines_inclusive(ical)))
}

/// Lines behind one another, cut anywhere.
pub proof fn lemma_joined_add(a: Seq<Seq<char>>, b: Seq<Seq<char>>)
    ensures
        joined(a + b) == joined(a) + joined(b),
    decreases b.len(),
{
    if b.len() == 0 {
        assert(a + b =~= a);
        assert(joined(a) + Seq::<char>::empty() =~= joined(a));
    } else {
        lemma_joined_add(a, b.drop_last());
        assert((a + b).drop_last() =~= a + b.drop_last());
        assert(joined(a + b) =~= joined(a) + joined(b));
    }
}

/// Writes every line ending as CRLF.
pub fn ensure_crlf(s: &str) -> (r: String)
    ensures
        r@ == crlf(s@),
{
    let v = chars_of(s);
    let mut r = String::new();
    let mut i: usize = 0;
    proof {
        assert(v@.skip(0) =~= s@);
        assert(r@ + crlf(v@.skip(0)) =~= crlf(s@));
    }
    while i < v.len()
        invariant
            i <= v@.len(),
            r@ + crlf(v@.skip(i as int)) == crlf(s@),
        decreases v@.len() - i,
    {
        let ghost rest = v@.skip(i as int);
        let ghost done = r@;
        let c = v[i];
        if c == '\r' && i + 1 < v.len() && v[i + 1] == '\n' {
            r.push('\r');
            r.push('\n');
            i += 2;
            proof {
                assert(rest.skip(2) =~= v@.skip(i as int));
                assert(r@ + crlf(v@.skip(i as int)) =~= done + (seq!['\r', '\n'] + crlf(
                    v@.skip(i as int),
                )));
            }
        } else if c == '\r' || c == '\n' {
            r.push('\r');
            r.push('\n');
            i += 1;
            proof {
                assert(rest.skip(1) =~= v@.skip(i as int));
                assert(r@ + crlf(v@.skip(i as int)) =~= done + (seq!['\r', '\n'] + crlf(
                    v@.skip(i as int),
                )));
            }
        } else {
            r.push(c);
            i += 1;
            proof {
                assert(rest.skip(1) =~= v@.skip(i as int));
                assert(r@ + crlf(v@.skip(i as int)) =~= done + (seq![c] + crlf(v@.skip(i as int))));
            }
        }
    }
    proof {
        assert(v@.skip(i as int) =~= Seq::<char>::empty());
        assert(r@ + Seq::<char>::empty() =~= r@);
    }
    r
}

/// Escapes a text value for a property.
pub fn escape_ical_text(s: &str) -> (r: String)
    ensures
        r@ == ical_escaped(s@),
{
    let v = chars_of(s);
    let mut r = String::new();
    let mut i: usize = 0;
    while i < v.len()
        invariant
            i <= v@.len(),
            r@ == ical_escaped(v@.take(i as int)),
        decreases v@.len() - i,
    {
        let c = v[i];
        proof {
            assert(v@.take(i + 1).drop_last() =~= v@.take(i as int));
        }
        if c == '\\' {
            r.append("\\\\");
        } else if c == '\n' {
            r.append("\\n");
        } else if c == ',' {
            r.append("\\,");
        } else if c == ';' {
            r.append("\\;");
        } else {
            let ghost before = r@;
            r.push(c);
            assert(before + seq![c] =~= r@);
        }
        i += 1;
    }
    assert(v@.take(i as int) =~= s@);
    r
}

/// The index of the first mutation whose property `line` holds.
fn matching_mutation(line: &str, mutations: &Vec<Mutation>) -> (r: Option<usize>)
    ensures
        match r {
            Some(j) => j < mutations@.len() && j == first_hit(
                line@,
                mutation_views(mutations@),
                0,
            ),
            None => first_hit(line@, mutation_views(mutations@), 0) == mutations@.len(),
        },
{
    let v = chars_of(line);
    let mut j: usize = 0;
    while j < mutations.len()
        invariant
            v@ == line@,
            j <= mutations@.len(),
            first_hit(line@, mutation_views(mutations@), 0) == first_hit(
                line@,
                mutation_views(mutations@),
                j as nat,
            ),
        decreases mutations@.len() - j,
    {
        let key = chars_of(mutations[j].key.as_str());
        if crate::text::stands_at_chars(&v, &key, 0) && v.len() > key.len() && (v[key.len()] == ':'
            || v[key.len()] == ';') {
            return Some(j);
        }
        j += 1;
    }
    None
}

/// One line alone.
pub proof fn lemma_joined_one(line: Seq<char>)
    ensures
        joined(seq![line]) == line,
{
    let one = seq![line];
    assert(one.drop_last() =~= Seq::empty());
    assert(joined(one.drop_last()) =~= Seq::empty());
    assert(one.last() == line);
    assert(joined(one) =~= line);
}

/// Is this the start of a folded line?
fn is_folded(line: &str) -> (b: bool)
    ensures
        b == folded(line@),
{
    let v = chars_of(line);
    v.len() > 0 && (v[0] == ' ' || v[0] == '\t')
}

/// Writes the line of a property that a mutation sets.
fn append_property(out: &mut String, m: &Mutation, value: &str, end: &str)
    requires
        m@.value == Some(value@),
    ensures
        final(out)@ == old(out)@ + (property_text(m@) + end@),
{
    let ghost done = out@;
    out.append(m.key.as_str());
    out.append(m.params.as_str());
    out.append(":");
    out.append(value);
    out.append(end);
    assert(out@ =~= done + (property_text(m@) + end@));
}

/// Writes the properties that a VTODO is still missing.
fn append_additions(
    out: &mut String,
    mutations: &Vec<Mutation>,
    met: &Vec<bool>,
    Ghost(keys): Ghost<Set<Seq<char>>>,
)
    requires
        met@.len() == mutations@.len(),
        forall|x: int|
            0 <= x < met@.len() ==> met@[x] == keys.contains(
                #[trigger] mutation_views(mutations@)[x].key,
            ),
    ensures
        final(out)@ == old(out)@ + joined(
            additions(mutation_views(mutations@), keys, mutations@.len()),
        ),
{
    let ghost muts = mutation_views(mutations@);
    let ghost done = out@;
    let mut j: usize = 0;
    assert(out@ =~= done + joined(additions(muts, keys, 0)));
    while j < mutations.len()
        invariant
            j <= mutations@.len(),
            muts == mutation_views(mutations@),
            met@.len() == mutations@.len(),
            forall|x: int| 0 <= x < met@.len() ==> met@[x] == keys.contains(#[trigger] muts[x].key),
            out@ == done + joined(additions(muts, keys, j as nat)),
        decreases mutations@.len() - j,
    {
        let ghost adds = additions(muts, keys, j as nat);
        let ghost so_far = out@;
        assert(muts[j as int] == mutations@[j as int]@);
        if !met[j] {
            match &mutations[j].value {
                Some(v) => {
                    append_property(out, &mutations[j], v.as_str(), "\r\n");
                    proof {
                        let line = property_text(muts[j as int]) + "\r\n"@;
                        assert(adds.push(line).drop_last() =~= adds);
                        assert(out@ =~= done + (joined(adds) + line));
                    }
                },
                None => {},
            }
        }
        j += 1;
    }
}

/// Applies the mutations to each VTODO. A folded property is replaced or removed with
/// the lines that continue it. X-properties, alarms, the folded lines of every other
/// property and everything outside a VTODO pass through unchanged.
pub fn apply_vtodo_mutations(ical: &str, mutations: &Vec<Mutation>) -> (r: String)
    ensures
        r@ == mutated(ical@, mutation_views(mutations@)),
{
    let lines = split_inclusive(ical);
    let ghost ls = lines_inclusive(ical@);
    let ghost muts = mutation_views(mutations@);
    let mut out = String::new();
    let mut in_vtodo = false;
    let mut named = false;
    let mut met: Vec<bool> = Vec::new();
    let mut k: usize = 0;
    while k < mutations.len()
        invariant
            k <= mutations@.len(),
            met@.len() == k,
            forall|x: int| 0 <= x < k ==> !met@[x],
        decreases mutations@.len() - k,
    {
        met.push(false);
        k += 1;
    }
    let mut i: usize = 0;
    while i < lines.len()
        invariant
            i <= lines@.len(),
            texts(lines@) == ls,
            muts == mutation_views(mutations@),
            met@.len() == mutations@.len(),
            in_vtodo == after_lines(outset(), muts, ls.take(i as int)).inside,
            named == after_lines(outset(), muts, ls.take(i as int)).named,
            forall|x: int|
                0 <= x < met@.len() ==> met@[x] == after_lines(
                    outset(),
                    muts,
                    ls.take(i as int),
                ).met.contains(#[trigger] muts[x].key),
            out@ == joined(rewritten(outset(), muts, ls.take(i as int))),
        decreases lines@.len() - i,
    {
        let line = lines[i].as_str();
        assert(line@ == ls[i as int]);
        let no_lf = trim_end_of(line, '\n');
        let bare = trim_end_of(no_lf.as_str(), '\r');
        let ghost place = after_lines(outset(), muts, ls.take(i as int));
        let ghost done = out@;
        proof {
            assert(ls.take(i + 1).drop_last() =~= ls.take(i as int));
            assert(ls.take(i + 1).last() == line@);
            lemma_joined_add(
                rewritten(outset(), muts, ls.take(i as int)),
                rewritten_line(place, muts, line@),
            );
            lemma_joined_one(line@);
        }
        if in_vtodo && str_eq(bare.as_str(), "END:VTODO") {
            append_additions(&mut out, mutations, &met, Ghost(place.met));
            out.append(line);
            in_vtodo = false;
            named = false;
            proof {
                let adds = additions(muts, place.met, muts.len());
                assert(adds.push(line@).drop_last() =~= adds);
                assert(out@ =~= done + (joined(adds) + line@));
            }
        } else if str_eq(bare.as_str(), "BEGIN:VTODO") {
            in_vtodo = true;
            named = false;
            let mut j: usize = 0;
            while j < met.len()
                invariant
                    j <= met@.len(),
                    met@.len() == mutations@.len(),
                    forall|x: int| 0 <= x < j ==> !met@[x],
                decreases met@.len() - j,
            {
                met.set(j, false);
                j += 1;
            }
            out.append(line);
        } else if in_vtodo && is_folded(line) {
            if !named {
                out.append(line);
            } else {
                assert(out@ =~= done + joined(Seq::<Seq<char>>::empty()));
            }
        } else if in_vtodo {
            match matching_mutation(bare.as_str(), mutations) {
                Some(h) => {
                    assert(muts[h as int] == mutations@[h as int]@);
                    named = true;
                    let mut j: usize = 0;
                    while j < met.len()
                        invariant
                            j <= met@.len(),
                            h < mutations@.len(),
                            muts == mutation_views(mutations@),
                            met@.len() == mutations@.len(),
                            forall|x: int|
                                j <= x < met@.len() ==> met@[x] == place.met.contains(
                                    #[trigger] muts[x].key,
                                ),
                            forall|x: int|
                                0 <= x < j ==> met@[x] == place.met.insert(
                                    muts[h as int].key,
                                ).contains(#[trigger] muts[x].key),
                        decreases met@.len() - j,
                    {
                        assert(muts[j as int] == mutations@[j as int]@);
                        assert(muts[h as int] == mutations@[h as int]@);
                        if str_eq(mutations[j].key.as_str(), mutations[h].key.as_str()) {
                            met.set(j, true);
                        }
                        j += 1;
                    }
                    match &mutations[h].value {
                        Some(v) => {
                            let end = if crate::text::ends_with(line, "\r\n") {
                                "\r\n"
                            } else {
                                "\n"
                            };
                            append_property(&mut out, &mutations[h], v.as_str(), end);
                            proof {
                                lemma_joined_one(property_text(muts[h as int]) + end@);
                            }
                        },
                        None => {
                            assert(out@ =~= done + joined(Seq::<Seq<char>>::empty()));
                        },
                    }
                },
                None => {
                    named = false;
                    out.append(line);
                },
            }
        } else {
            named = false;
            out.append(line);
        }
        i += 1;
    }
    assert(ls.take(i as int) =~= ls);
    out
}

} // verus!
