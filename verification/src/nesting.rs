//! What an iCalendar text may ask of the machine that reads it: how deeply its components
//! nest, and how long its lines are.
use vstd::prelude::*;
use crate::seqs::{find, lemma_find_is};
use crate::text::{
    ascii_lower, begins_with, chars_of, contains, ends_with, finishes_with, has_sub, index_before,
    lemma_index_before_at, lines_inclusive, split_inclusive, stands_at, stands_at_chars,
    starts_with, str_eq, string_of_range, text_bytes, texts, to_ascii_lower,
};

verus! {

/// Components nested more deeply than this are not read. They are read one inside the
/// other on the stack, and a stack of two megabytes, which is what a thread has, holds half
/// as many again.
pub const NESTING_LIMIT: usize = 100;

/// The columns of a line, in bytes, that a message about it can point at.
pub const COLUMN_LIMIT: usize = 65534;

/// The length of the fold at the start of `s`: a line ending, then a space or a tab. It
/// is 0 where there is none.
pub open spec fn fold_width(s: Seq<char>) -> nat {
    if s.len() > 2 && s[0] == '\r' && s[1] == '\n' && (s[2] == ' ' || s[2] == '\t') {
        3
    } else if s.len() > 1 && s[0] == '\n' && (s[1] == ' ' || s[1] == '\t') {
        2
    } else {
        0
    }
}

/// `s` without its folds.
pub open spec fn unfolded(s: Seq<char>) -> Seq<char>
    decreases s.len(),
{
    if s.len() == 0 {
        Seq::empty()
    } else if fold_width(s) > 0 {
        unfolded(s.skip(fold_width(s) as int))
    } else {
        seq![s[0]] + unfolded(s.skip(1))
    }
}

/// The number of places before `n` at which `begin:` stands in a line, whatever the case
/// of its letters.
pub open spec fn begins_before(line: Seq<char>, n: nat) -> nat
    decreases n,
{
    if n == 0 {
        0
    } else {
        begins_before(line, (n - 1) as nat) + if stands_at(
            ascii_lower(line),
            "begin:"@,
            n - 1,
        ) {
            1nat
        } else {
            0nat
        }
    }
}

/// `line` starts with `END:`, whatever the case of its letters.
pub open spec fn starts_end(line: Seq<char>) -> bool {
    begins_with(ascii_lower(line), "end:"@)
}

/// What is known of the quotes before some place in a line: whether each stands where a
/// quoted parameter starts or ends, whether one is open, and whether a colon came since
/// the last.
pub struct Quotes {
    pub fit: bool,
    pub open: bool,
    pub colon: bool,
}

/// The quotes among the first `n` characters. One opens behind `=` or `,` and closes
/// before `;`, `:` or `,`.
pub open spec fn quotes(s: Seq<char>, n: nat) -> Quotes
    decreases n,
{
    if n == 0 {
        Quotes { fit: true, open: false, colon: false }
    } else {
        let before = quotes(s, (n - 1) as nat);
        let c = s[n - 1];
        if c != '"' {
            Quotes { colon: before.colon || c == ':', ..before }
        } else if before.open {
            Quotes {
                fit: before.fit && n < s.len() && (s[n as int] == ';' || s[n as int] == ':'
                    || s[n as int] == ','),
                open: false,
                colon: false,
            }
        } else {
            Quotes {
                fit: before.fit && n >= 2 && (s[n - 2] == '=' || s[n - 2] == ','),
                open: true,
                colon: false,
            }
        }
    }
}

/// Every quoted parameter of a line closes in it, and a colon follows the last.
pub open spec fn well_quoted(line: Seq<char>) -> bool {
    let q = quotes(line, line.len());
    q.fit && !q.open && q.colon
}

/// The value of a line starts before any quote in it.
pub open spec fn value_comes_first(line: Seq<char>) -> bool {
    index_before(line, ':') < index_before(line, '"')
}

/// A line that is read by itself, whatever stands before and after it: no parameter in it
/// can run on into the next line, and it ends as the other lines of the text do.
pub open spec fn stands_alone(line: Seq<char>, crlf_text: bool) -> bool {
    &&& has_sub(line, "=\""@) ==> value_comes_first(line) || well_quoted(line)
    &&& has_sub(line, ";"@) ==> has_sub(line, ":"@) && !starts_end(line) && !begins_with(
        ascii_lower(line),
        "begin:"@,
    )
    &&& crlf_text && finishes_with(line, "\n"@) ==> finishes_with(line, "\r\n"@)
}

/// A letter, digit or sign of which the names of properties are made.
pub open spec fn is_name_char(c: char) -> bool {
    'a' <= c <= 'z' || 'A' <= c <= 'Z' || '0' <= c <= '9' || c == '-' || c == '_' || c == '.' || c
        == ',' || c == '/'
}

/// The number of such characters at the start of a line.
pub open spec fn name_width(line: Seq<char>) -> nat {
    find(line, |c: char| !is_name_char(c), 0)
}

/// A line that holds a property: its name, then its value or its parameters. What stands in
/// the rest of it opens nothing.
pub open spec fn is_property_line(line: Seq<char>) -> bool {
    let n = name_width(line) as int;
    let name = ascii_lower(line.take(n));
    n < line.len() && (line[n] == ':' || line[n] == ';') && name != "begin"@ && name != "end"@
}

/// The number of components that a line can open. `alone` says that it, and every line
/// before it, is read by itself.
pub open spec fn opened_by(line: Seq<char>, alone: bool) -> nat {
    if alone && is_property_line(line) {
        0
    } else {
        begins_before(line, line.len())
    }
}

/// The components open after some lines, the most that were open on the way, and whether
/// each line so far stands alone.
pub struct Nest {
    pub open: nat,
    pub deepest: nat,
    pub sure: bool,
}

/// The nesting after the first `n` lines. Every `BEGIN:` counts as one that opens a
/// component, but for those in a property on a line that is read by itself. An `END:`
/// counts as one that closes a component only where it starts a line and every line up to
/// it stands alone: elsewhere it may be part of a value.
pub open spec fn nesting(lines: Seq<Seq<char>>, crlf_text: bool, n: nat) -> Nest
    decreases n,
{
    if n == 0 {
        Nest { open: 0, deepest: 0, sure: true }
    } else {
        let before = nesting(lines, crlf_text, (n - 1) as nat);
        let line = lines[n - 1];
        let sure = before.sure && stands_alone(line, crlf_text);
        let left = if sure && starts_end(line) && before.open > 0 {
            (before.open - 1) as nat
        } else {
            before.open
        };
        let open = left + opened_by(line, sure);
        Nest {
            open,
            deepest: if open > before.deepest {
                open
            } else {
                before.deepest
            },
            sure,
        }
    }
}

/// A bound on how deeply the components of a text nest.
pub open spec fn begin_depth(text: Seq<char>) -> nat {
    let flat = unfolded(text);
    let lines = lines_inclusive(flat);
    nesting(lines, has_sub(flat, "\r\n"@), lines.len()).deepest
}

/// Every line of a text, without its folds, is short enough to point into.
pub open spec fn lines_short(text: Seq<char>) -> bool {
    let lines = lines_inclusive(unfolded(text));
    forall|i: int| 0 <= i < lines.len() ==> text_bytes(#[trigger] lines[i]) <= COLUMN_LIMIT
}

/// A longer text takes more bytes.
proof fn lemma_bytes_grow(s: Seq<char>, n: int)
    requires
        0 <= n <= s.len(),
    ensures
        text_bytes(s.take(n)) <= text_bytes(s),
    decreases s.len(),
{
    if n < s.len() {
        lemma_bytes_grow(s.drop_last(), n);
        assert(s.drop_last().take(n) =~= s.take(n));
    } else {
        assert(s.take(n) =~= s);
    }
}

/// Is a line short enough to point into?
fn line_is_short(line: &str) -> (b: bool)
    ensures
        b == (text_bytes(line@) <= COLUMN_LIMIT),
{
    let v = chars_of(line);
    let mut n: usize = 0;
    let mut i: usize = 0;
    while i < v.len()
        invariant
            i <= v@.len(),
            v@ == line@,
            n <= COLUMN_LIMIT,
            n == text_bytes(line@.take(i as int)),
        decreases v@.len() - i,
    {
        let code = v[i] as u32;
        proof {
            assert(line@.take(i + 1).drop_last() =~= line@.take(i as int));
            lemma_bytes_grow(line@, i + 1);
        }
        let width: usize = if code < 0x80 {
            1
        } else if code < 0x800 {
            2
        } else if code < 0x1_0000 {
            3
        } else {
            4
        };
        n += width;
        i += 1;
        if n > COLUMN_LIMIT {
            return false;
        }
    }
    assert(line@.take(i as int) =~= line@);
    true
}

/// Is every line of a text short enough to point into?
pub fn has_short_lines(text: &str) -> (b: bool)
    ensures
        b == lines_short(text@),
{
    let flat = unfold_text(text);
    let lines = split_inclusive(flat.as_str());
    let ghost ls = lines_inclusive(flat@);
    let mut i: usize = 0;
    while i < lines.len()
        invariant
            i <= lines@.len(),
            texts(lines@) == ls,
            ls == lines_inclusive(unfolded(text@)),
            forall|j: int| 0 <= j < i ==> text_bytes(#[trigger] ls[j]) <= COLUMN_LIMIT,
        decreases lines@.len() - i,
    {
        assert(lines@[i as int]@ == ls[i as int]);
        if !line_is_short(lines[i].as_str()) {
            return false;
        }
        i += 1;
    }
    true
}

/// Takes out the folds of a text.
fn unfold_text(s: &str) -> (r: String)
    ensures
        r@ == unfolded(s@),
{
    let v = chars_of(s);
    let mut r = String::new();
    let mut i: usize = 0;
    proof {
        assert(v@.skip(0) =~= s@);
        assert(r@ + unfolded(v@.skip(0)) =~= unfolded(s@));
    }
    while i < v.len()
        invariant
            i <= v@.len(),
            r@ + unfolded(v@.skip(i as int)) == unfolded(s@),
        decreases v@.len() - i,
    {
        let ghost rest = v@.skip(i as int);
        let ghost done = r@;
        let left: usize = v.len() - i;
        let c = v[i];
        if left > 2 && c == '\r' && v[i + 1] == '\n' && (v[i + 2] == ' ' || v[i + 2] == '\t') {
            i += 3;
            assert(rest.skip(3) =~= v@.skip(i as int));
        } else if left > 1 && c == '\n' && (v[i + 1] == ' ' || v[i + 1] == '\t') {
            i += 2;
            assert(rest.skip(2) =~= v@.skip(i as int));
        } else {
            r.push(c);
            i += 1;
            proof {
                assert(rest.skip(1) =~= v@.skip(i as int));
                assert(r@ + unfolded(v@.skip(i as int)) =~= done + (seq![c] + unfolded(
                    v@.skip(i as int),
                )));
            }
        }
    }
    proof {
        assert(v@.skip(i as int) =~= Seq::<char>::empty());
        assert(r@ + Seq::<char>::empty() =~= r@);
    }
    r
}

/// Counts the places at which `begin:` stands in a line.
fn count_begins(line: &str) -> (n: usize)
    ensures
        n == begins_before(line@, line@.len()),
{
    let lower = to_ascii_lower(line);
    let v = chars_of(lower.as_str());
    let word = chars_of("begin:");
    let mut n: usize = 0;
    let mut i: usize = 0;
    while i < v.len()
        invariant
            i <= v@.len(),
            n <= i,
            v@ == ascii_lower(line@),
            word@ == "begin:"@,
            n == begins_before(line@, i as nat),
        decreases v@.len() - i,
    {
        if stands_at_chars(&v, &word, i) {
            n += 1;
        }
        i += 1;
    }
    n
}

/// Is this a letter, digit or sign of a name?
fn in_name(c: char) -> (b: bool)
    ensures
        b == is_name_char(c),
{
    ('a' <= c && c <= 'z') || ('A' <= c && c <= 'Z') || ('0' <= c && c <= '9') || c == '-' || c
        == '_' || c == '.' || c == ',' || c == '/'
}

/// Does this line hold a property?
fn holds_a_property(line: &str) -> (b: bool)
    ensures
        b == is_property_line(line@),
{
    let v = chars_of(line);
    let mut n: usize = 0;
    while n < v.len() && in_name(v[n])
        invariant
            n <= v@.len(),
            v@ == line@,
            forall|i: int| 0 <= i < n ==> is_name_char(#[trigger] line@[i]),
        decreases v@.len() - n,
    {
        n += 1;
    }
    proof {
        let p = |c: char| !is_name_char(c);
        assert forall|i: int| 0 <= i < n implies !p(#[trigger] line@[i]) by {}
        lemma_find_is(line@, p, n as nat);
    }
    if n >= v.len() || !(v[n] == ':' || v[n] == ';') {
        return false;
    }
    let name = to_ascii_lower(string_of_range(&v, 0, n).as_str());
    assert(line@.subrange(0, n as int) =~= line@.take(n as int));
    !str_eq(name.as_str(), "begin") && !str_eq(name.as_str(), "end")
}

/// Counts the components that a line can open.
fn count_opened(line: &str, alone: bool) -> (n: usize)
    ensures
        n == opened_by(line@, alone),
{
    if alone && holds_a_property(line) {
        0
    } else {
        count_begins(line)
    }
}

/// Counts the characters before the first `c`.
fn count_before(line: &str, c: char) -> (n: usize)
    ensures
        n == index_before(line@, c),
{
    let v = chars_of(line);
    let mut i: usize = 0;
    while i < v.len() && v[i] != c
        invariant
            i <= v@.len(),
            forall|j: int| 0 <= j < i ==> v@[j] != c,
        decreases v@.len() - i,
    {
        i += 1;
    }
    proof {
        lemma_index_before_at(line@, c, i as nat);
    }
    i
}

/// Does every quoted parameter of a line close in it?
fn is_well_quoted(line: &str) -> (b: bool)
    ensures
        b == well_quoted(line@),
{
    let v = chars_of(line);
    let mut fit = true;
    let mut open = false;
    let mut colon = false;
    let mut i: usize = 0;
    while i < v.len()
        invariant
            i <= v@.len(),
            v@ == line@,
            fit == quotes(line@, i as nat).fit,
            open == quotes(line@, i as nat).open,
            colon == quotes(line@, i as nat).colon,
        decreases v@.len() - i,
    {
        let c = v[i];
        let n: usize = i + 1;
        if c != '"' {
            colon = colon || c == ':';
        } else if open {
            fit = fit && n < v.len() && (v[n] == ';' || v[n] == ':' || v[n] == ',');
            open = false;
            colon = false;
        } else {
            fit = fit && n >= 2 && (v[n - 2] == '=' || v[n - 2] == ',');
            open = true;
            colon = false;
        }
        i += 1;
    }
    fit && !open && colon
}

/// Does this line stand alone?
fn is_alone(line: &str, crlf_text: bool) -> (b: bool)
    ensures
        b == stands_alone(line@, crlf_text),
{
    let lower = to_ascii_lower(line);
    if contains(line, "=\"") && count_before(line, ':') >= count_before(line, '"')
        && !is_well_quoted(line) {
        return false;
    }
    if contains(line, ";") && (!contains(line, ":") || starts_with(lower.as_str(), "end:")
        || starts_with(lower.as_str(), "begin:")) {
        return false;
    }
    !(crlf_text && ends_with(line, "\n") && !ends_with(line, "\r\n"))
}

/// The most components that were open never becomes less.
proof fn lemma_deepest_grows(lines: Seq<Seq<char>>, crlf_text: bool, n: nat, m: nat)
    requires
        n <= m,
    ensures
        nesting(lines, crlf_text, n).deepest <= nesting(lines, crlf_text, m).deepest,
    decreases m,
{
    if n < m {
        lemma_deepest_grows(lines, crlf_text, n, (m - 1) as nat);
    }
}

/// Do the components of a text nest no more deeply than is read?
pub fn nests_within_limit(text: &str) -> (b: bool)
    ensures
        b == (begin_depth(text@) <= NESTING_LIMIT),
{
    let flat = unfold_text(text);
    let crlf_text = contains(flat.as_str(), "\r\n");
    let lines = split_inclusive(flat.as_str());
    let ghost ls = lines_inclusive(flat@);
    let mut open: usize = 0;
    let mut sure = true;
    let mut i: usize = 0;
    while i < lines.len()
        invariant
            i <= lines@.len(),
            texts(lines@) == ls,
            ls == lines_inclusive(unfolded(text@)),
            crlf_text == has_sub(unfolded(text@), "\r\n"@),
            open == nesting(ls, crlf_text, i as nat).open,
            sure == nesting(ls, crlf_text, i as nat).sure,
            nesting(ls, crlf_text, i as nat).deepest <= NESTING_LIMIT,
            open <= NESTING_LIMIT,
        decreases lines@.len() - i,
    {
        let line = lines[i].as_str();
        assert(line@ == ls[i as int]);
        sure = sure && is_alone(line, crlf_text);
        if sure && open > 0 && starts_with(to_ascii_lower(line).as_str(), "end:") {
            open -= 1;
        }
        let more = count_opened(line, sure);
        if more > NESTING_LIMIT - open {
            proof {
                assert(nesting(ls, crlf_text, (i + 1) as nat).deepest > NESTING_LIMIT);
                lemma_deepest_grows(ls, crlf_text, (i + 1) as nat, ls.len());
            }
            return false;
        }
        open += more;
        i += 1;
    }
    true
}

} // verus!
