//! The log: one line for each event, and the end of it for the user.
use vstd::prelude::*;
use crate::clock::{log_stamp, log_stamp_like};
use crate::text::{chars_of, join, joined, lines_inclusive, split_inclusive, string_of_range, texts};

verus! {

/// The size from which on the log is put aside, in bytes.
pub const MAX_BYTES: u64 = 262144;

/// Is it time to put the log aside?
pub fn needs_rotation(len: u64) -> (r: bool)
    ensures
        r == (len >= 256 * 1024),
{
    len >= MAX_BYTES
}

/// A character of an event, with line breaks as blanks.
pub open spec fn scrubbed_char(c: char) -> char {
    if c == '\r' || c == '\n' {
        ' '
    } else {
        c
    }
}

/// An event on one line.
pub open spec fn scrubbed(s: Seq<char>) -> Seq<char> {
    s.map_values(|c: char| scrubbed_char(c))
}

/// Puts an event on one line.
pub fn scrub(event: &str) -> (r: String)
    ensures
        r@ == scrubbed(event@),
{
    let v = chars_of(event);
    let mut r = String::new();
    let mut i: usize = 0;
    while i < v.len()
        invariant
            i <= v@.len(),
            r@ == scrubbed(v@.take(i as int)),
        decreases v@.len() - i,
    {
        let c = v[i];
        if c == '\r' || c == '\n' {
            r.push(' ');
        } else {
            r.push(c);
        }
        proof {
            assert(scrubbed(v@.take(i + 1)) =~= scrubbed(v@.take(i as int)).push(
                scrubbed_char(c),
            ));
        }
        i += 1;
    }
    assert(v@.take(i as int) =~= event@);
    r
}

/// The line for an event at the time `stamp`.
pub open spec fn line_of(stamp: Seq<char>, event: Seq<char>) -> Seq<char> {
    stamp + " "@ + scrubbed(event) + "\n"@
}

/// Writes the line for an event.
pub fn log_line_at(stamp: &str, event: &str) -> (r: String)
    ensures
        r@ == line_of(stamp@, event@),
{
    let mut r = stamp.to_owned();
    r.append(" ");
    r.append(scrub(event).as_str());
    r.append("\n");
    r
}

/// Writes the line for an event that happens now.
pub fn log_line(event: &str) -> (r: String)
    ensures
        exists|stamp: Seq<char>| log_stamp_like(stamp) && r@ == #[trigger] line_of(stamp, event@),
{
    let stamp = log_stamp();
    let r = log_line_at(stamp.as_str(), event);
    assert(log_stamp_like(stamp@) && r@ == line_of(stamp@, event@));
    r
}

/// An event makes one line of the log, whatever it holds: the only line break is at its
/// end.
pub proof fn law_one_line_per_event(stamp: Seq<char>, event: Seq<char>)
    requires
        log_stamp_like(stamp),
    ensures
        line_of(stamp, event).last() == '\n',
        forall|i: int|
            0 <= i < line_of(stamp, event).len() - 1 ==> #[trigger] line_of(stamp, event)[i]
                != '\n' && line_of(stamp, event)[i] != '\r',
{
    reveal_strlit(" ");
    reveal_strlit("\n");
    let l = line_of(stamp, event);
    let y = stamp.len() - 16;
    assert forall|i: int| 0 <= i < l.len() - 1 implies #[trigger] l[i] != '\n' && l[i] != '\r' by {
        if i < y {
            assert(l[i] == stamp.take(y)[i]);
        } else if i < stamp.len() {
            assert(l[i] == stamp[i]);
        } else if i > stamp.len() {
            assert(l[i] == scrubbed_char(event[i - stamp.len() - 1]));
        }
    }
}

/// A line without its terminator, LF or CRLF.
pub open spec fn unterminated(l: Seq<char>) -> Seq<char> {
    if l.len() > 0 && l.last() == '\n' {
        let m = l.drop_last();
        if m.len() > 0 && m.last() == '\r' {
            m.drop_last()
        } else {
            m
        }
    } else {
        l
    }
}

/// The lines of a text.
pub open spec fn lines_of(s: Seq<char>) -> Seq<Seq<char>> {
    lines_inclusive(s).map_values(|l: Seq<char>| unterminated(l))
}

/// The last `n` of them.
pub open spec fn last_of(lines: Seq<Seq<char>>, n: nat) -> Seq<Seq<char>> {
    if lines.len() <= n {
        lines
    } else {
        lines.skip(lines.len() - n)
    }
}

fn strip_terminator(l: &str) -> (r: String)
    ensures
        r@ == unterminated(l@),
{
    let v = chars_of(l);
    let mut end: usize = v.len();
    if end > 0 && v[end - 1] == '\n' {
        end -= 1;
        if end > 0 && v[end - 1] == '\r' {
            end -= 1;
        }
    }
    let r = string_of_range(&v, 0, end);
    assert(r@ =~= unterminated(l@));
    r
}

/// The last `lines` lines of a log.
pub fn tail(raw: &str, lines: usize) -> (r: String)
    ensures
        r@ == joined(last_of(lines_of(raw@), lines as nat), "\n"@),
{
    let all = split_inclusive(raw);
    let ghost ls = lines_of(raw@);
    let from: usize = if all.len() <= lines {
        0
    } else {
        all.len() - lines
    };
    let mut kept: Vec<String> = Vec::new();
    let mut i: usize = from;
    while i < all.len()
        invariant
            from <= i <= all@.len(),
            texts(all@) == lines_inclusive(raw@),
            ls == lines_of(raw@),
            kept@.len() == i - from,
            forall|j: int| 0 <= j < i - from ==> (#[trigger] kept@[j])@ == ls[from + j],
        decreases all@.len() - i,
    {
        assert(texts(all@)[i as int] == all@[i as int]@);
        kept.push(strip_terminator(all[i].as_str()));
        i += 1;
    }
    assert(texts(kept@) =~= last_of(ls, lines as nat));
    join(&kept, "\n")
}

/// The log for the user, `lines` lines of it, where there is one.
pub fn read_tail(raw: Option<&str>, lines: usize) -> (r: String)
    ensures
        r@ == match raw {
            None => "No diagnostics recorded yet."@,
            Some(t) => joined(last_of(lines_of(t@), lines as nat), "\n"@),
        },
{
    match raw {
        None => "No diagnostics recorded yet.".to_owned(),
        Some(t) => tail(t, lines),
    }
}

} // verus!
