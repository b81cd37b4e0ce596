//! Texts of a plain shape: a calendar with one to-do, which holds properties only. Other
//! components may stand beside it.
use vstd::prelude::*;
use crate::ical::{bare_line, holds_property};
use crate::nesting::{is_name_char, is_property_line, name_width};
use crate::rewrite_laws::crlf_line;
use crate::text::{begins_with, index_before, lines_inclusive};

verus! {

/// A line that holds a property: its name, then its parameters, none of them quoted, and
/// its value. It ends in CRLF.
pub open spec fn plain_property(line: Seq<char>) -> bool {
    let t = line.take(line.len() - 2);
    &&& crlf_line(line)
    &&& is_property_line(t)
    &&& name_width(t) > 0
    &&& index_before(t, ':') < t.len()
    &&& index_before(t, ':') <= index_before(t, '"')
}

/// A line that is `word` and a name, and ends in CRLF.
pub open spec fn frames(line: Seq<char>, word: Seq<char>) -> bool {
    &&& crlf_line(line)
    &&& begins_with(line, word)
    &&& line.len() > word.len() + 2
    &&& forall|i: int| word.len() <= i < line.len() - 2 ==> is_name_char(#[trigger] line[i])
}

/// Where the to-do of a text is.
pub enum Todo {
    Ahead,
    Here,
    Behind,
}

/// What is known of the shape of a text between two lines: whether the calendar was begun,
/// how many components are open, where the to-do is, and whether every line fits so far.
pub struct Shape {
    pub begun: bool,
    pub depth: int,
    pub todo: Todo,
    pub fits: bool,
}

pub open spec fn unbegun() -> Shape {
    Shape { begun: false, depth: 0, todo: Todo::Ahead, fits: true }
}

/// The shape after one more line.
pub open spec fn shape_step(s: Shape, line: Seq<char>) -> Shape {
    if s.todo is Here {
        if line == "END:VTODO\r\n"@ {
            Shape { depth: s.depth - 1, todo: Todo::Behind, ..s }
        } else {
            Shape { fits: s.fits && plain_property(line), ..s }
        }
    } else if !s.begun {
        Shape { begun: true, depth: 1, fits: s.fits && line == "BEGIN:VCALENDAR\r\n"@, ..s }
    } else if line == "BEGIN:VTODO\r\n"@ {
        Shape {
            depth: s.depth + 1,
            todo: Todo::Here,
            fits: s.fits && s.todo is Ahead && s.depth == 1,
            ..s
        }
    } else if frames(line, "BEGIN:"@) {
        Shape { depth: s.depth + 1, fits: s.fits && s.depth > 0, ..s }
    } else if frames(line, "END:"@) {
        Shape { depth: s.depth - 1, fits: s.fits && s.depth > 0, ..s }
    } else {
        Shape { fits: s.fits && s.depth > 0 && plain_property(line), ..s }
    }
}

/// The shape after all of `lines`.
pub open spec fn shape_from(s: Shape, lines: Seq<Seq<char>>) -> Shape
    decreases lines.len(),
{
    if lines.len() == 0 {
        s
    } else {
        shape_step(shape_from(s, lines.drop_last()), lines.last())
    }
}

/// A calendar with one to-do, which holds properties only.
pub open spec fn one_plain_todo(text: Seq<char>) -> bool {
    let s = shape_from(unbegun(), lines_inclusive(text));
    s.fits && s.todo is Behind && s.depth == 0
}

/// Line `i` of a text is in its to-do.
pub open spec fn in_todo(text: Seq<char>, i: int) -> bool {
    shape_from(unbegun(), lines_inclusive(text).take(i)).todo is Here
}

/// The to-do of a text has the status `v`, and no other.
pub open spec fn status_reads(text: Seq<char>, v: Seq<char>) -> bool {
    let lines = lines_inclusive(text);
    &&& forall|i: int|
        0 <= i < lines.len() && in_todo(text, i) && holds_property(
            bare_line(#[trigger] lines[i]),
            "STATUS"@,
        ) ==> lines[i] == "STATUS:"@ + v + "\r\n"@
    &&& exists|i: int|
        0 <= i < lines.len() && in_todo(text, i) && #[trigger] lines[i] == "STATUS:"@ + v
            + "\r\n"@
}

/// Capital letters and hyphens.
pub open spec fn is_word(v: Seq<char>) -> bool {
    forall|i: int| 0 <= i < v.len() ==> 'A' <= #[trigger] v[i] <= 'Z' || v[i] == '-'
}

} // verus!
