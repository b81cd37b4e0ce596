//! What holds of the text operations for every text.
use vstd::prelude::*;
use crate::ical::{crlf, ical_escape_char, ical_escaped};
use crate::sync::{before_token, behind_token, sync_body, xml_escape_char, xml_escaped};
use crate::text::{
    all_digits, begins_with, behind_sign, decimal, digit, digits_value, expand, is_digit,
    parsed_i64, signed_decimal, text_less,
};

verus! {

// --- Line endings ---

/// Every line ending is CRLF: CR and LF occur only together.
pub open spec fn crlf_only(s: Seq<char>) -> bool {
    &&& forall|i: int|
        0 <= i < s.len() && #[trigger] s[i] == '\r' ==> i + 1 < s.len() && s[i + 1] == '\n'
    &&& forall|i: int| 0 <= i < s.len() && #[trigger] s[i] == '\n' ==> i > 0 && s[i - 1] == '\r'
}

/// After normalisation every line ending is CRLF.
pub proof fn law_crlf_normal(s: Seq<char>)
    ensures
        crlf_only(crlf(s)),
    decreases s.len(),
{
    if s.len() > 0 {
        let pair = s[0] == '\r' && s.len() > 1 && s[1] == '\n';
        let rest = if pair {
            s.skip(2)
        } else {
            s.skip(1)
        };
        law_crlf_normal(rest);
        let t = crlf(rest);
        let r = crlf(s);
        let head = if s[0] == '\r' || s[0] == '\n' {
            seq!['\r', '\n']
        } else {
            seq![s[0]]
        };
        assert(r == head + t);
        let h = head.len() as int;
        assert forall|i: int| 0 <= i < r.len() && #[trigger] r[i] == '\r' implies i + 1 < r.len()
            && r[i + 1] == '\n' by {
            if i >= h {
                assert(t[i - h] == '\r');
                assert(r[i + 1] == t[i - h + 1]);
            }
        }
        assert forall|i: int| 0 <= i < r.len() && #[trigger] r[i] == '\n' implies i > 0 && r[i - 1]
            == '\r' by {
            if i >= h {
                assert(t[i - h] == '\n');
                assert(r[i - 1] == t[i - h - 1]);
            }
        }
    }
}

/// A text whose line endings are CRLF is left as it is.
pub proof fn law_crlf_keeps_normal(s: Seq<char>)
    requires
        crlf_only(s),
    ensures
        crlf(s) == s,
    decreases s.len(),
{
    if s.len() > 0 {
        if s[0] == '\r' {
            let rest = s.skip(2);
            assert(s[1] == '\n');
            assert(crlf_only(rest)) by {
                assert forall|i: int| 0 <= i < rest.len() && #[trigger] rest[i] == '\r' implies i
                    + 1 < rest.len() && rest[i + 1] == '\n' by {
                    assert(s[i + 2] == '\r');
                }
                assert forall|i: int| 0 <= i < rest.len() && #[trigger] rest[i] == '\n' implies i
                    > 0 && rest[i - 1] == '\r' by {
                    assert(s[i + 2] == '\n');
                    assert(s[i + 1] == '\r');
                }
            }
            law_crlf_keeps_normal(rest);
            assert(seq!['\r', '\n'] + rest =~= s);
        } else {
            let rest = s.skip(1);
            assert(s[0] != '\n');
            assert(crlf_only(rest)) by {
                assert forall|i: int| 0 <= i < rest.len() && #[trigger] rest[i] == '\r' implies i
                    + 1 < rest.len() && rest[i + 1] == '\n' by {
                    assert(s[i + 1] == '\r');
                }
                assert forall|i: int| 0 <= i < rest.len() && #[trigger] rest[i] == '\n' implies i
                    > 0 && rest[i - 1] == '\r' by {
                    assert(s[i + 1] == '\n');
                    assert(s[i] == '\r');
                }
            }
            law_crlf_keeps_normal(rest);
            assert(seq![s[0]] + rest =~= s);
        }
    }
}

/// Normalising twice is normalising once.
pub proof fn law_crlf_idempotent(s: Seq<char>)
    ensures
        crlf(crlf(s)) == crlf(s),
{
    law_crlf_normal(s);
    law_crlf_keeps_normal(crlf(s));
}

// --- Escaping ---

/// Reading an escaped value back: a backslash and `n` stand for a line break, a
/// backslash and anything else for that character.
pub open spec fn unescaped(s: Seq<char>) -> Seq<char>
    decreases s.len(),
{
    if s.len() == 0 {
        Seq::empty()
    } else if s[0] == '\\' && s.len() > 1 {
        seq![
            if s[1] == 'n' {
                '\n'
            } else {
                s[1]
            },
        ] + unescaped(s.skip(2))
    } else {
        seq![s[0]] + unescaped(s.skip(1))
    }
}

/// Expanding character by character, from the front.
pub proof fn lemma_expand_front(s: Seq<char>, f: spec_fn(char) -> Seq<char>)
    requires
        s.len() > 0,
    ensures
        expand(s, f) == f(s[0]) + expand(s.skip(1), f),
    decreases s.len(),
{
    if s.len() == 1 {
        assert(s.drop_last() =~= Seq::empty());
        assert(s.skip(1) =~= Seq::empty());
        assert(expand(s, f) =~= f(s[0]) + expand(s.skip(1), f));
    } else {
        lemma_expand_front(s.drop_last(), f);
        assert(s.drop_last().skip(1) =~= s.skip(1).drop_last());
        assert(s.drop_last()[0] == s[0]);
        assert(s.skip(1).last() == s.last());
        assert(expand(s, f) =~= f(s[0]) + (expand(s.skip(1).drop_last(), f) + f(s.last())));
    }
}

/// An escaped value reads back as what was escaped.
pub proof fn law_escape_reads_back(s: Seq<char>)
    ensures
        unescaped(ical_escaped(s)) == s,
    decreases s.len(),
{
    let f = |c: char| ical_escape_char(c);
    if s.len() == 0 {
        assert(ical_escaped(s) =~= Seq::empty());
    } else {
        lemma_expand_front(s, f);
        law_escape_reads_back(s.skip(1));
        let c = s[0];
        let tail = ical_escaped(s.skip(1));
        let all = ical_escaped(s);
        reveal_strlit("\\\\");
        reveal_strlit("\\n");
        reveal_strlit("\\,");
        reveal_strlit("\\;");
        assert(all =~= ical_escape_char(c) + tail);
        if c == '\\' || c == '\n' || c == ',' || c == ';' {
            assert(all.len() == 2 + tail.len());
            assert(all[0] == '\\');
            assert(all.skip(2) =~= tail);
        } else {
            assert(all[0] == c);
            assert(all.skip(1) =~= tail);
        }
        assert(seq![c] + s.skip(1) =~= s);
    }
}

/// Two values with the same escaped form are the same.
pub proof fn law_escape_injective(a: Seq<char>, b: Seq<char>)
    requires
        ical_escaped(a) == ical_escaped(b),
    ensures
        a == b,
{
    law_escape_reads_back(a);
    law_escape_reads_back(b);
}

/// An escaped value stays on its line: it holds no line feed.
pub proof fn law_escape_one_line(s: Seq<char>)
    ensures
        forall|i: int| 0 <= i < ical_escaped(s).len() ==> #[trigger] ical_escaped(s)[i] != '\n',
    decreases s.len(),
{
    if s.len() > 0 {
        law_escape_one_line(s.drop_last());
        reveal_strlit("\\\\");
        reveal_strlit("\\n");
        reveal_strlit("\\,");
        reveal_strlit("\\;");
        let before = ical_escaped(s.drop_last());
        let e = ical_escape_char(s.last());
        assert forall|i: int| 0 <= i < ical_escaped(s).len() implies #[trigger] ical_escaped(s)[i]
            != '\n' by {
            if i < before.len() {
                assert(ical_escaped(s)[i] == before[i]);
            } else {
                assert(ical_escaped(s)[i] == e[i - before.len()]);
            }
        }
    }
}

/// An escaped XML text holds no markup: no angle bracket.
pub proof fn law_xml_escape_no_markup(s: Seq<char>)
    ensures
        forall|i: int|
            0 <= i < xml_escaped(s).len() ==> #[trigger] xml_escaped(s)[i] != '<' && xml_escaped(
                s,
            )[i] != '>',
    decreases s.len(),
{
    if s.len() > 0 {
        law_xml_escape_no_markup(s.drop_last());
        reveal_strlit("&amp;");
        reveal_strlit("&lt;");
        reveal_strlit("&gt;");
        let before = xml_escaped(s.drop_last());
        let e = xml_escape_char(s.last());
        assert forall|i: int| 0 <= i < xml_escaped(s).len() implies #[trigger] xml_escaped(s)[i]
            != '<' && xml_escaped(s)[i] != '>' by {
            if i < before.len() {
                assert(xml_escaped(s)[i] == before[i]);
            } else {
                assert(xml_escaped(s)[i] == e[i - before.len()]);
            }
        }
    }
}

/// Reading an escaped XML text back: each of the three entities stands for its character.
pub open spec fn xml_unescaped(s: Seq<char>) -> Seq<char>
    decreases s.len(),
{
    if s.len() == 0 {
        Seq::empty()
    } else if begins_with(s, "&amp;"@) && s.len() >= 5 {
        seq!['&'] + xml_unescaped(s.skip(5))
    } else if begins_with(s, "&lt;"@) && s.len() >= 4 {
        seq!['<'] + xml_unescaped(s.skip(4))
    } else if begins_with(s, "&gt;"@) && s.len() >= 4 {
        seq!['>'] + xml_unescaped(s.skip(4))
    } else {
        seq![s[0]] + xml_unescaped(s.skip(1))
    }
}

/// An escaped XML text reads back as what was escaped.
pub proof fn law_xml_escape_reads_back(s: Seq<char>)
    ensures
        xml_unescaped(xml_escaped(s)) == s,
    decreases s.len(),
{
    let f = |c: char| xml_escape_char(c);
    if s.len() == 0 {
        assert(xml_escaped(s) =~= Seq::empty());
    } else {
        lemma_expand_front(s, f);
        law_xml_escape_reads_back(s.skip(1));
        let c = s[0];
        let tail = xml_escaped(s.skip(1));
        let all = xml_escaped(s);
        reveal_strlit("&amp;");
        reveal_strlit("&lt;");
        reveal_strlit("&gt;");
        assert(all =~= xml_escape_char(c) + tail);
        if c == '&' {
            assert(all.subrange(0, 5) =~= "&amp;"@);
            assert(all.skip(5) =~= tail);
        } else if c == '<' {
            assert(all[1] == 'l');
            assert(!begins_with(all, "&amp;"@)) by {
                if begins_with(all, "&amp;"@) {
                    assert(all.subrange(0, 5)[1] == 'a');
                }
            }
            assert(all.subrange(0, 4) =~= "&lt;"@);
            assert(all.skip(4) =~= tail);
        } else if c == '>' {
            assert(all[1] == 'g');
            assert(!begins_with(all, "&amp;"@)) by {
                if begins_with(all, "&amp;"@) {
                    assert(all.subrange(0, 5)[1] == 'a');
                }
            }
            assert(!begins_with(all, "&lt;"@)) by {
                if begins_with(all, "&lt;"@) {
                    assert(all.subrange(0, 4)[1] == 'l');
                }
            }
            assert(all.subrange(0, 4) =~= "&gt;"@);
            assert(all.skip(4) =~= tail);
        } else {
            assert(all[0] == c);
            assert(!begins_with(all, "&amp;"@)) by {
                if begins_with(all, "&amp;"@) {
                    assert(all.subrange(0, 5)[0] == '&');
                }
            }
            assert(!begins_with(all, "&lt;"@)) by {
                if begins_with(all, "&lt;"@) {
                    assert(all.subrange(0, 4)[0] == '&');
                }
            }
            assert(!begins_with(all, "&gt;"@)) by {
                if begins_with(all, "&gt;"@) {
                    assert(all.subrange(0, 4)[0] == '&');
                }
            }
            assert(all.skip(1) =~= tail);
        }
        assert(seq![c] + s.skip(1) =~= s);
    }
}

/// The token in the body of a sync REPORT.
pub open spec fn token_in(body: Seq<char>) -> Seq<char> {
    xml_unescaped(
        body.subrange(
            before_token().len() as int,
            body.len() - behind_token().len(),
        ),
    )
}

/// The body of a sync REPORT hands on exactly the token, and depends on it nowhere else.
/// No token is the same as an empty one.
pub proof fn law_sync_body_holds_token(t: Seq<char>)
    ensures
        token_in(sync_body(Some(t))) == t,
        sync_body(Some(t)) == before_token() + xml_escaped(t) + behind_token(),
        sync_body(None) == sync_body(Some(Seq::empty())),
{
    law_xml_escape_reads_back(t);
    let body = sync_body(Some(t));
    assert(body.subrange(before_token().len() as int, body.len() - behind_token().len())
        =~= xml_escaped(t));
    reveal_strlit("");
    assert(xml_escaped(Seq::empty()) =~= ""@);
}

// --- Numbers ---

/// The digits of a number.
proof fn lemma_decimal_reads_back(n: nat)
    ensures
        all_digits(decimal(n)),
        digits_value(decimal(n)) == n,
    decreases n,
{
    if n < 10 {
        let s = seq![digit(n)];
        assert(s.drop_last() =~= Seq::empty());
        assert(digits_value(s.drop_last()) == 0);
    } else {
        lemma_decimal_reads_back(n / 10);
        let d = decimal(n / 10);
        let s = d.push(digit(n % 10));
        assert(decimal(n) == s);
        assert(s.drop_last() =~= d);
        assert(s.last() == digit(n % 10));
        assert(forall|i: int| 0 <= i < s.len() ==> is_digit(#[trigger] s[i])) by {
            assert forall|i: int| 0 <= i < s.len() implies is_digit(#[trigger] s[i]) by {
                if i < d.len() {
                    assert(s[i] == d[i]);
                }
            }
        }
    }
}

/// A number written out reads back as itself.
pub proof fn law_number_reads_back(n: i64)
    ensures
        parsed_i64(signed_decimal(n as int)) == Some(n as int),
{
    if n < 0 {
        let d = decimal((-(n as int)) as nat);
        lemma_decimal_reads_back((-(n as int)) as nat);
        let s = seq!['-'] + d;
        assert(s[0] == '-');
        assert(s.skip(1) =~= d);
    } else {
        let d = decimal(n as nat);
        lemma_decimal_reads_back(n as nat);
        assert(is_digit(d[0]));
        assert(behind_sign(d) == d);
    }
}

// --- Order ---

/// The order of texts is strict.
pub proof fn law_text_order_strict(a: Seq<char>)
    ensures
        !text_less(a, a),
    decreases a.len(),
{
    if a.len() > 0 {
        law_text_order_strict(a.skip(1));
    }
}

/// The order of texts is transitive.
pub proof fn law_text_order_transitive(a: Seq<char>, b: Seq<char>, c: Seq<char>)
    requires
        text_less(a, b),
        text_less(b, c),
    ensures
        text_less(a, c),
    decreases a.len(),
{
    if a.len() > 0 && b.len() > 0 && c.len() > 0 && a[0] == b[0] && b[0] == c[0] {
        law_text_order_transitive(a.skip(1), b.skip(1), c.skip(1));
    }
}

/// Two texts are ordered one way or the other unless they are the same.
pub proof fn law_text_order_total(a: Seq<char>, b: Seq<char>)
    ensures
        text_less(a, b) || text_less(b, a) || a == b,
    decreases a.len(),
{
    if a.len() == 0 && b.len() == 0 {
        assert(a =~= b);
    } else if a.len() > 0 && b.len() > 0 && a[0] == b[0] {
        law_text_order_total(a.skip(1), b.skip(1));
        if a.skip(1) == b.skip(1) {
            assert(a =~= seq![a[0]] + a.skip(1));
            assert(b =~= seq![b[0]] + b.skip(1));
        }
    }
}

} // verus!
