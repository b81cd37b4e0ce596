//! What trimming and the like leave of a text.
use vstd::prelude::*;
use crate::text::{
    all_digits, ascii_lower, ascii_lower_char, ascii_upper, ascii_upper_char, behind_sign, decimal,
    digit, digits_value, is_digit, is_space, parsed_i64, signed_decimal, trim_end, trim_start,
    trimmed,
};

verus! {

proof fn lemma_trim_start(s: Seq<char>) -> (a: int)
    ensures
        0 <= a <= s.len(),
        trim_start(s) == s.skip(a),
        forall|i: int| 0 <= i < a ==> is_space(#[trigger] s[i]),
        a < s.len() ==> !is_space(s[a]),
    decreases s.len(),
{
    if s.len() > 0 && is_space(s[0]) {
        let b = lemma_trim_start(s.skip(1));
        assert(s.skip(1).skip(b) =~= s.skip(b + 1));
        assert forall|i: int| 0 <= i < b + 1 implies is_space(#[trigger] s[i]) by {
            if i > 0 {
                assert(s.skip(1)[i - 1] == s[i]);
            }
        }
        b + 1
    } else {
        assert(s.skip(0) =~= s);
        0
    }
}

proof fn lemma_trim_end(s: Seq<char>) -> (b: int)
    ensures
        0 <= b <= s.len(),
        trim_end(s) == s.take(b),
        forall|i: int| b <= i < s.len() ==> is_space(#[trigger] s[i]),
        b > 0 ==> !is_space(s[b - 1]),
    decreases s.len(),
{
    if s.len() > 0 && is_space(s.last()) {
        let d = s.drop_last();
        let b = lemma_trim_end(d);
        assert(d.take(b) =~= s.take(b));
        assert forall|i: int| b <= i < s.len() implies is_space(#[trigger] s[i]) by {
            if i < d.len() {
                assert(d[i] == s[i]);
            }
        }
        b
    } else {
        assert(s.take(s.len() as int) =~= s);
        s.len() as int
    }
}

/// A trimmed text is the part of the text between its first and its last character that is
/// no white space.
pub proof fn lemma_trimmed_range(s: Seq<char>) -> (r: (int, int))
    ensures
        0 <= r.0 <= r.1 <= s.len(),
        trimmed(s) == s.subrange(r.0, r.1),
        forall|i: int| 0 <= i < r.0 || r.1 <= i < s.len() ==> is_space(#[trigger] s[i]),
        r.0 < r.1 ==> !is_space(s[r.0]) && !is_space(s[r.1 - 1]),
{
    let a = lemma_trim_start(s);
    let t = trim_start(s);
    let b = lemma_trim_end(t);
    assert(t.take(b) =~= s.subrange(a, a + b));
    assert forall|i: int| 0 <= i < a || a + b <= i < s.len() implies is_space(#[trigger] s[i]) by {
        if i >= a + b {
            assert(t[i - a] == s[i]);
        }
    }
    if b > 0 {
        assert(t[0] == s[a]);
        assert(t[b - 1] == s[a + b - 1]);
    }
    (a, a + b)
}

/// Trimming takes white space off the ends and nothing else: what is left neither begins nor
/// ends in white space, and is empty only where there was nothing but white space.
pub proof fn law_trimmed(s: Seq<char>)
    ensures
        exists|a: int, b: int|
            {
                &&& 0 <= a <= b <= s.len()
                &&& trimmed(s) == #[trigger] s.subrange(a, b)
                &&& forall|i: int| 0 <= i < a || b <= i < s.len() ==> is_space(#[trigger] s[i])
                &&& a < b ==> !is_space(s[a]) && !is_space(s[b - 1])
            },
{
    let r = lemma_trimmed_range(s);
    assert(trimmed(s) == s.subrange(r.0, r.1));
}

/// A text without white space at its ends is its own trimmed form; so that trimming twice is
/// trimming once.
pub proof fn law_trimmed_twice(s: Seq<char>)
    ensures
        s.len() > 0 && !is_space(s[0]) && !is_space(s.last()) ==> trimmed(s) == s,
        trimmed(trimmed(s)) == trimmed(s),
{
    let r = lemma_trimmed_range(s);
    let t = trimmed(s);
    let q = lemma_trimmed_range(t);
    if s.len() > 0 && !is_space(s[0]) && !is_space(s.last()) {
        assert(r.0 == 0);
        assert(r.1 == s.len());
        assert(s.subrange(0, s.len() as int) =~= s);
    }
    if t.len() > 0 {
        assert(t[0] == s[r.0]);
        assert(t[t.len() - 1] == s[r.1 - 1]);
        assert(q.0 == 0);
        assert(q.1 == t.len());
        assert(t.subrange(0, t.len() as int) =~= t);
    } else {
        assert(trimmed(t) =~= t);
    }
}

/// Lower case goes letter by letter, over the Latin letters alone, and so does upper case.
pub proof fn law_letter_case(s: Seq<char>, i: int)
    requires
        0 <= i < s.len(),
    ensures
        ascii_lower(s).len() == s.len(),
        ascii_upper(s).len() == s.len(),
        'A' <= s[i] && s[i] <= 'Z' ==> ascii_lower(s)[i] as int == s[i] as int + 32,
        !('A' <= s[i] && s[i] <= 'Z') ==> ascii_lower(s)[i] == s[i],
        'a' <= s[i] && s[i] <= 'z' ==> ascii_upper(s)[i] as int == s[i] as int - 32,
        !('a' <= s[i] && s[i] <= 'z') ==> ascii_upper(s)[i] == s[i],
{
    let c = s[i];
    if 'A' <= c && c <= 'Z' {
        let n = (c as u32 + 32) as u32;
        assert(ascii_lower_char(c) as u32 == n);
    }
    if 'a' <= c && c <= 'z' {
        let n = (c as u32 - 32) as u32;
        assert(ascii_upper_char(c) as u32 == n);
    }
}

/// A number is written digit by digit, the last digit last and without zeros in front.
pub proof fn law_decimal_digits(n: nat, d: nat, c: char)
    requires
        d < 10,
        c as int == 48 + d,
    ensures
        decimal(d) == seq![c],
        n > 0 ==> decimal(10 * n + d) == decimal(n).push(c),
{
    assert(digit(d) == c);
    let m = 10 * n + d;
    if n > 0 {
        assert(m / 10 == n);
        assert(m % 10 == d);
    }
}

/// A text of digits alone.
pub open spec fn is_number(s: Seq<char>) -> bool {
    s.len() > 0 && forall|i: int| 0 <= i < s.len() ==> '0' <= #[trigger] s[i] && s[i] <= '9'
}

/// A number is read digit by digit, within its range, with a sign in front or without one;
/// any other text is none.
pub proof fn law_numbers_are_read(s: Seq<char>, c: char)
    requires
        '0' <= c && c <= '9',
    ensures
        parsed_i64(Seq::empty()) is None,
        parsed_i64(seq![c]) == Some(c as int - 48),
        is_number(s) ==> (parsed_i64(s) matches Some(n) ==> {
            let m = 10 * n + (c as int - 48);
            &&& m <= i64::MAX ==> parsed_i64(s.push(c)) == Some(m)
            &&& m > i64::MAX ==> parsed_i64(s.push(c)) is None
            &&& parsed_i64(seq!['-'] + s) == Some(-n)
            &&& parsed_i64(seq!['+'] + s) == Some(n)
        }),
        !is_number(s) ==> parsed_i64(seq!['-'] + s) is None && parsed_i64(seq!['+'] + s) is None,
        !is_number(s) && s.len() > 0 && s[0] != '-' && s[0] != '+' ==> parsed_i64(s) is None,
{
    let one = seq![c];
    assert(one.drop_last() =~= Seq::<char>::empty());
    assert(one.last() == c);
    assert(digits_value(Seq::<char>::empty()) == 0);
    assert(digits_value(one) == (c as u32 - '0' as u32) as nat);
    assert(is_digit(one[0]));
    assert(all_digits(one));
    assert(behind_sign(one) == one);
    assert((seq!['-'] + s).skip(1) =~= s);
    assert((seq!['+'] + s).skip(1) =~= s);
    if is_number(s) {
        assert forall|i: int| 0 <= i < s.len() implies is_digit(#[trigger] s[i]) by {}
        assert('0' <= s[0] && s[0] <= '9');
        assert(behind_sign(s) == s);
        let more = s.push(c);
        assert(more.drop_last() =~= s);
        assert(more.last() == c);
        assert(more[0] == s[0]);
        assert(behind_sign(more) == more);
        assert forall|i: int| 0 <= i < more.len() implies is_digit(#[trigger] more[i]) by {
            if i < s.len() {
                assert(more[i] == s[i]);
            }
        }
    } else if s.len() > 0 {
        let i = choose|i: int| 0 <= i < s.len() && !('0' <= #[trigger] s[i] && s[i] <= '9');
        assert(!is_digit(s[i]));
        assert(!all_digits(s));
    }
}

/// A number with a sign is the number without one, with a minus in front where it is below
/// zero.
pub proof fn law_signed_numbers(n: nat)
    ensures
        signed_decimal(n as int) == decimal(n),
        n > 0 ==> signed_decimal(-(n as int)) == seq!['-'] + decimal(n),
{
}

/// What white space is: the blank, the tab, the line ends and feeds, and the wider spaces of
/// other scripts.
pub proof fn law_white_space(c: char)
    ensures
        is_space(c) == {
            let n = c as int;
            ||| n == 9 || n == 10 || n == 11 || n == 12 || n == 13 || n == 32
            ||| n == 133 || n == 160 || n == 5760
            ||| 8192 <= n && n <= 8202
            ||| n == 8232 || n == 8233 || n == 8239 || n == 8287 || n == 12288
        },
        is_space(' ') && is_space('\t') && is_space('\n') && is_space('\r'),
{
}

} // verus!
