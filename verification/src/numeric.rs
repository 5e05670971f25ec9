//! Classifying literal values: a literal offered for a comparison is numeric
//! when it reads as a floating-point number — an optional sign, then either a
//! digit string with an optional fraction and exponent, or one of the special
//! words for infinity and not-a-number, case-insensitively. Numeric literals
//! get the six comparison operators, all other literals the four string
//! operators, by the same class split as for fields.

use vstd::prelude::*;
use crate::path::{all_digits, is_digit};
use crate::vocab::{Operator, numeric_operators, string_operators};

verus! {

pub open spec fn is_sign(c: char) -> bool {
    c == '+' || c == '-'
}

pub open spec fn is_dot_char(c: char) -> bool {
    c == '.'
}

pub open spec fn is_exp_char(c: char) -> bool {
    c == 'e' || c == 'E'
}

/// The position of the first dot, else -1.
pub open spec fn first_dot(s: Seq<char>) -> int
    decreases s.len(),
{
    if s.len() == 0 {
        -1
    } else if is_dot_char(s[0]) {
        0
    } else {
        let r = first_dot(s.skip(1));
        if r < 0 {
            -1
        } else {
            r + 1
        }
    }
}

/// The position of the first exponent marker, else -1.
pub open spec fn first_exp(s: Seq<char>) -> int
    decreases s.len(),
{
    if s.len() == 0 {
        -1
    } else if is_exp_char(s[0]) {
        0
    } else {
        let r = first_exp(s.skip(1));
        if r < 0 {
            -1
        } else {
            r + 1
        }
    }
}

/// What `first_dot` finds: nothing anywhere, or the first hit.
pub proof fn lemma_first_dot(s: Seq<char>)
    ensures
        first_dot(s) == -1 ==> forall|j: int| 0 <= j < s.len() ==> !is_dot_char(#[trigger] s[j]),
        first_dot(s) >= 0 ==> 0 <= first_dot(s) < s.len() && is_dot_char(s[first_dot(s)])
            && forall|j: int| 0 <= j < first_dot(s) ==> !is_dot_char(#[trigger] s[j]),
    decreases s.len(),
{
    if s.len() > 0 && !is_dot_char(s[0]) {
        lemma_first_dot(s.skip(1));
        let r = first_dot(s.skip(1));
        if r >= 0 {
            assert(s.skip(1)[r] == s[r + 1]);
        }
        assert forall|j: int| 1 <= j < s.len() implies s.skip(1)[j - 1] == #[trigger] s[j] by {}
    }
}

/// What `first_exp` finds: nothing anywhere, or the first hit.
pub proof fn lemma_first_exp(s: Seq<char>)
    ensures
        first_exp(s) == -1 ==> forall|j: int| 0 <= j < s.len() ==> !is_exp_char(#[trigger] s[j]),
        first_exp(s) >= 0 ==> 0 <= first_exp(s) < s.len() && is_exp_char(s[first_exp(s)])
            && forall|j: int| 0 <= j < first_exp(s) ==> !is_exp_char(#[trigger] s[j]),
    decreases s.len(),
{
    if s.len() > 0 && !is_exp_char(s[0]) {
        lemma_first_exp(s.skip(1));
        let r = first_exp(s.skip(1));
        if r >= 0 {
            assert(s.skip(1)[r] == s[r + 1]);
        }
        assert forall|j: int| 1 <= j < s.len() implies s.skip(1)[j - 1] == #[trigger] s[j] by {}
    }
}

/// A non-empty all-digit string.
pub open spec fn digits1(s: Seq<char>) -> bool {
    s.len() > 0 && all_digits(s)
}

/// Digits with an optional dot somewhere: digits on both sides of the dot,
/// at least one digit in all.
pub open spec fn is_mantissa(m: Seq<char>) -> bool {
    let d = first_dot(m);
    if d < 0 {
        digits1(m)
    } else {
        all_digits(m.take(d)) && all_digits(m.skip(d + 1)) && m.len() > 1
    }
}

/// An exponent after the marker: an optional sign, then digits.
pub open spec fn is_exp_tail(t: Seq<char>) -> bool {
    digits1(
        if t.len() > 0 && is_sign(t[0]) {
            t.skip(1)
        } else {
            t
        },
    )
}

/// A number after the sign: a mantissa, optionally followed by an exponent
/// marker and an exponent.
pub open spec fn is_number_body(b: Seq<char>) -> bool {
    let e = first_exp(b);
    if e < 0 {
        is_mantissa(b)
    } else {
        is_mantissa(b.take(e)) && is_exp_tail(b.skip(e + 1))
    }
}

/// The special words for infinity and not-a-number, case-insensitively.
pub open spec fn is_special_body(b: Seq<char>) -> bool {
    ||| (b.len() == 3 && (b[0] == 'i' || b[0] == 'I') && (b[1] == 'n' || b[1] == 'N') && (b[2]
        == 'f' || b[2] == 'F'))
    ||| (b.len() == 8 && (b[0] == 'i' || b[0] == 'I') && (b[1] == 'n' || b[1] == 'N') && (b[2]
        == 'f' || b[2] == 'F') && (b[3] == 'i' || b[3] == 'I') && (b[4] == 'n' || b[4] == 'N') && (
    b[5] == 'i' || b[5] == 'I') && (b[6] == 't' || b[6] == 'T') && (b[7] == 'y' || b[7] == 'Y'))
    ||| (b.len() == 3 && (b[0] == 'n' || b[0] == 'N') && (b[1] == 'a' || b[1] == 'A') && (b[2]
        == 'n' || b[2] == 'N'))
}

/// A numeric literal: an optional sign, then a number or a special word.
pub open spec fn spec_numeric_literal(s: Seq<char>) -> bool {
    s.len() > 0 && {
        let b = if is_sign(s[0]) {
            s.skip(1)
        } else {
            s
        };
        is_special_body(b) || is_number_body(b)
    }
}

/// Whether every character in `[from, to)` is a decimal digit.
fn all_digits_range(s: &str, from: usize, to: usize) -> (r: bool)
    requires
        from <= to <= s@.len(),
    ensures
        r == all_digits(s@.subrange(from as int, to as int)),
{
    let ghost part = s@.subrange(from as int, to as int);
    let mut k = from;
    while k < to
        invariant
            from <= k <= to <= s@.len(),
            part == s@.subrange(from as int, to as int),
            forall|j: int| 0 <= j < k - from ==> is_digit(#[trigger] part[j]),
        decreases to - k,
    {
        let c = s.get_char(k);
        let u = c as u32;
        if u < 48 || u > 57 {
            proof {
                assert(part[k - from] == s@[k as int]);
                assert(!is_digit(part[k - from]));
            }
            return false;
        }
        k += 1;
    }
    true
}

/// The first position in `[from, to)` holding an exponent marker.
fn find_exp_marker(s: &str, from: usize, to: usize) -> (r: Option<usize>)
    requires
        from <= to <= s@.len(),
    ensures
        ({
            let fw = first_exp(s@.subrange(from as int, to as int));
            match r {
                Some(i) => from <= i < to && fw == i - from,
                None => fw == -1,
            }
        }),
{
    let ghost part = s@.subrange(from as int, to as int);
    let mut k = from;
    while k < to
        invariant
            from <= k <= to <= s@.len(),
            part == s@.subrange(from as int, to as int),
            forall|j: int| 0 <= j < k - from ==> !(#[trigger] part[j] == 'e' || part[j] == 'E'),
        decreases to - k,
    {
        let c = s.get_char(k);
        if c == 'e' || c == 'E' {
            proof {
                assert(part[k - from] == s@[k as int]);
                lemma_first_exp(part);
            }
            return Some(k);
        }
        k += 1;
    }
    proof {
        lemma_first_exp(part);
    }
    None
}

/// The first position in `[from, to)` holding a dot.
fn find_dot(s: &str, from: usize, to: usize) -> (r: Option<usize>)
    requires
        from <= to <= s@.len(),
    ensures
        ({
            let fw = first_dot(s@.subrange(from as int, to as int));
            match r {
                Some(i) => from <= i < to && fw == i - from,
                None => fw == -1,
            }
        }),
{
    let ghost part = s@.subrange(from as int, to as int);
    let mut k = from;
    while k < to
        invariant
            from <= k <= to <= s@.len(),
            part == s@.subrange(from as int, to as int),
            forall|j: int| 0 <= j < k - from ==> !(#[trigger] part[j] == '.'),
        decreases to - k,
    {
        let c = s.get_char(k);
        if c == '.' {
            proof {
                assert(part[k - from] == s@[k as int]);
                lemma_first_dot(part);
            }
            return Some(k);
        }
        k += 1;
    }
    proof {
        lemma_first_dot(part);
    }
    None
}

/// Whether `[from, to)` is a mantissa.
fn is_mantissa_range(s: &str, from: usize, to: usize) -> (r: bool)
    requires
        from <= to <= s@.len(),
    ensures
        r == is_mantissa(s@.subrange(from as int, to as int)),
{
    let ghost m = s@.subrange(from as int, to as int);
    match find_dot(s, from, to) {
        None => {
            let r = to > from && all_digits_range(s, from, to);
            proof {
                assert(m.len() == to - from);
            }
            r
        },
        Some(d) => {
            proof {
                assert(m.take(d - from) =~= s@.subrange(from as int, d as int));
                assert(m.skip(d - from + 1) =~= s@.subrange(d + 1, to as int));
            }
            let r = all_digits_range(s, from, d) && all_digits_range(s, d + 1, to) && to - from
                > 1;
            r
        },
    }
}

/// Whether `[from, to)` is an exponent: an optional sign, then digits.
fn is_exp_range(s: &str, from: usize, to: usize) -> (r: bool)
    requires
        from <= to <= s@.len(),
    ensures
        r == is_exp_tail(s@.subrange(from as int, to as int)),
{
    let ghost t = s@.subrange(from as int, to as int);
    let start: usize = if from < to {
        let c = s.get_char(from);
        if c == '+' || c == '-' {
            from + 1
        } else {
            from
        }
    } else {
        from
    };
    proof {
        if t.len() > 0 && is_sign(t[0]) {
            assert(t.skip(1) =~= s@.subrange(start as int, to as int));
        } else {
            assert(t =~= s@.subrange(start as int, to as int));
        }
    }
    let r = to > start && all_digits_range(s, start, to);
    r
}

/// Whether the given literal is numeric: an optional sign, then a number or
/// a special word for infinity or not-a-number.
pub fn is_numeric_literal(s: &str) -> (r: bool)
    ensures
        r == spec_numeric_literal(s@),
{
    let n = s.unicode_len();
    if n == 0 {
        return false;
    }
    let c0 = s.get_char(0);
    let off: usize = if c0 == '+' || c0 == '-' {
        1
    } else {
        0
    };
    let ghost b = if is_sign(s@[0]) {
        s@.skip(1)
    } else {
        s@
    };
    proof {
        assert(b =~= s@.subrange(off as int, n as int));
    }
    let blen = n - off;
    // The special words.
    if blen == 3 {
        let x0 = s.get_char(off);
        let x1 = s.get_char(off + 1);
        let x2 = s.get_char(off + 2);
        if ((x0 == 'i' || x0 == 'I') && (x1 == 'n' || x1 == 'N') && (x2 == 'f' || x2 == 'F')) || (
        (x0 == 'n' || x0 == 'N') && (x1 == 'a' || x1 == 'A') && (x2 == 'n' || x2 == 'N')) {
            return true;
        }
    }
    if blen == 8 {
        let x0 = s.get_char(off);
        let x1 = s.get_char(off + 1);
        let x2 = s.get_char(off + 2);
        let x3 = s.get_char(off + 3);
        let x4 = s.get_char(off + 4);
        let x5 = s.get_char(off + 5);
        let x6 = s.get_char(off + 6);
        let x7 = s.get_char(off + 7);
        if (x0 == 'i' || x0 == 'I') && (x1 == 'n' || x1 == 'N') && (x2 == 'f' || x2 == 'F') && (x3
            == 'i' || x3 == 'I') && (x4 == 'n' || x4 == 'N') && (x5 == 'i' || x5 == 'I') && (x6
            == 't' || x6 == 'T') && (x7 == 'y' || x7 == 'Y') {
            return true;
        }
    }
    // A number: mantissa, optionally an exponent.
    let r = match find_exp_marker(s, off, n) {
        None => is_mantissa_range(s, off, n),
        Some(e) => {
            proof {
                assert(b.take(e - off) =~= s@.subrange(off as int, e as int));
                assert(b.skip(e - off + 1) =~= s@.subrange(e + 1, n as int));
            }
            is_mantissa_range(s, off, e) && is_exp_range(s, e + 1, n)
        },
    };
    r
}

/// The operators legal for a literal value: the six comparison operators for
/// a numeric literal, the four string operators otherwise — the same class
/// split as for fields.
pub fn operators_for_value(value: &str) -> (r: Vec<Operator>)
    ensures
        spec_numeric_literal(value@) ==> r@ == numeric_operators(),
        !spec_numeric_literal(value@) ==> r@ == string_operators(),
{
    if is_numeric_literal(value) {
        let v = vec![
            Operator::Equals,
            Operator::NotEquals,
            Operator::GreaterThan,
            Operator::LessThan,
            Operator::GreaterThanOrEqual,
            Operator::LessThanOrEqual,
        ];
        proof {
            assert(v@ =~= numeric_operators());
        }
        v
    } else {
        let v = vec![Operator::Equals, Operator::NotEquals, Operator::Contains, Operator::In];
        proof {
            assert(v@ =~= string_operators());
        }
        v
    }
}

} // verus!
