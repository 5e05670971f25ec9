//! The path codec: a tree address travels in a URL segment as a dash-joined
//! token whose first element is the literal root marker `0`. Decoding strips
//! the marker, parses the remaining elements as indices and silently drops any
//! element that is not a well-formed integer; encoding is the inverse on
//! well-formed index sequences, and `lemma_path_round_trip` proves it so.

use vstd::prelude::*;
use crate::tree::to_int_seq;

verus! {

/// Split on `-`. Always at least one segment; an empty string is one empty
/// segment, a trailing dash ends with an empty segment.
pub open spec fn split_dash(s: Seq<char>) -> Seq<Seq<char>>
    decreases s.len(),
{
    if s.len() == 0 {
        seq![Seq::<char>::empty()]
    } else if s.last() == '-' {
        split_dash(s.drop_last()).push(Seq::empty())
    } else {
        let r = split_dash(s.drop_last());
        r.update(r.len() - 1, r.last().push(s.last()))
    }
}

/// Join with `-` between segments.
pub open spec fn join_dash(segs: Seq<Seq<char>>) -> Seq<char>
    decreases segs.len(),
{
    if segs.len() <= 1 {
        if segs.len() == 0 {
            Seq::empty()
        } else {
            segs[0]
        }
    } else {
        join_dash(segs.drop_last()) + seq!['-'] + segs.last()
    }
}

pub open spec fn is_digit(c: char) -> bool {
    48 <= c as u32 <= 57
}

pub open spec fn digit_val(c: char) -> int {
    c as u32 - 48
}

pub open spec fn all_digits(s: Seq<char>) -> bool {
    forall|i: int| 0 <= i < s.len() ==> is_digit(#[trigger] s[i])
}

/// The value of a digit string, most significant digit first.
pub open spec fn dec_value(s: Seq<char>) -> int
    decreases s.len(),
{
    if s.len() == 0 {
        0
    } else {
        dec_value(s.drop_last()) * 10 + digit_val(s.last())
    }
}

/// How one path element is read: an optional leading `+`, then at least one
/// digit, and the value must fit in `usize`; anything else is dropped.
pub open spec fn seg_parse(s: Seq<char>) -> Option<int> {
    let t = if s.len() > 0 && s[0] == '+' {
        s.skip(1)
    } else {
        s
    };
    if t.len() > 0 && all_digits(t) && dec_value(t) <= usize::MAX {
        Some(dec_value(t))
    } else {
        None
    }
}

/// The indices of the segments that parse, in order; the rest are dropped.
pub open spec fn keep_valid(segs: Seq<Seq<char>>) -> Seq<int>
    decreases segs.len(),
{
    if segs.len() == 0 {
        Seq::empty()
    } else {
        match seg_parse(segs.last()) {
            Some(v) => keep_valid(segs.drop_last()).push(v),
            None => keep_valid(segs.drop_last()),
        }
    }
}

/// Decoding a path token: the literal root marker alone is the empty path;
/// otherwise split on `-`, drop the leading root marker, and keep the
/// elements that parse as indices.
pub open spec fn spec_decode(s: Seq<char>) -> Seq<int> {
    if s == seq!['0'] {
        Seq::empty()
    } else {
        keep_valid(split_dash(s).skip(1))
    }
}

/// The decimal digits of `n`, most significant first, without a sign.
pub open spec fn digits_of(n: int) -> Seq<char>
    recommends
        n >= 0,
    decreases n,
{
    if n < 10 {
        seq![digit_char(n)]
    } else {
        digits_of(n / 10).push(digit_char(n % 10))
    }
}

pub open spec fn digit_char(d: int) -> char {
    if d == 0 {
        '0'
    } else if d == 1 {
        '1'
    } else if d == 2 {
        '2'
    } else if d == 3 {
        '3'
    } else if d == 4 {
        '4'
    } else if d == 5 {
        '5'
    } else if d == 6 {
        '6'
    } else if d == 7 {
        '7'
    } else if d == 8 {
        '8'
    } else {
        '9'
    }
}

/// Encoding a path: the root marker, then each index in decimal behind a dash.
pub open spec fn spec_encode(xs: Seq<int>) -> Seq<char> {
    join_dash(seq![seq!['0']] + xs.map_values(|x: int| digits_of(x)))
}

/// Parse a path token like the root marker followed by dashed indices into
/// the index sequence it addresses; elements that are not well-formed
/// integers are silently dropped.
pub fn parse_path(path: &str) -> (r: Vec<usize>)
    ensures
        to_int_seq(r@) == spec_decode(path@),
{
    let n = path.unicode_len();
    if n == 1 && path.get_char(0) == '0' {
        proof {
            assert(path@ =~= seq!['0']);
            assert(to_int_seq(Seq::<usize>::empty()) =~= Seq::<int>::empty());
        }
        return Vec::new();
    }
    proof {
        assert(path@ != seq!['0']) by {
            if path@ == seq!['0'] {
                assert(path@.len() == 1);
                assert(path@[0] == '0');
            }
        }
    }
    // Phase one: split the characters on dashes.
    let mut segs: Vec<Vec<char>> = Vec::new();
    let mut cur: Vec<char> = Vec::new();
    let mut i: usize = 0;
    while i < n
        invariant
            i <= n,
            n == path@.len(),
            segs@.map_values(|v: Vec<char>| v@).push(cur@) =~= split_dash(path@.take(i as int)),
        decreases n - i,
    {
        let c = path.get_char(i);
        proof {
            assert(path@.take(i + 1).drop_last() =~= path@.take(i as int));
            assert(path@.take(i + 1).last() == path@[i as int]);
        }
        if c == '-' {
            let ghost old_segs = segs@;
            segs.push(cur);
            cur = Vec::new();
            proof {
                assert(segs@.map_values(|v: Vec<char>| v@) =~= old_segs.map_values(
                    |v: Vec<char>| v@,
                ).push(split_dash(path@.take(i as int)).last()));
            }
        } else {
            let ghost old_cur = cur@;
            cur.push(c);
            proof {
                let m = segs@.map_values(|v: Vec<char>| v@);
                let r0 = split_dash(path@.take(i as int));
                assert(m.push(cur@) =~= r0.update(r0.len() - 1, r0.last().push(c)));
            }
        }
        i += 1;
    }
    segs.push(cur);
    proof {
        assert(path@.take(n as int) =~= path@);
    }
    // Phase two: drop the root marker, parse each remaining segment.
    let ghost all = segs@.map_values(|v: Vec<char>| v@);
    let mut r: Vec<usize> = Vec::new();
    let mut j: usize = 1;
    proof {
        assert(to_int_seq(r@) =~= keep_valid(all.skip(1).take(0)));
    }
    while j < segs.len()
        invariant
            1 <= j <= segs@.len(),
            all == segs@.map_values(|v: Vec<char>| v@),
            to_int_seq(r@) == keep_valid(all.skip(1).take(j - 1)),
        decreases segs@.len() - j,
    {
        let ghost old_r = r@;
        proof {
            assert(all.skip(1).take(j as int).drop_last() =~= all.skip(1).take(j - 1));
            assert(all.skip(1).take(j as int).last() == all[j as int]);
        }
        match parse_seg(&segs[j]) {
            Some(v) => {
                r.push(v);
                proof {
                    assert(to_int_seq(r@) =~= to_int_seq(old_r).push(v as int));
                }
            },
            None => {},
        }
        j += 1;
    }
    proof {
        assert(all.skip(1).take(segs@.len() - 1) =~= all.skip(1));
        assert(all =~= split_dash(path@));
    }
    r
}

/// Read one path element: an optional leading plus sign, then decimal digits;
/// rejects anything else and any value that does not fit in `usize`.
fn parse_seg(seg: &Vec<char>) -> (r: Option<usize>)
    ensures
        match r {
            Some(v) => seg_parse(seg@) == Some(v as int),
            None => seg_parse(seg@) is None,
        },
{
    let len = seg.len();
    let start: usize = if len > 0 && seg[0] == '+' {
        1
    } else {
        0
    };
    let ghost t = if seg@.len() > 0 && seg@[0] == '+' {
        seg@.skip(1)
    } else {
        seg@
    };
    if start >= len {
        return None;
    }
    let mut val: usize = 0;
    let mut k = start;
    while k < len
        invariant
            start <= k <= len,
            start <= 1,
            len == seg@.len(),
            start == 1 ==> seg@.len() > 0 && seg@[0] == '+',
            start == 0 ==> !(seg@.len() > 0 && seg@[0] == '+'),
            t == (if seg@.len() > 0 && seg@[0] == '+' {
                seg@.skip(1)
            } else {
                seg@
            }),
            all_digits(t.take(k - start)),
            val == dec_value(t.take(k - start)),
        decreases len - k,
    {
        let c = seg[k];
        let u = c as u32;
        proof {
            if start == 1 {
                assert(t == seg@.skip(1));
                assert(t[k - 1] == seg@[k as int]);
            } else {
                assert(t == seg@);
            }
            assert(t.take(k - start + 1).drop_last() =~= t.take(k - start));
            assert(t.take(k - start + 1).last() == t[k - start]);
        }
        if u < 48 || u > 57 {
            proof {
                assert(!is_digit(t[k - start]));
            }
            return None;
        }
        let d = (u - 48) as usize;
        if val > (usize::MAX - d) / 10 {
            proof {
                lemma_dec_value_grows(t, k - start + 1);
                assert(dec_value(t.take(k - start + 1)) > usize::MAX) by {
                    assert(val * 10 + d > usize::MAX) by (nonlinear_arith)
                        requires
                            val > (usize::MAX - d) / 10,
                            d <= 9,
                    ;
                };
            }
            return None;
        }
        val = val * 10 + d;
        k += 1;
    }
    proof {
        assert(t.take(len - start) =~= t);
    }
    Some(val)
}

/// One decimal digit as a string.
fn digit_str(d: usize) -> (r: &'static str)
    requires
        d < 10,
    ensures
        r@ == seq![digit_char(d as int)],
{
    proof {
        reveal_strlit("0");
        reveal_strlit("1");
        reveal_strlit("2");
        reveal_strlit("3");
        reveal_strlit("4");
        reveal_strlit("5");
        reveal_strlit("6");
        reveal_strlit("7");
        reveal_strlit("8");
        reveal_strlit("9");
    }
    let r = if d == 0 {
        "0"
    } else if d == 1 {
        "1"
    } else if d == 2 {
        "2"
    } else if d == 3 {
        "3"
    } else if d == 4 {
        "4"
    } else if d == 5 {
        "5"
    } else if d == 6 {
        "6"
    } else if d == 7 {
        "7"
    } else if d == 8 {
        "8"
    } else {
        "9"
    };
    proof {
        assert(r@ =~= seq![digit_char(d as int)]);
    }
    r
}

/// An index rendered in decimal, most significant digit first.
pub fn usize_to_string(n: usize) -> (r: String)
    ensures
        r@ == digits_of(n as int),
    decreases n,
{
    if n < 10 {
        digit_str(n).to_owned()
    } else {
        let mut s = usize_to_string(n / 10);
        s.append(digit_str(n % 10));
        proof {
            assert(s@ =~= digits_of((n / 10) as int).push(digit_char((n % 10) as int)));
        }
        s
    }
}

/// Encode an index sequence as a path token: the root marker, then each index
/// in decimal behind a dash.
pub fn path_to_string(indices: &[usize]) -> (r: String)
    ensures
        r@ == spec_encode(to_int_seq(indices@)),
{
    proof {
        reveal_strlit("0");
        reveal_strlit("-");
    }
    let mut s = "0".to_owned();
    let ghost segs0: Seq<Seq<char>> = seq![seq!['0']];
    proof {
        assert(s@ =~= join_dash(segs0 + to_int_seq(indices@).take(0).map_values(
            |x: int| digits_of(x),
        )));
    }
    let mut i: usize = 0;
    while i < indices.len()
        invariant
            i <= indices@.len(),
            segs0 == seq![seq!['0']],
            s@ == join_dash(segs0 + to_int_seq(indices@).take(i as int).map_values(
                |x: int| digits_of(x),
            )),
        decreases indices@.len() - i,
    {
        let ghost old_s = s@;
        let ghost done = segs0 + to_int_seq(indices@).take(i as int).map_values(
            |x: int| digits_of(x),
        );
        s.append("-");
        let idx = *vstd::slice::slice_index_get(indices, i);
        let d = usize_to_string(idx);
        s.append(d.as_str());
        proof {
            reveal_strlit("-");
            let next = segs0 + to_int_seq(indices@).take(i + 1).map_values(
                |x: int| digits_of(x),
            );
            assert(next.drop_last() =~= done);
            assert(next.last() == digits_of(indices@[i as int] as int));
            assert(next.len() >= 2);
            assert(s@ =~= join_dash(next.drop_last()) + seq!['-'] + next.last());
        }
        i += 1;
    }
    proof {
        assert(to_int_seq(indices@).take(indices@.len() as int) =~= to_int_seq(indices@));
    }
    s
}

/// On an all-digit tail, the value of a digit string is at least the value of
/// any of its prefixes.
proof fn lemma_dec_value_grows(t: Seq<char>, j: int)
    requires
        0 <= j <= t.len(),
    ensures
        all_digits(t) ==> dec_value(t) >= dec_value(t.take(j)) >= 0,
    decreases t.len() - j,
{
    lemma_dec_value_nonneg(t.take(j));
    if j < t.len() {
        lemma_dec_value_grows(t, j + 1);
        if all_digits(t) {
            assert(t.take(j + 1).drop_last() =~= t.take(j));
            assert(dec_value(t.take(j + 1)) >= dec_value(t.take(j))) by (nonlinear_arith)
                requires
                    dec_value(t.take(j + 1)) == dec_value(t.take(j)) * 10 + digit_val(
                        t.take(j + 1).last(),
                    ),
                    dec_value(t.take(j)) >= 0,
                    digit_val(t.take(j + 1).last()) >= 0,
            ;
        }
    } else {
        assert(t.take(j) =~= t);
    }
}

/// No dash anywhere in a segment.
pub open spec fn no_dash(s: Seq<char>) -> bool {
    forall|i: int| 0 <= i < s.len() ==> #[trigger] s[i] != '-'
}

/// The decimal rendering of a non-negative number is a non-empty digit
/// string with that very value.
pub proof fn lemma_digits_of(n: int)
    requires
        n >= 0,
    ensures
        digits_of(n).len() >= 1,
        all_digits(digits_of(n)),
        no_dash(digits_of(n)),
        digits_of(n)[0] != '+',
        dec_value(digits_of(n)) == n,
    decreases n,
{
    if n < 10 {
        assert(is_digit(digit_char(n)));
        assert(digit_val(digit_char(n)) == n);
        assert(seq![digit_char(n)].drop_last() =~= Seq::<char>::empty());
        assert(dec_value(Seq::<char>::empty()) == 0);
        assert(dec_value(digits_of(n)) == digit_val(digit_char(n)));
    } else {
        lemma_digits_of(n / 10);
        vstd::arithmetic::div_mod::lemma_fundamental_div_mod(n, 10);
        let d = n % 10;
        assert(0 <= d < 10);
        assert(is_digit(digit_char(d)));
        assert(digit_val(digit_char(d)) == d);
        assert(digits_of(n).drop_last() =~= digits_of(n / 10));
        assert(all_digits(digits_of(n)));
        assert(dec_value(digits_of(n)) == (n / 10) * 10 + d);
    }
}

/// Splitting a dash-free string gives that one segment.
proof fn lemma_split_nodash(s: Seq<char>)
    requires
        no_dash(s),
    ensures
        split_dash(s).len() == 1,
        split_dash(s)[0] == s,
    decreases s.len(),
{
    if s.len() > 0 {
        assert(no_dash(s.drop_last()));
        lemma_split_nodash(s.drop_last());
        assert(split_dash(s)[0] =~= s);
    } else {
        assert(split_dash(s)[0] =~= s);
    }
}

/// Splitting always gives at least one segment.
proof fn lemma_split_len(s: Seq<char>)
    ensures
        split_dash(s).len() >= 1,
    decreases s.len(),
{
    if s.len() > 0 {
        lemma_split_len(s.drop_last());
    }
}

/// Appending a dash-free tail only lengthens the last segment.
proof fn lemma_split_append_nodash(a: Seq<char>, b: Seq<char>)
    requires
        no_dash(b),
    ensures
        split_dash(a + b) =~= split_dash(a).drop_last().push(split_dash(a).last() + b),
    decreases b.len(),
{
    lemma_split_len(a);
    if b.len() == 0 {
        assert(a + b =~= a);
        assert(split_dash(a).last() + b =~= split_dash(a).last());
        assert(split_dash(a).drop_last().push(split_dash(a).last()) =~= split_dash(a));
    } else {
        let c = b.last();
        assert(no_dash(b.drop_last()));
        lemma_split_append_nodash(a, b.drop_last());
        assert((a + b).drop_last() =~= a + b.drop_last());
        assert((a + b).last() == c);
        assert(c != '-');
        let r = split_dash(a + b.drop_last());
        assert(split_dash(a + b) == r.update(r.len() - 1, r.last().push(c)));
        assert(r.last() == split_dash(a).last() + b.drop_last());
        assert(r.last().push(c) =~= split_dash(a).last() + b);
        assert(split_dash(a + b) =~= split_dash(a).drop_last().push(split_dash(a).last() + b));
    }
}

/// Splitting undoes joining, for dash-free segments.
proof fn lemma_split_join(segs: Seq<Seq<char>>)
    requires
        segs.len() >= 1,
        forall|i: int| 0 <= i < segs.len() ==> no_dash(#[trigger] segs[i]),
    ensures
        split_dash(join_dash(segs)) =~= segs,
    decreases segs.len(),
{
    if segs.len() == 1 {
        lemma_split_nodash(segs[0]);
        assert(split_dash(join_dash(segs)) =~= segs);
    } else {
        let dl = segs.drop_last();
        let last = segs.last();
        lemma_split_join(dl);
        let a = join_dash(dl);
        let ad = a + seq!['-'];
        assert(ad.drop_last() =~= a);
        assert(ad.last() == '-');
        assert(split_dash(ad) == split_dash(a).push(Seq::empty()));
        lemma_split_append_nodash(ad, last);
        assert(join_dash(segs) =~= ad + last);
        assert(split_dash(ad).drop_last() =~= split_dash(a));
        assert(split_dash(ad).last() + last =~= last);
        assert(split_dash(join_dash(segs)) =~= split_dash(a).push(last));
        assert(split_dash(a).push(last) =~= segs);
    }
}

/// Joined segments are at least as long as the first segment plus one dash
/// for each further segment.
proof fn lemma_join_len(segs: Seq<Seq<char>>)
    requires
        segs.len() >= 1,
    ensures
        join_dash(segs).len() >= segs[0].len() + segs.len() - 1,
    decreases segs.len(),
{
    if segs.len() > 1 {
        lemma_join_len(segs.drop_last());
    }
}

/// Every decimal rendering of an in-range index parses back to it.
proof fn lemma_keep_valid_digits(xs: Seq<int>)
    requires
        forall|i: int| 0 <= i < xs.len() ==> 0 <= #[trigger] xs[i] <= usize::MAX,
    ensures
        keep_valid(xs.map_values(|x: int| digits_of(x))) =~= xs,
    decreases xs.len(),
{
    let segs = xs.map_values(|x: int| digits_of(x));
    if xs.len() > 0 {
        lemma_keep_valid_digits(xs.drop_last());
        assert(segs.drop_last() =~= xs.drop_last().map_values(|x: int| digits_of(x)));
        let x = xs.last();
        lemma_digits_of(x);
        assert(segs.last() == digits_of(x));
        assert(seg_parse(digits_of(x)) == Some(x));
    }
}

/// Path round-trip: decoding an encoded index sequence gives it back, for
/// any sequence of indices each of which fits in `usize`.
pub proof fn lemma_path_round_trip(xs: Seq<int>)
    requires
        forall|i: int| 0 <= i < xs.len() ==> 0 <= #[trigger] xs[i] <= usize::MAX,
    ensures
        spec_decode(spec_encode(xs)) == xs,
{
    let marker: Seq<char> = seq!['0'];
    let segs = seq![marker] + xs.map_values(|x: int| digits_of(x));
    assert(spec_encode(xs) == join_dash(segs));
    assert(no_dash(marker));
    assert forall|i: int| 0 <= i < segs.len() implies no_dash(#[trigger] segs[i]) by {
        if i > 0 {
            lemma_digits_of(xs[i - 1]);
        }
    }
    if xs.len() == 0 {
        assert(segs =~= seq![marker]);
        assert(join_dash(segs) == marker);
        assert(spec_decode(spec_encode(xs)) =~= xs);
    } else {
        lemma_join_len(segs);
        assert(join_dash(segs).len() >= 1 + segs.len() - 1 >= 2);
        assert(join_dash(segs) != marker);
        lemma_split_join(segs);
        assert(split_dash(join_dash(segs)).skip(1) =~= xs.map_values(|x: int| digits_of(x)));
        lemma_keep_valid_digits(xs);
    }
}

/// The value of an all-digit string is non-negative.
proof fn lemma_dec_value_nonneg(s: Seq<char>)
    ensures
        all_digits(s) ==> dec_value(s) >= 0,
    decreases s.len(),
{
    if s.len() > 0 {
        lemma_dec_value_nonneg(s.drop_last());
        if all_digits(s) {
            assert(all_digits(s.drop_last()));
            assert(dec_value(s.drop_last()) * 10 >= 0) by (nonlinear_arith)
                requires
                    dec_value(s.drop_last()) >= 0,
            ;
        }
    }
}

} // verus!
