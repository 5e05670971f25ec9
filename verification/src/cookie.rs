//! Reading the session id out of a cookie header: the header splits on
//! semicolons, each cookie is trimmed, split at its first equals sign, and
//! the first one named `session_id` gives the value.

use vstd::prelude::*;

verus! {

pub open spec fn is_space(c: char) -> bool {
    c == ' ' || c == '\t' || c == '\r' || c == '\n'
}

/// The sequence without its leading whitespace.
pub open spec fn trim_start(s: Seq<char>) -> Seq<char>
    decreases s.len(),
{
    if s.len() > 0 && is_space(s[0]) {
        trim_start(s.skip(1))
    } else {
        s
    }
}

/// The sequence without its trailing whitespace.
pub open spec fn trim_end(s: Seq<char>) -> Seq<char>
    decreases s.len(),
{
    if s.len() > 0 && is_space(s.last()) {
        trim_end(s.drop_last())
    } else {
        s
    }
}

pub open spec fn trimmed(s: Seq<char>) -> Seq<char> {
    trim_end(trim_start(s))
}

/// The position of the first equals sign, else -1.
pub open spec fn first_eq_sign(s: Seq<char>) -> int
    decreases s.len(),
{
    if s.len() == 0 {
        -1
    } else if s[0] == '=' {
        0
    } else {
        let r = first_eq_sign(s.skip(1));
        if r < 0 {
            -1
        } else {
            r + 1
        }
    }
}

/// The position of the first semicolon, else -1.
pub open spec fn first_semi(s: Seq<char>) -> int
    decreases s.len(),
{
    if s.len() == 0 {
        -1
    } else if s[0] == ';' {
        0
    } else {
        let r = first_semi(s.skip(1));
        if r < 0 {
            -1
        } else {
            r + 1
        }
    }
}

/// One cookie read for the session id: trimmed, split at its first equals
/// sign; the value behind the name `session_id`, else nothing.
pub open spec fn cookie_value(seg: Seq<char>) -> Option<Seq<char>> {
    let t = trimmed(seg);
    let i = first_eq_sign(t);
    if i < 0 {
        None
    } else if t.take(i) == "session_id"@ {
        Some(t.skip(i + 1))
    } else {
        None
    }
}

/// The value of the first cookie named `session_id` in a header, if any.
pub open spec fn spec_session_cookie(s: Seq<char>) -> Option<Seq<char>>
    decreases s.len(),
{
    let i = first_semi(s);
    if !(0 <= i < s.len()) {
        cookie_value(s)
    } else {
        match cookie_value(s.take(i)) {
            Some(v) => Some(v),
            None => spec_session_cookie(s.skip(i + 1)),
        }
    }
}

/// What `first_eq_sign` finds: nothing anywhere, or the first hit.
proof fn lemma_first_eq_sign(s: Seq<char>)
    ensures
        first_eq_sign(s) == -1 ==> forall|j: int| 0 <= j < s.len() ==> #[trigger] s[j] != '=',
        first_eq_sign(s) >= 0 ==> 0 <= first_eq_sign(s) < s.len() && s[first_eq_sign(s)] == '='
            && forall|j: int| 0 <= j < first_eq_sign(s) ==> #[trigger] s[j] != '=',
    decreases s.len(),
{
    if s.len() > 0 && s[0] != '=' {
        lemma_first_eq_sign(s.skip(1));
        let r = first_eq_sign(s.skip(1));
        if r >= 0 {
            assert(s.skip(1)[r] == s[r + 1]);
        }
        assert forall|j: int| 1 <= j < s.len() implies s.skip(1)[j - 1] == #[trigger] s[j] by {}
    }
}

/// What `first_semi` finds: nothing anywhere, or the first hit.
proof fn lemma_first_semi(s: Seq<char>)
    ensures
        first_semi(s) == -1 ==> forall|j: int| 0 <= j < s.len() ==> #[trigger] s[j] != ';',
        first_semi(s) >= 0 ==> 0 <= first_semi(s) < s.len() && s[first_semi(s)] == ';' && forall|
            j: int,
        | 0 <= j < first_semi(s) ==> #[trigger] s[j] != ';',
    decreases s.len(),
{
    if s.len() > 0 && s[0] != ';' {
        lemma_first_semi(s.skip(1));
        let r = first_semi(s.skip(1));
        if r >= 0 {
            assert(s.skip(1)[r] == s[r + 1]);
        }
        assert forall|j: int| 1 <= j < s.len() implies s.skip(1)[j - 1] == #[trigger] s[j] by {}
    }
}

/// Leading whitespace up to a first non-space is what trimming removes.
proof fn lemma_trim_start(x: Seq<char>, k: int)
    requires
        0 <= k <= x.len(),
        forall|j: int| 0 <= j < k ==> is_space(#[trigger] x[j]),
        k == x.len() || !is_space(x[k]),
    ensures
        trim_start(x) == x.skip(k),
    decreases k,
{
    if k == 0 {
        assert(x.skip(0) =~= x);
    } else {
        lemma_trim_start(x.skip(1), k - 1);
        assert(x.skip(1).skip(k - 1) =~= x.skip(k));
    }
}

/// Trailing whitespace back to a last non-space is what trimming removes.
proof fn lemma_trim_end(x: Seq<char>, m: int)
    requires
        0 <= m <= x.len(),
        forall|j: int| m <= j < x.len() ==> is_space(#[trigger] x[j]),
        m == 0 || !is_space(x[m - 1]),
    ensures
        trim_end(x) == x.take(m),
    decreases x.len() - m,
{
    if m == x.len() {
        if x.len() > 0 {
            assert(x.take(m) =~= x);
        } else {
            assert(x.take(0) =~= x);
        }
    } else {
        lemma_trim_end(x.drop_last(), m);
        assert(x.drop_last().take(m) =~= x.take(m));
    }
}

/// The first semicolon in `[from, to)`.
fn find_semi(s: &str, from: usize, to: usize) -> (r: Option<usize>)
    requires
        from <= to <= s@.len(),
    ensures
        ({
            let fw = first_semi(s@.subrange(from as int, to as int));
            match r {
                Some(i) => from <= i < to && fw == i - from,
                None => fw == -1,
            }
        }),
{
    let ghost part = s@.subrange(from as int, to as int);
    let mut k = from;
    while k < to
        invariant
            from <= k <= to <= s@.len(),
            part == s@.subrange(from as int, to as int),
            forall|j: int| 0 <= j < k - from ==> #[trigger] part[j] != ';',
        decreases to - k,
    {
        let c = s.get_char(k);
        if c == ';' {
            proof {
                assert(part[k - from] == s@[k as int]);
                lemma_first_semi(part);
            }
            return Some(k);
        }
        k += 1;
    }
    proof {
        lemma_first_semi(part);
    }
    None
}

/// The first equals sign in `[from, to)`.
fn find_eq_sign(s: &str, from: usize, to: usize) -> (r: Option<usize>)
    requires
        from <= to <= s@.len(),
    ensures
        ({
            let fw = first_eq_sign(s@.subrange(from as int, to as int));
            match r {
                Some(i) => from <= i < to && fw == i - from,
                None => fw == -1,
            }
        }),
{
    let ghost part = s@.subrange(from as int, to as int);
    let mut k = from;
    while k < to
        invariant
            from <= k <= to <= s@.len(),
            part == s@.subrange(from as int, to as int),
            forall|j: int| 0 <= j < k - from ==> #[trigger] part[j] != '=',
        decreases to - k,
    {
        let c = s.get_char(k);
        if c == '=' {
            proof {
                assert(part[k - from] == s@[k as int]);
                lemma_first_eq_sign(part);
            }
            return Some(k);
        }
        k += 1;
    }
    proof {
        lemma_first_eq_sign(part);
    }
    None
}

/// Whether the character at `i` is whitespace.
fn space_at(s: &str, i: usize) -> (r: bool)
    requires
        i < s@.len(),
    ensures
        r == is_space(s@[i as int]),
{
    let c = s.get_char(i);
    c == ' ' || c == '\t' || c == '\r' || c == '\n'
}

/// Read one cookie in `[from, to)` for the session id.
fn cookie_value_range(s: &str, from: usize, to: usize) -> (r: Option<String>)
    requires
        from <= to <= s@.len(),
    ensures
        ({
            let cv = cookie_value(s@.subrange(from as int, to as int));
            match r {
                Some(v) => cv == Some(v@),
                None => cv is None,
            }
        }),
{
    let ghost seg = s@.subrange(from as int, to as int);
    // Trim whitespace on both sides.
    let mut a = from;
    while a < to && space_at(s, a)
        invariant
            from <= a <= to <= s@.len(),
            seg == s@.subrange(from as int, to as int),
            forall|j: int| 0 <= j < a - from ==> is_space(#[trigger] seg[j]),
        decreases to - a,
    {
        a += 1;
    }
    proof {
        if a < to {
            assert(seg[a - from] == s@[a as int]);
        }
        lemma_trim_start(seg, a - from);
        assert(trim_start(seg) =~= s@.subrange(a as int, to as int));
    }
    let mut b = to;
    while b > a && space_at(s, b - 1)
        invariant
            a <= b <= to <= s@.len(),
            seg == s@.subrange(from as int, to as int),
            forall|j: int| b - a <= j < to - a ==> is_space(#[trigger] trim_start(seg)[j]),
            trim_start(seg) == s@.subrange(a as int, to as int),
        decreases b - a,
    {
        proof {
            assert(trim_start(seg)[b - 1 - a] == s@[b - 1]);
        }
        b -= 1;
    }
    proof {
        if b > a {
            assert(trim_start(seg)[b - 1 - a] == s@[b - 1]);
        }
        lemma_trim_end(trim_start(seg), b - a);
        assert(trimmed(seg) =~= s@.subrange(a as int, b as int));
    }
    let ghost t = trimmed(seg);
    // Split at the first equals sign and match the name.
    match find_eq_sign(s, a, b) {
        None => {
            proof {
                assert(t =~= s@.subrange(a as int, b as int));
            }
            None
        },
        Some(e) => {
            proof {
                reveal_strlit("session_id");
                assert(t.take(e - a) =~= s@.subrange(a as int, e as int));
                assert(t.skip(e - a + 1) =~= s@.subrange(e + 1, b as int));
            }
            if e - a != 10 {
                proof {
                    assert(t.take(e - a).len() != "session_id"@.len());
                }
                return None;
            }
            let lit = "session_id";
            let mut j: usize = 0;
            while j < 10
                invariant
                    0 <= j <= 10,
                    e - a == 10,
                    from <= a <= e < b <= s@.len(),
                    lit@ == "session_id"@,
                    lit@.len() == 10,
                    t == trimmed(s@.subrange(from as int, to as int)),
                    first_eq_sign(t) == e - a,
                    t.take(e - a) == s@.subrange(a as int, e as int),
                    forall|q: int| 0 <= q < j ==> #[trigger] s@[a + q] == lit@[q],
                decreases 10 - j,
            {
                let c = s.get_char(a + j);
                let l = lit.get_char(j);
                if c != l {
                    proof {
                        assert(t.take(e - a)[j as int] == s@[a + j]);
                        assert(t.take(e - a) != lit@);
                    }
                    return None;
                }
                j += 1;
            }
            proof {
                assert forall|q: int| 0 <= q < 10 implies t.take(e - a)[q] == lit@[q] by {
                    assert(t.take(e - a)[q] == s@[a + q]);
                }
                assert(t.take(e - a) =~= lit@);
            }
            let v = s.substring_char(e + 1, b).to_owned();
            Some(v)
        },
    }
}

/// The value of the first cookie named `session_id` in the header, if any.
pub fn extract_session_id(cookies: &str) -> (r: Option<String>)
    ensures
        match r {
            Some(v) => spec_session_cookie(cookies@) == Some(v@),
            None => spec_session_cookie(cookies@) is None,
        },
    decreases cookies@.len(),
{
    let n = cookies.unicode_len();
    match find_semi(cookies, 0, n) {
        None => {
            proof {
                assert(cookies@.subrange(0, n as int) =~= cookies@);
            }
            cookie_value_range(cookies, 0, n)
        },
        Some(i) => {
            proof {
                assert(cookies@.subrange(0, n as int) =~= cookies@);
                assert(cookies@.take(i as int) =~= cookies@.subrange(0, i as int));
            }
            match cookie_value_range(cookies, 0, i) {
                Some(v) => Some(v),
                None => {
                    let rest = cookies.substring_char(i + 1, n);
                    proof {
                        assert(rest@ =~= cookies@.skip(i + 1));
                    }
                    extract_session_id(rest)
                },
            }
        },
    }
}

} // verus!
