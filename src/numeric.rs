//! Reading numbers out of text, as `str::parse` accepts them.

use vstd::prelude::*;

verus! {

pub open spec fn is_digit(c: char) -> bool {
    '0' <= c && c <= '9'
}

pub open spec fn digit_value(c: char) -> nat {
    ((c as u32) - ('0' as u32)) as nat
}

pub open spec fn all_digits(s: Seq<char>) -> bool {
    forall|i: int| 0 <= i < s.len() ==> #[trigger] is_digit(s[i])
}

/// The value of a string of decimal digits.
pub open spec fn digits_value(s: Seq<char>) -> nat
    decreases s.len(),
{
    if s.len() == 0 {
        0
    } else {
        digits_value(s.drop_last()) * 10 + digit_value(s.last())
    }
}

/// One or more decimal digits: their value.
pub open spec fn decimal(s: Seq<char>) -> Option<nat> {
    if s.len() > 0 && all_digits(s) {
        Some(digits_value(s))
    } else {
        None
    }
}

/// The text of an unsigned integer: an optional `+`, then one or more
/// decimal digits.
pub open spec fn unsigned_text(s: Seq<char>) -> Option<nat> {
    if s.len() > 0 && s[0] == '+' {
        decimal(s.drop_first())
    } else {
        decimal(s)
    }
}

/// The text of a signed integer: an optional `+` or `-`, then one or more
/// decimal digits.
pub open spec fn signed_text(s: Seq<char>) -> Option<int> {
    if s.len() > 0 && s[0] == '-' {
        match decimal(s.drop_first()) {
            Some(v) => Some(-v),
            None => None,
        }
    } else {
        match unsigned_text(s) {
            Some(v) => Some(v as int),
            None => None,
        }
    }
}

/// What `s.parse::<u64>()` gives.
pub open spec fn parsed_u64(s: Seq<char>) -> Option<u64> {
    match unsigned_text(s) {
        Some(v) => if v <= u64::MAX {
            Some(v as u64)
        } else {
            None
        },
        None => None,
    }
}

/// What `s.parse::<i64>()` gives.
pub open spec fn parsed_i64(s: Seq<char>) -> Option<i64> {
    match signed_text(s) {
        Some(v) => if i64::MIN <= v <= i64::MAX {
            Some(v as i64)
        } else {
            None
        },
        None => None,
    }
}

proof fn lemma_digits_value_grows(s: Seq<char>, j: int, k: int)
    requires
        0 <= j <= k <= s.len(),
    ensures
        digits_value(s.take(j)) <= digits_value(s.take(k)),
    decreases k - j,
{
    if j < k {
        lemma_digits_value_grows(s, j, k - 1);
        assert(s.take(k).drop_last() =~= s.take(k - 1));
    }
}

/// The digits `s[start..end]` read as a number no greater than `limit`;
/// `None` where they are not one or more digits, or exceed `limit`.
fn digits_upto(s: &str, start: usize, end: usize, limit: u64) -> (r: Option<u64>)
    requires
        start <= end <= s@.len(),
    ensures
        match decimal(s@.subrange(start as int, end as int)) {
            Some(v) => if v <= limit {
                r == Some(v as u64)
            } else {
                r is None
            },
            None => r is None,
        },
{
    let ghost t = s@.subrange(start as int, end as int);
    if start == end {
        return None;
    }
    let mut acc: u64 = 0;
    let mut i: usize = start;
    proof {
        assert(t.take(0).len() == 0);
    }
    while i < end
        invariant
            start <= i <= end <= s@.len(),
            t == s@.subrange(start as int, end as int),
            all_digits(t.take(i - start)),
            acc as nat == digits_value(t.take(i - start)),
            acc <= limit,
        decreases end - i,
    {
        let c = s.get_char(i);
        let k: usize = i - start;
        proof {
            assert(t[k as int] == c);
            assert(t.take(k + 1).drop_last() =~= t.take(k as int));
            assert(t.take(k + 1).last() == c);
        }
        if !('0' <= c && c <= '9') {
            proof {
                assert(!is_digit(t[k as int]));
                assert(!all_digits(t));
            }
            return None;
        }
        let d: u64 = ((c as u32) - ('0' as u32)) as u64;
        let next: u128 = (acc as u128) * 10 + (d as u128);
        if next > limit as u128 {
            proof {
                lemma_digits_value_grows(t, k + 1, t.len() as int);
                assert(t.take(t.len() as int) =~= t);
            }
            return None;
        }
        acc = next as u64;
        i = i + 1;
        proof {
            assert forall|j: int| 0 <= j < t.take(i - start).len() implies #[trigger] is_digit(t.take(i - start)[j]) by {
                if j < k {
                    assert(t.take(k as int)[j] == t.take(i - start)[j]);
                }
            }
        }
    }
    proof {
        assert(t.take(end - start) =~= t);
    }
    Some(acc)
}

/// `s.parse::<u64>()`.
pub fn parse_u64(s: &str) -> (r: Option<u64>)
    ensures
        r == parsed_u64(s@),
{
    let n = s.unicode_len();
    if n > 0 && s.get_char(0) == '+' {
        proof {
            assert(s@.subrange(1, n as int) =~= s@.drop_first());
        }
        digits_upto(s, 1, n, u64::MAX)
    } else {
        proof {
            assert(s@.subrange(0, n as int) =~= s@);
        }
        digits_upto(s, 0, n, u64::MAX)
    }
}

/// `s.parse::<i64>()`.
pub fn parse_i64(s: &str) -> (r: Option<i64>)
    ensures
        r == parsed_i64(s@),
{
    let n = s.unicode_len();
    if n > 0 && s.get_char(0) == '-' {
        proof {
            assert(s@.subrange(1, n as int) =~= s@.drop_first());
        }
        match digits_upto(s, 1, n, 0x8000_0000_0000_0000u64) {
            Some(v) => Some((0i128 - v as i128) as i64),
            None => None,
        }
    } else if n > 0 && s.get_char(0) == '+' {
        proof {
            assert(s@.subrange(1, n as int) =~= s@.drop_first());
        }
        match digits_upto(s, 1, n, i64::MAX as u64) {
            Some(v) => Some(v as i64),
            None => None,
        }
    } else {
        proof {
            assert(s@.subrange(0, n as int) =~= s@);
        }
        match digits_upto(s, 0, n, i64::MAX as u64) {
            Some(v) => Some(v as i64),
            None => None,
        }
    }
}

pub open spec fn is_sign(c: char) -> bool {
    c == '+' || c == '-'
}

/// `s` without its leading sign, if it has one.
pub open spec fn unsigned_part(s: Seq<char>) -> Seq<char> {
    if s.len() > 0 && is_sign(s[0]) {
        s.drop_first()
    } else {
        s
    }
}

/// `s` spells the word `w`, given as (lower case, upper case) letters, in
/// any mix of cases.
pub open spec fn spells(s: Seq<char>, w: Seq<(char, char)>) -> bool {
    &&& s.len() == w.len()
    &&& forall|i: int| 0 <= i < s.len() ==> #[trigger] s[i] == w[i].0 || s[i] == w[i].1
}

pub open spec fn word_inf() -> Seq<(char, char)> {
    seq![('i', 'I'), ('n', 'N'), ('f', 'F')]
}

pub open spec fn word_infinity() -> Seq<(char, char)> {
    seq![('i', 'I'), ('n', 'N'), ('f', 'F'), ('i', 'I'), ('n', 'N'), ('i', 'I'), ('t', 'T'), ('y', 'Y')]
}

pub open spec fn word_nan() -> Seq<(char, char)> {
    seq![('n', 'N'), ('a', 'A'), ('n', 'N')]
}

/// `Digit+ | Digit+ '.' Digit* | Digit* '.' Digit+`
pub open spec fn mantissa_ok(m: Seq<char>) -> bool {
    ||| m.len() > 0 && all_digits(m)
    ||| exists|p: int|
        0 <= p < m.len() && m[p] == '.' && m.len() > 1 && all_digits(m.take(p)) && #[trigger] all_digits(
            m.skip(p + 1),
        )
}

pub open spec fn is_exp(c: char) -> bool {
    c == 'e' || c == 'E'
}

/// `Sign? Digit+`
pub open spec fn exponent_ok(x: Seq<char>) -> bool {
    unsigned_part(x).len() > 0 && all_digits(unsigned_part(x))
}

/// `Mantissa ('e' Sign? Digit+)?`
pub open spec fn number_ok(b: Seq<char>) -> bool {
    ||| mantissa_ok(b)
    ||| exists|e: int| 0 <= e < b.len() && is_exp(b[e]) && mantissa_ok(b.take(e)) && #[trigger] exponent_ok(b.skip(e + 1))
}

/// The texts that `s.parse::<f64>()` accepts:
/// `Sign? ('inf' | 'infinity' | 'nan' | Number)`, letters in any case.
pub open spec fn float_text(s: Seq<char>) -> bool {
    let b = unsigned_part(s);
    ||| spells(b, word_inf())
    ||| spells(b, word_infinity())
    ||| spells(b, word_nan())
    ||| number_ok(b)
}

proof fn lemma_mantissa_chars(m: Seq<char>, i: int)
    requires
        mantissa_ok(m),
        0 <= i < m.len(),
    ensures
        is_digit(m[i]) || m[i] == '.',
{
    if !(m.len() > 0 && all_digits(m)) {
        let p = choose|p: int|
            0 <= p < m.len() && m[p] == '.' && m.len() > 1 && all_digits(m.take(p)) && #[trigger] all_digits(
                m.skip(p + 1),
            );
        if i < p {
            assert(m.take(p)[i] == m[i]);
        } else if i > p {
            assert(m.skip(p + 1)[i - p - 1] == m[i]);
        }
    }
}

/// The first position in `v[lo..hi]` holding `a` or `b`, or `hi`.
fn first_of(v: &Vec<char>, lo: usize, hi: usize, a: char, b: char) -> (r: usize)
    requires
        lo <= hi <= v@.len(),
    ensures
        lo <= r <= hi,
        forall|i: int| lo <= i < r ==> #[trigger] v@[i] != a && v@[i] != b,
        r < hi ==> v@[r as int] == a || v@[r as int] == b,
{
    let mut i: usize = lo;
    while i < hi
        invariant
            lo <= i <= hi <= v@.len(),
            forall|j: int| lo <= j < i ==> #[trigger] v@[j] != a && v@[j] != b,
        decreases hi - i,
    {
        if v[i] == a || v[i] == b {
            return i;
        }
        i = i + 1;
    }
    hi
}

/// Whether `v[lo..hi]` is all decimal digits.
fn digits_only(v: &Vec<char>, lo: usize, hi: usize) -> (r: bool)
    requires
        lo <= hi <= v@.len(),
    ensures
        r == all_digits(v@.subrange(lo as int, hi as int)),
{
    let ghost t = v@.subrange(lo as int, hi as int);
    let mut i: usize = lo;
    while i < hi
        invariant
            lo <= i <= hi <= v@.len(),
            t == v@.subrange(lo as int, hi as int),
            forall|j: int| 0 <= j < i - lo ==> #[trigger] is_digit(t[j]),
        decreases hi - i,
    {
        let c = v[i];
        if !('0' <= c && c <= '9') {
            proof {
                assert(!is_digit(t[i - lo]));
            }
            return false;
        }
        i = i + 1;
    }
    true
}

/// Whether `v[lo..hi]` is a mantissa.
fn mantissa_in(v: &Vec<char>, lo: usize, hi: usize) -> (r: bool)
    requires
        lo <= hi <= v@.len(),
    ensures
        r == mantissa_ok(v@.subrange(lo as int, hi as int)),
{
    let ghost m = v@.subrange(lo as int, hi as int);
    let p = first_of(v, lo, hi, '.', '.');
    if p == hi {
        proof {
            assert forall|q: int| 0 <= q < m.len() implies m[q] != '.' by {
                assert(m[q] == v@[lo + q]);
            }
        }
        lo < hi && digits_only(v, lo, hi)
    } else {
        let k: usize = p - lo;
        proof {
            assert(m[k as int] == '.');
            assert(m.take(k as int) =~= v@.subrange(lo as int, p as int));
            assert(m.skip(k + 1) =~= v@.subrange(p + 1, hi as int));
            assert(!is_digit(m[k as int]));
            assert(!all_digits(m));
            if exists|q: int|
                0 <= q < m.len() && m[q] == '.' && m.len() > 1 && all_digits(m.take(q)) && #[trigger] all_digits(m.skip(q + 1))
            {
                let q = choose|q: int|
                    0 <= q < m.len() && m[q] == '.' && m.len() > 1 && all_digits(m.take(q)) && #[trigger] all_digits(
                        m.skip(q + 1),
                    );
                if q < k {
                    assert(m[q] == v@[lo + q]);
                } else if q > k {
                    assert(m.take(q)[k as int] == '.');
                    assert(!is_digit(m.take(q)[k as int]));
                }
            }
        }
        hi - lo > 1 && digits_only(v, lo, p) && digits_only(v, p + 1, hi)
    }
}

/// Whether `v[lo..hi]` is an exponent's digits, with an optional sign.
fn exponent_in(v: &Vec<char>, lo: usize, hi: usize) -> (r: bool)
    requires
        lo <= hi <= v@.len(),
    ensures
        r == exponent_ok(v@.subrange(lo as int, hi as int)),
{
    let ghost x = v@.subrange(lo as int, hi as int);
    if lo < hi && (v[lo] == '+' || v[lo] == '-') {
        proof {
            assert(x.drop_first() =~= v@.subrange(lo + 1, hi as int));
        }
        lo + 1 < hi && digits_only(v, lo + 1, hi)
    } else {
        lo < hi && digits_only(v, lo, hi)
    }
}

/// Whether `v[lo..hi]` spells `w` in any mix of cases.
fn spells_in(v: &Vec<char>, lo: usize, hi: usize, w: &Vec<(char, char)>) -> (r: bool)
    requires
        lo <= hi <= v@.len(),
    ensures
        r == spells(v@.subrange(lo as int, hi as int), w@),
{
    let ghost t = v@.subrange(lo as int, hi as int);
    if hi - lo != w.len() {
        return false;
    }
    let mut i: usize = 0;
    while i < w.len()
        invariant
            hi - lo == w@.len(),
            lo <= hi <= v@.len(),
            t == v@.subrange(lo as int, hi as int),
            i <= w@.len(),
            forall|j: int| 0 <= j < i ==> #[trigger] t[j] == w@[j].0 || t[j] == w@[j].1,
        decreases w@.len() - i,
    {
        let c = v[lo + i];
        proof {
            assert(t[i as int] == c);
        }
        if !(c == w[i].0 || c == w[i].1) {
            return false;
        }
        i = i + 1;
    }
    true
}

/// Whether `s.parse::<f64>()` accepts `s`.
pub fn is_float_text(s: &str) -> (r: bool)
    ensures
        r == float_text(s@),
{
    let n = s.unicode_len();
    let mut v: Vec<char> = Vec::new();
    let mut i: usize = 0;
    while i < n
        invariant
            n == s@.len(),
            i <= n,
            v@ == s@.take(i as int),
        decreases n - i,
    {
        v.push(s.get_char(i));
        i = i + 1;
        proof {
            assert(v@ =~= s@.take(i as int));
        }
    }
    proof {
        assert(v@ =~= s@);
    }
    let lo: usize = if n > 0 && (v[0] == '+' || v[0] == '-') { 1 } else { 0 };
    let ghost b = v@.subrange(lo as int, n as int);
    proof {
        assert(b =~= unsigned_part(s@));
    }
    let inf: Vec<(char, char)> = vec![('i', 'I'), ('n', 'N'), ('f', 'F')];
    let infinity: Vec<(char, char)> = vec![
        ('i', 'I'),
        ('n', 'N'),
        ('f', 'F'),
        ('i', 'I'),
        ('n', 'N'),
        ('i', 'I'),
        ('t', 'T'),
        ('y', 'Y'),
    ];
    let nan: Vec<(char, char)> = vec![('n', 'N'), ('a', 'A'), ('n', 'N')];
    proof {
        assert(inf@ =~= word_inf());
        assert(infinity@ =~= word_infinity());
        assert(nan@ =~= word_nan());
    }
    if spells_in(&v, lo, n, &inf) || spells_in(&v, lo, n, &infinity) || spells_in(&v, lo, n, &nan) {
        return true;
    }
    let e = first_of(&v, lo, n, 'e', 'E');
    if e == n {
        proof {
            if exists|x: int| 0 <= x < b.len() && is_exp(b[x]) && mantissa_ok(b.take(x)) && #[trigger] exponent_ok(b.skip(x + 1)) {
                let x = choose|x: int| 0 <= x < b.len() && is_exp(b[x]) && mantissa_ok(b.take(x)) && #[trigger] exponent_ok(b.skip(x + 1));
                assert(b[x] == v@[lo + x]);
            }
        }
        mantissa_in(&v, lo, n)
    } else {
        let k: usize = e - lo;
        proof {
            assert(b[k as int] == v@[e as int]);
            assert(b.take(k as int) =~= v@.subrange(lo as int, e as int));
            assert(b.skip(k + 1) =~= v@.subrange(e + 1, n as int));
            if mantissa_ok(b) {
                lemma_mantissa_chars(b, k as int);
            }
            if exists|x: int| 0 <= x < b.len() && is_exp(b[x]) && mantissa_ok(b.take(x)) && #[trigger] exponent_ok(b.skip(x + 1)) {
                let x = choose|x: int| 0 <= x < b.len() && is_exp(b[x]) && mantissa_ok(b.take(x)) && #[trigger] exponent_ok(b.skip(x + 1));
                if x < k {
                    assert(b[x] == v@[lo + x]);
                } else if x > k {
                    lemma_mantissa_chars(b.take(x), k as int);
                }
            }
        }
        mantissa_in(&v, lo, e) && exponent_in(&v, e + 1, n)
    }
}

} // verus!
