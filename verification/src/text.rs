//! Character-level text helpers shared by the star labels: decimal digits,
//! Unicode whitespace trimming, and Rust's integer `FromStr` grammar.

use vstd::prelude::*;
use vstd::string::*;

verus! {

// ---------------------------------------------------------------------------
// Specifications
// ---------------------------------------------------------------------------

/// The ASCII character for the decimal digit `d` (0..=9).
pub open spec fn digit_char(d: int) -> char {
    (d + 48) as char
}

/// `c` is one of `'0'..='9'`.
pub open spec fn is_ascii_digit(c: char) -> bool {
    48 <= (c as u32) && (c as u32) <= 57
}

/// Numeric value of an ASCII digit.
pub open spec fn digit_value(c: char) -> nat {
    ((c as u32) - 48) as nat
}

/// Every character of `s` is an ASCII digit.
pub open spec fn all_digits(s: Seq<char>) -> bool {
    forall|i: int| 0 <= i < s.len() ==> #[trigger] is_ascii_digit(s[i])
}

/// Base-10 value of a digit string (most significant digit first).
pub open spec fn digits_value(s: Seq<char>) -> nat
    decreases s.len(),
{
    if s.len() == 0 {
        0
    } else {
        digits_value(s.drop_last()) * 10 + digit_value(s.last())
    }
}

/// Shortest decimal spelling of `n` (`"0"` for zero), as `Display` prints it.
pub open spec fn decimal_digits(n: nat) -> Seq<char>
    decreases n,
{
    if n < 10 {
        seq![digit_char(n as int)]
    } else {
        decimal_digits(n / 10).push(digit_char((n % 10) as int))
    }
}

/// Decimal spelling of a signed integer: a `'-'` before the magnitude when negative.
pub open spec fn signed_decimal(v: int) -> Seq<char> {
    if v < 0 {
        seq!['-'] + decimal_digits((-v) as nat)
    } else {
        decimal_digits(v as nat)
    }
}

/// `char::is_whitespace`: the Unicode `White_Space` property.
pub open spec fn is_white_space(c: char) -> bool {
    let u = c as u32;
    ||| 9 <= u <= 13
    ||| u == 32
    ||| u == 0x85
    ||| u == 0xA0
    ||| u == 0x1680
    ||| 0x2000 <= u <= 0x200A
    ||| u == 0x2028
    ||| u == 0x2029
    ||| u == 0x202F
    ||| u == 0x205F
    ||| u == 0x3000
}

/// `str::trim_start`: drop leading whitespace.
pub open spec fn trim_start(s: Seq<char>) -> Seq<char>
    decreases s.len(),
{
    if s.len() > 0 && is_white_space(s[0]) {
        trim_start(s.drop_first())
    } else {
        s
    }
}

/// `str::trim_end`: drop trailing whitespace.
pub open spec fn trim_end(s: Seq<char>) -> Seq<char>
    decreases s.len(),
{
    if s.len() > 0 && is_white_space(s.last()) {
        trim_end(s.drop_last())
    } else {
        s
    }
}

/// `str::trim`: drop whitespace at both ends.
pub open spec fn trim(s: Seq<char>) -> Seq<char> {
    trim_end(trim_start(s))
}

/// Index of the first occurrence of `c` in `s`.
pub open spec fn first_index_of(s: Seq<char>, c: char) -> Option<int>
    decreases s.len(),
{
    if s.len() == 0 {
        None
    } else if s[0] == c {
        Some(0)
    } else {
        match first_index_of(s.drop_first(), c) {
            Some(i) => Some(i + 1),
            None => None,
        }
    }
}

/// `str::split_once` on a single character: the text before and after its first occurrence.
pub open spec fn split_once(s: Seq<char>, c: char) -> Option<(Seq<char>, Seq<char>)> {
    match first_index_of(s, c) {
        Some(i) => Some((s.take(i), s.skip(i + 1))),
        None => None,
    }
}

/// `<u32 as FromStr>::from_str`: an optional `'+'` followed by at least one ASCII
/// digit, with a value that fits in `u32`.
pub open spec fn parse_u32_spec(s: Seq<char>) -> Option<u32> {
    let body = if s.len() > 0 && s[0] == '+' {
        s.drop_first()
    } else {
        s
    };
    if body.len() == 0 || !all_digits(body) || digits_value(body) > u32::MAX {
        None
    } else {
        Some(digits_value(body) as u32)
    }
}

/// `<i32 as FromStr>::from_str`: an optional `'+'` or `'-'` followed by at least one
/// ASCII digit, with a signed value that fits in `i32`.
pub open spec fn parse_i32_spec(s: Seq<char>) -> Option<i32> {
    let negative = s.len() > 0 && s[0] == '-';
    let body = if s.len() > 0 && (s[0] == '+' || s[0] == '-') {
        s.drop_first()
    } else {
        s
    };
    let value: int = if negative {
        -digits_value(body)
    } else {
        digits_value(body) as int
    };
    if body.len() == 0 || !all_digits(body) || value < i32::MIN || value > i32::MAX {
        None
    } else {
        Some(value as i32)
    }
}

// ---------------------------------------------------------------------------
// Lemmas
// ---------------------------------------------------------------------------

/// The spelling of `n` is a non-empty digit string whose value is `n`.
pub proof fn lemma_decimal_digits_shape(n: nat)
    ensures
        decimal_digits(n).len() > 0,
        all_digits(decimal_digits(n)),
        digits_value(decimal_digits(n)) == n,
    decreases n,
{
    let c = digit_char((n % 10) as int);
    assert(digit_value(c) == n % 10);
    if n >= 10 {
        lemma_decimal_digits_shape(n / 10);
        let d = decimal_digits(n);
        assert(d.drop_last() =~= decimal_digits(n / 10));
        assert(d.last() == c);
        assert(digits_value(d) == digits_value(d.drop_last()) * 10 + digit_value(d.last()));
        assert(digits_value(d.drop_last()) == n / 10);
        assert((n / 10) * 10 + n % 10 == n);
    } else {
        let d = decimal_digits(n);
        assert(d.drop_last() =~= Seq::<char>::empty());
        assert(digits_value(Seq::<char>::empty()) == 0);
        assert(d.last() == c);
    }
}

/// The spelling of a value that fits in `u32` parses back to it.
pub proof fn lemma_parse_u32_of_decimal(n: u32)
    ensures
        parse_u32_spec(decimal_digits(n as nat)) == Some(n),
{
    lemma_decimal_digits_shape(n as nat);
    let d = decimal_digits(n as nat);
    assert(is_ascii_digit(d[0]));
}

/// The signed spelling of an `i32` parses back to it.
pub proof fn lemma_parse_i32_of_signed_decimal(v: i32)
    ensures
        parse_i32_spec(signed_decimal(v as int)) == Some(v),
{
    if v < 0 {
        lemma_decimal_digits_shape((-v) as nat);
        let s = signed_decimal(v as int);
        assert(s.drop_first() =~= decimal_digits((-v) as nat));
    } else {
        lemma_decimal_digits_shape(v as nat);
        let d = decimal_digits(v as nat);
        assert(is_ascii_digit(d[0]));
    }
}

/// A sequence whose first and last characters are not whitespace is its own trim.
pub proof fn lemma_trim_fixed(s: Seq<char>)
    requires
        s.len() > 0,
        !is_white_space(s[0]),
        !is_white_space(s.last()),
    ensures
        trim(s) == s,
{
}

/// The first `c` in `a + [c] + b` is the one right after `a`, when `a` has none.
pub proof fn lemma_first_index_after_prefix(a: Seq<char>, c: char, b: Seq<char>)
    requires
        forall|i: int| 0 <= i < a.len() ==> a[i] != c,
    ensures
        first_index_of(a + seq![c] + b, c) == Some(a.len() as int),
        split_once(a + seq![c] + b, c) == Some((a, b)),
    decreases a.len(),
{
    let s = a + seq![c] + b;
    if a.len() > 0 {
        lemma_first_index_after_prefix(a.drop_first(), c, b);
        assert(s.drop_first() =~= a.drop_first() + seq![c] + b);
    }
    assert(s.take(a.len() as int) =~= a);
    assert(s.skip(a.len() as int + 1) =~= b);
}

/// The spelling of `n` holds no character other than digits.
pub proof fn lemma_decimal_digits_no_char(n: nat, c: char)
    requires
        !is_ascii_digit(c),
    ensures
        forall|i: int| 0 <= i < decimal_digits(n).len() ==> decimal_digits(n)[i] != c,
{
    lemma_decimal_digits_shape(n);
    assert forall|i: int| 0 <= i < decimal_digits(n).len() implies decimal_digits(n)[i] != c by {
        assert(is_ascii_digit(decimal_digits(n)[i]));
    }
}

/// Whitespace added around a text does not change its trim.
pub proof fn lemma_trim_ignores_padding(w1: Seq<char>, s: Seq<char>, w2: Seq<char>)
    requires
        forall|i: int| 0 <= i < w1.len() ==> #[trigger] is_white_space(w1[i]),
        forall|i: int| 0 <= i < w2.len() ==> #[trigger] is_white_space(w2[i]),
    ensures
        trim(w1 + s + w2) == trim(s),
{
    lemma_trim_start_padding(w1, s + w2);
    assert(w1 + s + w2 =~= w1 + (s + w2));
    lemma_trim_start_append_white(s, w2);
    lemma_trim_end_padding(trim_start(s), w2);
}

proof fn lemma_trim_start_padding(w: Seq<char>, s: Seq<char>)
    requires
        forall|i: int| 0 <= i < w.len() ==> #[trigger] is_white_space(w[i]),
    ensures
        trim_start(w + s) == trim_start(s),
    decreases w.len(),
{
    if w.len() > 0 {
        assert(is_white_space(w[0]));
        assert((w + s).drop_first() =~= w.drop_first() + s);
        assert forall|i: int| 0 <= i < w.drop_first().len() implies #[trigger] is_white_space(
            w.drop_first()[i],
        ) by {
            assert(is_white_space(w[i + 1]));
        }
        lemma_trim_start_padding(w.drop_first(), s);
    } else {
        assert(w + s =~= s);
    }
}

/// Trimming the start of `s + w` with white `w` is trimming the start of `s`, then
/// appending `w`, unless `s` is all white.
proof fn lemma_trim_start_append_white(s: Seq<char>, w: Seq<char>)
    requires
        forall|i: int| 0 <= i < w.len() ==> #[trigger] is_white_space(w[i]),
    ensures
        trim_end(trim_start(s + w)) == trim_end(trim_start(s) + w),
    decreases s.len(),
{
    if s.len() > 0 {
        if is_white_space(s[0]) {
            assert((s + w).drop_first() =~= s.drop_first() + w);
            lemma_trim_start_append_white(s.drop_first(), w);
        }
    } else {
        assert(s + w =~= w);
        lemma_trim_start_padding(w, Seq::<char>::empty());
        assert(w + Seq::<char>::empty() =~= w);
        assert(trim_start(s) =~= Seq::<char>::empty());
        assert(trim_start(s) + w =~= w);
        lemma_trim_end_all_white(w);
        lemma_trim_end_all_white(trim_start(w));
    }
}

proof fn lemma_trim_end_all_white(w: Seq<char>)
    requires
        forall|i: int| 0 <= i < w.len() ==> #[trigger] is_white_space(w[i]),
    ensures
        trim_end(w) =~= Seq::<char>::empty(),
    decreases w.len(),
{
    if w.len() > 0 {
        assert(is_white_space(w[w.len() - 1]));
        assert forall|i: int| 0 <= i < w.drop_last().len() implies #[trigger] is_white_space(
            w.drop_last()[i],
        ) by {
            assert(is_white_space(w[i]));
        }
        lemma_trim_end_all_white(w.drop_last());
    }
}

proof fn lemma_trim_end_padding(s: Seq<char>, w: Seq<char>)
    requires
        forall|i: int| 0 <= i < w.len() ==> #[trigger] is_white_space(w[i]),
    ensures
        trim_end(s + w) == trim_end(s),
    decreases w.len(),
{
    if w.len() > 0 {
        assert(is_white_space(w[w.len() - 1]));
        assert((s + w).drop_last() =~= s + w.drop_last());
        assert forall|i: int| 0 <= i < w.drop_last().len() implies #[trigger] is_white_space(
            w.drop_last()[i],
        ) by {
            assert(is_white_space(w[i]));
        }
        lemma_trim_end_padding(s, w.drop_last());
    } else {
        assert(s + w =~= s);
    }
}

// ---------------------------------------------------------------------------
// Executable helpers
// ---------------------------------------------------------------------------

/// Appends one character to a `String`: std's `String::push`, whose documentation says
/// it appends the given `char` to the end; the contract claims exactly that of the
/// characters of the string.
#[verifier::external_body]
pub(crate) fn push_char(s: &mut String, c: char)
    ensures
        final(s)@ == old(s)@.push(c),
{
    s.push(c)
}

/// The characters of `s`, in order.
pub fn chars_of(s: &str) -> (v: Vec<char>)
    ensures
        v@ == s@,
{
    let n = s.unicode_len();
    let mut v: Vec<char> = Vec::new();
    let mut i: usize = 0;
    while i < n
        invariant
            n == s@.len(),
            i <= n,
            v@ =~= s@.take(i as int),
        decreases n - i,
    {
        let c = s.get_char(i);
        v.push(c);
        i = i + 1;
    }
    assert(s@.take(n as int) =~= s@);
    v
}

/// The ASCII digit for `d < 10`.
pub fn digit_to_char(d: u32) -> (c: char)
    requires
        d < 10,
    ensures
        c == digit_char(d as int),
{
    let b: u8 = 48u8 + (d as u8);
    b as char
}

/// Appends the decimal spelling of `n`.
pub fn push_decimal(out: &mut String, n: u32)
    ensures
        final(out)@ == old(out)@ + decimal_digits(n as nat),
    decreases n,
{
    if n >= 10 {
        push_decimal(out, n / 10);
    }
    let c = digit_to_char(n % 10);
    push_char(out, c);
    proof {
        if n >= 10 {
            assert(decimal_digits(n as nat) == decimal_digits((n / 10) as nat).push(c));
        } else {
            assert(decimal_digits(n as nat) =~= seq![c]);
        }
    }
}

/// Appends the signed decimal spelling of `v`.
pub fn push_signed_decimal(out: &mut String, v: i32)
    ensures
        final(out)@ == old(out)@ + signed_decimal(v as int),
{
    if v < 0 {
        push_char(out, '-');
        let magnitude: i64 = -(v as i64);
        push_decimal(out, magnitude as u32);
        assert(final(out)@ =~= old(out)@ + signed_decimal(v as int));
    } else {
        push_decimal(out, v as u32);
    }
}

/// Exec test for [`is_white_space`].
pub fn char_is_white_space(c: char) -> (b: bool)
    ensures
        b == is_white_space(c),
{
    let u = c as u32;
    (9 <= u && u <= 13) || u == 32 || u == 0x85 || u == 0xA0 || u == 0x1680 || (0x2000 <= u && u
        <= 0x200A) || u == 0x2028 || u == 0x2029 || u == 0x202F || u == 0x205F || u == 0x3000
}

/// Bounds of `trim(v[lo..hi])` inside `v`.
pub fn trim_range(v: &Vec<char>, lo: usize, hi: usize) -> (r: (usize, usize))
    requires
        lo <= hi <= v@.len(),
    ensures
        lo <= r.0 <= r.1 <= hi,
        v@.subrange(r.0 as int, r.1 as int) == trim(v@.subrange(lo as int, hi as int)),
{
    let mut a: usize = lo;
    while a < hi && char_is_white_space(v[a])
        invariant
            lo <= a <= hi <= v@.len(),
            trim_start(v@.subrange(lo as int, hi as int)) == trim_start(
                v@.subrange(a as int, hi as int),
            ),
        decreases hi - a,
    {
        assert(v@.subrange(a as int, hi as int).drop_first() =~= v@.subrange(
            a + 1,
            hi as int,
        ));
        a = a + 1;
    }
    assert(trim_start(v@.subrange(a as int, hi as int)) == v@.subrange(a as int, hi as int));
    let mut b: usize = hi;
    while b > a && char_is_white_space(v[b - 1])
        invariant
            lo <= a <= b <= hi <= v@.len(),
            trim_end(v@.subrange(a as int, hi as int)) == trim_end(v@.subrange(a as int, b as int)),
        decreases b - a,
    {
        assert(v@.subrange(a as int, b as int).drop_last() =~= v@.subrange(
            a as int,
            b - 1,
        ));
        b = b - 1;
    }
    (a, b)
}

/// Position of the first `c` in `v[lo..hi]`, as an index into `v`.
pub fn find_char(v: &Vec<char>, lo: usize, hi: usize, c: char) -> (r: Option<usize>)
    requires
        lo <= hi <= v@.len(),
    ensures
        r matches Some(j) ==> lo <= j < hi && first_index_of(v@.subrange(lo as int, hi as int), c)
            == Some(j - lo),
        r is None ==> first_index_of(v@.subrange(lo as int, hi as int), c) is None,
{
    let mut i: usize = lo;
    while i < hi
        invariant
            lo <= i <= hi <= v@.len(),
            first_index_of(v@.subrange(lo as int, hi as int), c) == (match first_index_of(
                v@.subrange(i as int, hi as int),
                c,
            ) {
                Some(k) => Some(k + (i - lo)),
                None => None::<int>,
            }),
        decreases hi - i,
    {
        if v[i] == c {
            return Some(i);
        }
        assert(v@.subrange(i as int, hi as int).drop_first() =~= v@.subrange(
            i + 1,
            hi as int,
        ));
        i = i + 1;
    }
    None
}

/// The saturated value `min(digits_value(v[lo..hi]), cap)`, or `None` when a character
/// is not a digit.
fn digits_value_capped(v: &Vec<char>, lo: usize, hi: usize, cap: u64) -> (r: Option<u64>)
    requires
        lo <= hi <= v@.len(),
        0 < cap <= 0x1_0000_0000,
    ensures
        r is Some <==> all_digits(v@.subrange(lo as int, hi as int)),
        r matches Some(x) ==> x as int == (if digits_value(v@.subrange(lo as int, hi as int))
            < cap {
            digits_value(v@.subrange(lo as int, hi as int)) as int
        } else {
            cap as int
        }),
{
    let mut acc: u64 = 0;
    let mut i: usize = lo;
    while i < hi
        invariant
            lo <= i <= hi <= v@.len(),
            0 < cap <= 0x1_0000_0000,
            all_digits(v@.subrange(lo as int, i as int)),
            acc as int == (if digits_value(v@.subrange(lo as int, i as int)) < cap {
                digits_value(v@.subrange(lo as int, i as int)) as int
            } else {
                cap as int
            }),
        decreases hi - i,
    {
        let u = v[i] as u32;
        if u < 48 || u > 57 {
            proof {
                let s = v@.subrange(lo as int, hi as int);
                assert(s[i - lo] == v@[i as int]);
                assert(!is_ascii_digit(s[i - lo]));
            }
            return None;
        }
        let d: u64 = (u - 48) as u64;
        let next: u64 = acc * 10 + d;
        acc = if next < cap {
            next
        } else {
            cap
        };
        proof {
            let p = v@.subrange(lo as int, i + 1);
            assert(p.drop_last() =~= v@.subrange(lo as int, i as int));
            assert(p.last() == v@[i as int]);
            assert forall|k: int| 0 <= k < p.len() implies #[trigger] is_ascii_digit(p[k]) by {
                if k < p.len() - 1 {
                    assert(p[k] == p.drop_last()[k]);
                }
            }
        }
        i = i + 1;
    }
    Some(acc)
}

/// `<u32 as FromStr>::from_str` on `v[lo..hi]`.
pub fn parse_u32_range(v: &Vec<char>, lo: usize, hi: usize) -> (r: Option<u32>)
    requires
        lo <= hi <= v@.len(),
    ensures
        r == parse_u32_spec(v@.subrange(lo as int, hi as int)),
{
    let s = Ghost(v@.subrange(lo as int, hi as int));
    let mut start: usize = lo;
    if lo < hi && v[lo] == '+' {
        start = lo + 1;
        assert(s@.drop_first() =~= v@.subrange(start as int, hi as int));
    } else {
        assert(s@ =~= v@.subrange(start as int, hi as int));
    }
    if start == hi {
        return None;
    }
    match digits_value_capped(v, start, hi, 0x1_0000_0000) {
        None => None,
        Some(x) => {
            if x > 0xFFFF_FFFF {
                None
            } else {
                Some(x as u32)
            }
        },
    }
}

/// `<i32 as FromStr>::from_str` on `v[lo..hi]`.
pub fn parse_i32_range(v: &Vec<char>, lo: usize, hi: usize) -> (r: Option<i32>)
    requires
        lo <= hi <= v@.len(),
    ensures
        r == parse_i32_spec(v@.subrange(lo as int, hi as int)),
{
    let s = Ghost(v@.subrange(lo as int, hi as int));
    let mut start: usize = lo;
    let mut negative = false;
    if lo < hi && (v[lo] == '+' || v[lo] == '-') {
        negative = v[lo] == '-';
        start = lo + 1;
        assert(s@.drop_first() =~= v@.subrange(start as int, hi as int));
    } else {
        assert(s@ =~= v@.subrange(start as int, hi as int));
    }
    if start == hi {
        return None;
    }
    match digits_value_capped(v, start, hi, 0x8000_0001) {
        None => None,
        Some(x) => {
            if negative {
                if x > 0x8000_0000 {
                    None
                } else {
                    let m: i64 = x as i64;
                    Some((-m) as i32)
                }
            } else {
                if x > 0x7FFF_FFFF {
                    None
                } else {
                    Some(x as i32)
                }
            }
        },
    }
}

} // verus!
