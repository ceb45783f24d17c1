//! Reversible star labels for grid cells (tenths of a ly per step).
//!
//! Standard form `{Xblock}{Yblock}-{rx}-{ry}`: blocks are 10 000 grid units (Euclidean
//! division, remainders 0..10 000). Block letters per axis: `A`–`Z` for blocks 0–25,
//! `a`–`z` for blocks -1–-26. A cell whose block falls outside -26..=25 on either axis is
//! labelled `!x,y` (signed decimal coordinates).

use vstd::prelude::*;
use crate::text::{
    chars_of, decimal_digits, find_char, is_ascii_digit, is_white_space,
    lemma_decimal_digits_no_char, lemma_decimal_digits_shape, lemma_first_index_after_prefix,
    lemma_parse_i32_of_signed_decimal, lemma_parse_u32_of_decimal, lemma_trim_fixed,
    lemma_trim_ignores_padding, parse_i32_range, parse_i32_spec, parse_u32_range,
    parse_u32_spec, push_char, push_decimal, push_signed_decimal, signed_decimal, split_once,
    trim, trim_range,
};

verus! {

/// Grid units per label block.
pub const BLOCK: i32 = 10_000;

// ---------------------------------------------------------------------------
// Specifications
// ---------------------------------------------------------------------------

/// Packed location id: the low 32 bits hold `star_x` (two's complement), the next 32
/// bits hold `star_y`.
pub open spec fn location_id(star_x: i32, star_y: i32) -> u128 {
    ((star_x as u32) as int + (star_y as u32) as int * 0x1_0000_0000) as u128
}

/// Label block of a coordinate (floor division by [`BLOCK`]).
pub open spec fn block_of(v: int) -> int {
    v / 10_000
}

/// Offset of a coordinate inside its block, in `0..BLOCK`.
pub open spec fn offset_of(v: int) -> int {
    v % 10_000
}

/// Letter naming a block: `A`–`Z` for 0..=25, `a`–`z` for -1..=-26.
pub open spec fn block_letter(b: int) -> Option<char> {
    if 0 <= b <= 25 {
        Some((b + 65) as char)
    } else if -26 <= b <= -1 {
        Some((-b - 1 + 97) as char)
    } else {
        None
    }
}

/// Block named by a letter, the inverse of [`block_letter`].
pub open spec fn letter_block(c: char) -> Option<int> {
    let u = c as u32;
    if 65 <= u <= 90 {
        Some(u - 65)
    } else if 97 <= u <= 122 {
        Some(-(u - 97 + 1))
    } else {
        None
    }
}

/// The label of cell `(x, y)`.
pub open spec fn display_id(x: i32, y: i32) -> Seq<char> {
    match (block_letter(block_of(x as int)), block_letter(block_of(y as int))) {
        (Some(cx), Some(cy)) => seq![cx, cy, '-'] + decimal_digits(offset_of(x as int) as nat)
            + seq!['-'] + decimal_digits(offset_of(y as int) as nat),
        _ => seq!['!'] + signed_decimal(x as int) + seq![','] + signed_decimal(y as int),
    }
}

/// Decoding of an already trimmed label.
pub open spec fn parse_trimmed_id(t: Seq<char>) -> Option<(i32, i32)> {
    if t.len() > 0 && t[0] == '!' {
        match split_once(t.drop_first(), ',') {
            None => None,
            Some((a, b)) => match (parse_i32_spec(trim(a)), parse_i32_spec(trim(b))) {
                (Some(x), Some(y)) => Some((x, y)),
                _ => None,
            },
        }
    } else if t.len() < 3 || t[2] != '-' {
        None
    } else {
        match split_once(t.skip(3), '-') {
            None => None,
            Some((a, b)) => match (
                parse_u32_spec(a),
                parse_u32_spec(b),
                letter_block(t[0]),
                letter_block(t[1]),
            ) {
                (Some(rx), Some(ry), Some(bx), Some(by)) => if rx >= 10_000 || ry >= 10_000 {
                    None
                } else {
                    Some(((bx * 10_000 + rx) as i32, (by * 10_000 + ry) as i32))
                },
                _ => None,
            },
        }
    }
}

/// Decoding of a label, surrounding whitespace ignored.
pub open spec fn parse_id(s: Seq<char>) -> Option<(i32, i32)> {
    parse_trimmed_id(trim(s))
}

// ---------------------------------------------------------------------------
// Executable functions
// ---------------------------------------------------------------------------

/// Stable id for a star grid cell.
pub fn star_location_id(star_x: i32, star_y: i32) -> (id: u128)
    ensures
        id == location_id(star_x, star_y),
{
    let lo: u128 = (star_x as u32) as u128;
    let hi: u128 = (star_y as u32) as u128;
    let id: u128 = lo | (hi << 32u128);
    assert(id == lo + hi * 0x1_0000_0000) by (bit_vector)
        requires
            lo < 0x1_0000_0000,
            hi < 0x1_0000_0000,
            id == lo | (hi << 32u128),
    ;
    id
}

/// Splits a coordinate into its block and its offset inside the block.
fn split_block(v: i32) -> (r: (i32, i32))
    ensures
        r.0 as int == block_of(v as int),
        r.1 as int == offset_of(v as int),
{
    // Shift by a whole number of blocks so that the division is on a non-negative value.
    let shifted: i64 = v as i64 + 2_147_490_000i64;
    let q: i64 = shifted / 10_000;
    let rem: i64 = shifted % 10_000;
    proof {
        vstd::arithmetic::div_mod::lemma_fundamental_div_mod(v as int, 10_000);
        vstd::arithmetic::div_mod::lemma_fundamental_div_mod_converse(
            shifted as int,
            10_000,
            block_of(v as int) + 214_749,
            offset_of(v as int),
        );
    }
    ((q - 214_749) as i32, rem as i32)
}

/// Letter for a block in -26..=25.
fn block_char(b: i32) -> (r: Option<char>)
    ensures
        r == block_letter(b as int),
{
    if 0 <= b && b <= 25 {
        let code: u8 = (b + 65) as u8;
        Some(code as char)
    } else if -26 <= b && b <= -1 {
        let code: u8 = (-b - 1 + 97) as u8;
        Some(code as char)
    } else {
        None
    }
}

/// Block for a label letter.
fn block_index_from_letter(c: char) -> (r: Option<i32>)
    ensures
        match letter_block(c) {
            Some(b) => r == Some(b as i32),
            None => r is None,
        },
{
    let u = c as u32;
    if 65 <= u && u <= 90 {
        Some((u - 65) as i32)
    } else if 97 <= u && u <= 122 {
        Some(-((u - 97 + 1) as i32))
    } else {
        None
    }
}

/// The display label of cell `(star_x, star_y)`.
pub fn star_display_id(star_x: i32, star_y: i32) -> (s: String)
    ensures
        s@ == display_id(star_x, star_y),
{
    let (bx, rx) = split_block(star_x);
    let (by, ry) = split_block(star_y);
    let mut out = String::new();
    match (block_char(bx), block_char(by)) {
        (Some(cx), Some(cy)) => {
            push_char(&mut out, cx);
            push_char(&mut out, cy);
            push_char(&mut out, '-');
            push_decimal(&mut out, rx as u32);
            push_char(&mut out, '-');
            push_decimal(&mut out, ry as u32);
        },
        _ => {
            push_char(&mut out, '!');
            push_signed_decimal(&mut out, star_x);
            push_char(&mut out, ',');
            push_signed_decimal(&mut out, star_y);
        },
    }
    assert(out@ =~= display_id(star_x, star_y));
    out
}

/// Decodes a label made by [`star_display_id`]; whitespace around it is ignored.
pub fn parse_star_id(s: &str) -> (r: Option<(i32, i32)>)
    ensures
        r == parse_id(s@),
{
    let v = chars_of(s);
    let (lo, hi) = trim_range(&v, 0, v.len());
    assert(v@.subrange(0, v@.len() as int) =~= s@);
    let t = Ghost(v@.subrange(lo as int, hi as int));
    assert(t@ == trim(s@));
    if lo < hi && v[lo] == '!' {
        assert(t@.drop_first() =~= v@.subrange(lo + 1, hi as int));
        let comma = find_char(&v, lo + 1, hi, ',');
        match comma {
            None => None,
            Some(j) => {
                assert(t@.drop_first().take(j - lo - 1) =~= v@.subrange(lo + 1, j as int));
                assert(t@.drop_first().skip(j - lo - 1 + 1) =~= v@.subrange(j + 1, hi as int));
                let (alo, ahi) = trim_range(&v, lo + 1, j);
                let (blo, bhi) = trim_range(&v, j + 1, hi);
                let x = parse_i32_range(&v, alo, ahi);
                let y = parse_i32_range(&v, blo, bhi);
                assert(split_once(t@.drop_first(), ',') == Some((v@.subrange(lo + 1, j as int), v@.subrange(j + 1, hi as int))));
                match (x, y) {
                    (Some(x), Some(y)) => Some((x, y)),
                    _ => None,
                }
            },
        }
    } else if hi - lo < 3 || v[lo + 2] != '-' {
        None
    } else {
        assert(t@.skip(3) =~= v@.subrange(lo + 3, hi as int));
        let dash = find_char(&v, lo + 3, hi, '-');
        match dash {
            None => None,
            Some(j) => {
                assert(t@.skip(3).take(j - lo - 3) =~= v@.subrange(lo + 3, j as int));
                assert(t@.skip(3).skip(j - lo - 3 + 1) =~= v@.subrange(j + 1, hi as int));
                let rx = parse_u32_range(&v, lo + 3, j);
                let ry = parse_u32_range(&v, j + 1, hi);
                let bx = block_index_from_letter(v[lo]);
                let by = block_index_from_letter(v[lo + 1]);
                assert(split_once(t@.skip(3), '-') == Some((v@.subrange(lo + 3, j as int), v@.subrange(j + 1, hi as int))));
                assert(t@[0] == v@[lo as int]);
                assert(t@[1] == v@[lo + 1]);
                match (rx, ry, bx, by) {
                    (Some(rx), Some(ry), Some(bx), Some(by)) => {
                        if rx >= 10_000 || ry >= 10_000 {
                            None
                        } else {
                            Some((bx * 10_000 + rx as i32, by * 10_000 + ry as i32))
                        }
                    },
                    _ => None,
                }
            },
        }
    }
}

// ---------------------------------------------------------------------------
// Laws
// ---------------------------------------------------------------------------

/// Every label decodes back to the cell it was made for.
pub proof fn lemma_display_id_round_trip(x: i32, y: i32)
    ensures
        parse_id(display_id(x, y)) == Some((x, y)),
{
    let s = display_id(x, y);
    match (block_letter(block_of(x as int)), block_letter(block_of(y as int))) {
        (Some(cx), Some(cy)) => {
            let rx = offset_of(x as int) as nat;
            let ry = offset_of(y as int) as nat;
            let dx = decimal_digits(rx);
            let dy = decimal_digits(ry);
            lemma_decimal_digits_shape(rx);
            lemma_decimal_digits_shape(ry);
            assert(is_ascii_digit(dy[dy.len() - 1]));
            assert(s.last() == dy.last());
            lemma_trim_fixed(s);
            assert(s[2] == '-');
            assert(s.skip(3) =~= dx + seq!['-'] + dy);
            lemma_decimal_digits_no_char(rx, '-');
            lemma_first_index_after_prefix(dx, '-', dy);
            lemma_parse_u32_of_decimal(rx as u32);
            lemma_parse_u32_of_decimal(ry as u32);
        },
        _ => {
            let sx = signed_decimal(x as int);
            let sy = signed_decimal(y as int);
            if x < 0 {
                lemma_decimal_digits_shape((-x) as nat);
            } else {
                lemma_decimal_digits_shape(x as nat);
            }
            if y < 0 {
                lemma_decimal_digits_shape((-y) as nat);
                assert(sy.last() == decimal_digits((-y) as nat).last());
            } else {
                lemma_decimal_digits_shape(y as nat);
            }
            assert(is_ascii_digit(sy.last()));
            assert(s.last() == sy.last());
            lemma_trim_fixed(s);
            assert(s.drop_first() =~= sx + seq![','] + sy);
            assert forall|i: int| 0 <= i < sx.len() implies sx[i] != ',' by {
                if x < 0 {
                    lemma_decimal_digits_no_char((-x) as nat, ',');
                    if i > 0 {
                        assert(sx[i] == decimal_digits((-x) as nat)[i - 1]);
                    }
                } else {
                    lemma_decimal_digits_no_char(x as nat, ',');
                }
            }
            lemma_first_index_after_prefix(sx, ',', sy);
            lemma_signed_decimal_trim(x);
            lemma_signed_decimal_trim(y);
            lemma_parse_i32_of_signed_decimal(x);
            lemma_parse_i32_of_signed_decimal(y);
        },
    }
}

proof fn lemma_signed_decimal_trim(v: i32)
    ensures
        trim(signed_decimal(v as int)) == signed_decimal(v as int),
{
    let s = signed_decimal(v as int);
    if v < 0 {
        let d = decimal_digits((-v) as nat);
        lemma_decimal_digits_shape((-v) as nat);
        assert(is_ascii_digit(d[d.len() - 1]));
        assert(s.last() == d.last());
    } else {
        let d = decimal_digits(v as nat);
        lemma_decimal_digits_shape(v as nat);
        assert(is_ascii_digit(d[0]));
        assert(is_ascii_digit(d[d.len() - 1]));
    }
    lemma_trim_fixed(s);
}

/// Whitespace around a label does not change what it decodes to.
pub proof fn lemma_parse_id_ignores_padding(w1: Seq<char>, s: Seq<char>, w2: Seq<char>)
    requires
        forall|i: int| 0 <= i < w1.len() ==> #[trigger] is_white_space(w1[i]),
        forall|i: int| 0 <= i < w2.len() ==> #[trigger] is_white_space(w2[i]),
    ensures
        parse_id(w1 + s + w2) == parse_id(s),
{
    lemma_trim_ignores_padding(w1, s, w2);
}

/// Distinct cells have distinct location ids.
pub proof fn lemma_location_id_injective(x1: i32, y1: i32, x2: i32, y2: i32)
    requires
        location_id(x1, y1) == location_id(x2, y2),
    ensures
        x1 == x2,
        y1 == y2,
{
    let a1 = (x1 as u32) as int;
    let b1 = (y1 as u32) as int;
    let a2 = (x2 as u32) as int;
    let b2 = (y2 as u32) as int;
    assert(a1 + b1 * 0x1_0000_0000 == a2 + b2 * 0x1_0000_0000);
    assert(b1 == b2 && a1 == a2) by (nonlinear_arith)
        requires
            0 <= a1 < 0x1_0000_0000,
            0 <= a2 < 0x1_0000_0000,
            0 <= b1 < 0x1_0000_0000,
            0 <= b2 < 0x1_0000_0000,
            a1 + b1 * 0x1_0000_0000 == a2 + b2 * 0x1_0000_0000,
    ;
    assert((x1 as u32) == (x2 as u32));
    assert((y1 as u32) == (y2 as u32));
    assert(x1 == x2) by (bit_vector)
        requires
            (x1 as u32) == (x2 as u32),
    ;
    assert(y1 == y2) by (bit_vector)
        requires
            (y1 as u32) == (y2 as u32),
    ;
}

/// The block letters run in alphabetical order: `A` names block 0, `Z` block 25, and a
/// higher block has a later capital; `a` names block -1, `z` block -26, and a lower
/// block has a later small letter. No other block has a letter.
pub proof fn lemma_block_letters_in_order(b1: int, b2: int)
    ensures
        block_letter(0) == Some('A'),
        block_letter(25) == Some('Z'),
        block_letter(-1) == Some('a'),
        block_letter(-26) == Some('z'),
        0 <= b1 < b2 <= 25 ==> (block_letter(b1)->0 as u32) < (block_letter(b2)->0 as u32),
        -26 <= b2 < b1 <= -1 ==> (block_letter(b1)->0 as u32) < (block_letter(b2)->0 as u32),
        0 <= b1 <= 25 ==> (block_letter(b1) matches Some(c) && 'A' <= c <= 'Z'),
        -26 <= b1 <= -1 ==> (block_letter(b1) matches Some(c) && 'a' <= c <= 'z'),
        (b1 < -26 || b1 > 25) ==> block_letter(b1) is None,
{
}

/// Reading letters goes the same way: `A`..`Z` give blocks 0..25 in order, `a`..`z`
/// give -1..-26 in order, each letter reads back as the block it names, and no other
/// character names a block.
pub proof fn lemma_letter_blocks_in_order(c1: char, c2: char, b: int)
    ensures
        letter_block('A') == Some(0int),
        letter_block('Z') == Some(25int),
        letter_block('a') == Some(-1int),
        letter_block('z') == Some(-26int),
        'A' <= c1 < c2 <= 'Z' ==> letter_block(c1)->0 < letter_block(c2)->0,
        'a' <= c1 < c2 <= 'z' ==> letter_block(c2)->0 < letter_block(c1)->0,
        !('A' <= c1 <= 'Z' || 'a' <= c1 <= 'z') ==> letter_block(c1) is None,
        -26 <= b <= 25 ==> letter_block(block_letter(b)->0) == Some(b),
{
}

} // verus!
