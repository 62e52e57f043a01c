//! Fixed-width ASCII-hex fields, the building block of every payload.
use vstd::prelude::*;

verus! {

/// `16^n`.
pub open spec fn pow16(n: nat) -> nat
    decreases n,
{
    if n == 0 {
        1
    } else {
        16 * pow16((n - 1) as nat)
    }
}

/// A character `0-9`, `A-F` or `a-f`.
pub open spec fn is_hex_digit(c: u8) -> bool {
    (48 <= c <= 57) || (65 <= c <= 70) || (97 <= c <= 102)
}

/// The value of a hex digit; any other character counts as zero.
pub open spec fn hex_digit_value(c: u8) -> nat {
    if 48 <= c <= 57 {
        (c - 48) as nat
    } else if 65 <= c <= 70 {
        (c - 55) as nat
    } else if 97 <= c <= 102 {
        (c - 87) as nat
    } else {
        0
    }
}

/// The big-endian value of a string of hex digits (non-digits count as zero).
pub open spec fn hex_value(s: Seq<u8>) -> nat
    decreases s.len(),
{
    if s.len() == 0 {
        0
    } else {
        hex_value(s.drop_last()) * 16 + hex_digit_value(s.last())
    }
}

pub open spec fn all_hex(s: Seq<u8>) -> bool {
    forall|i: int| 0 <= i < s.len() ==> is_hex_digit(#[trigger] s[i])
}

/// A numeric field: one or more hex digits of either case, nothing else.
pub open spec fn parse_hex(s: Seq<u8>) -> Option<nat> {
    if s.len() > 0 && all_hex(s) {
        Some(hex_value(s))
    } else {
        None
    }
}

/// What reading in radix 16 accepts: an optional `+` followed by one or
/// more hex digits of either case.
pub open spec fn radix16_value(s: Seq<u8>) -> Option<nat> {
    if s.len() > 0 && all_hex(s) {
        Some(hex_value(s))
    } else if s.len() > 1 && s[0] == 43 && all_hex(s.drop_first()) {
        Some(hex_value(s.drop_first()))
    } else {
        None
    }
}

/// The numeric field of `n` characters that starts at `off`, if it is there
/// and well formed.
pub open spec fn field_at(s: Seq<u8>, off: int, n: int) -> Option<nat> {
    if 0 <= off && 0 <= n && off + n <= s.len() {
        parse_hex(s.subrange(off, off + n))
    } else {
        None
    }
}

/// The upper-case hex digit of `d < 16`.
pub open spec fn upper_digit(d: nat) -> u8 {
    if d < 10 {
        (48 + d) as u8
    } else {
        (55 + d) as u8
    }
}

/// `v` rendered as exactly `width` upper-case hex digits, most significant
/// first (higher digits beyond `width` are cut off).
pub open spec fn hex_upper(v: nat, width: nat) -> Seq<u8>
    decreases width,
{
    if width == 0 {
        seq![]
    } else {
        hex_upper(v / 16, (width - 1) as nat).push(upper_digit(v % 16))
    }
}

pub proof fn lemma_hex_value_bound(s: Seq<u8>)
    ensures
        hex_value(s) < pow16(s.len()),
    decreases s.len(),
{
    if s.len() > 0 {
        lemma_hex_value_bound(s.drop_last());
        let a = hex_value(s.drop_last());
        let d = hex_digit_value(s.last());
        let p = pow16((s.len() - 1) as nat);
        assert(a * 16 + d < 16 * p) by (nonlinear_arith)
            requires
                a < p,
                d < 16,
        ;
    }
}

pub proof fn lemma_pow16_values()
    ensures
        pow16(2) == 0x100,
        pow16(4) == 0x1_0000,
        pow16(8) == 0x1_0000_0000,
{
    assert(pow16(0) == 1);
    assert(pow16(1) == 16);
    assert(pow16(2) == 0x100);
    assert(pow16(3) == 0x1000);
    assert(pow16(4) == 0x1_0000);
    assert(pow16(5) == 0x10_0000);
    assert(pow16(6) == 0x100_0000);
    assert(pow16(7) == 0x1000_0000);
    assert(pow16(8) == 0x1_0000_0000);
}

pub proof fn lemma_pow16_positive(n: nat)
    ensures
        pow16(n) >= 1,
    decreases n,
{
    if n > 0 {
        lemma_pow16_positive((n - 1) as nat);
    }
}

/// Rendering and reading back a field gives the value modulo the field's range.
pub proof fn lemma_hex_upper_value(v: nat, width: nat)
    ensures
        hex_upper(v, width).len() == width,
        all_hex(hex_upper(v, width)),
        hex_value(hex_upper(v, width)) == v % pow16(width),
    decreases width,
{
    if width > 0 {
        let w1 = (width - 1) as nat;
        lemma_hex_upper_value(v / 16, w1);
        let s = hex_upper(v, width);
        assert(s.drop_last() =~= hex_upper(v / 16, w1));
        let p = pow16(w1);
        lemma_pow16_positive(w1);
        assert(((v / 16) % p) * 16 + v % 16 == v % (16 * p)) by (nonlinear_arith)
            requires
                p >= 1,
        {
            vstd::arithmetic::div_mod::lemma_breakdown(v as int, 16, p as int);
        }
        assert forall|i: int| 0 <= i < s.len() implies is_hex_digit(#[trigger] s[i]) by {
            if i < s.len() - 1 {
                assert(s[i] == hex_upper(v / 16, w1)[i]);
            }
        }
    }
}

/// Only the characters `0-9` and `A-F`.
pub open spec fn upper_hex_only(s: Seq<u8>) -> bool {
    forall|i: int| 0 <= i < s.len() ==> (48 <= #[trigger] s[i] <= 57 || 65 <= s[i] <= 70)
}

pub proof fn lemma_upper_hex_concat(a: Seq<u8>, b: Seq<u8>)
    requires
        upper_hex_only(a),
        upper_hex_only(b),
    ensures
        upper_hex_only(a + b),
{
    assert forall|i: int| 0 <= i < (a + b).len() implies (48 <= #[trigger] (a + b)[i] <= 57 || 65 <= (a
        + b)[i] <= 70) by {
        if i >= a.len() {
            assert((a + b)[i] == b[i - a.len()]);
        }
    }
}

/// Rendered digits are `0-9` and `A-F` only.
pub proof fn lemma_hex_upper_is_upper(v: nat, width: nat)
    ensures
        forall|i: int|
            0 <= i < hex_upper(v, width).len() ==> (48 <= #[trigger] hex_upper(v, width)[i] <= 57 || 65
                <= hex_upper(v, width)[i] <= 70),
    decreases width,
{
    if width > 0 {
        lemma_hex_upper_is_upper(v / 16, (width - 1) as nat);
        let s = hex_upper(v, width);
        assert forall|i: int| 0 <= i < s.len() implies (48 <= #[trigger] s[i] <= 57 || 65 <= s[i] <= 70) by {
            if i < s.len() - 1 {
                assert(s[i] == hex_upper(v / 16, (width - 1) as nat)[i]);
            }
        }
    }
}

/// A field rendered in upper-case hex parses back to the value it holds.
pub proof fn lemma_parse_hex_upper(v: nat, width: nat)
    requires
        width > 0,
        v < pow16(width),
    ensures
        parse_hex(hex_upper(v, width)) == Some(v),
{
    lemma_hex_upper_value(v, width);
    vstd::arithmetic::div_mod::lemma_small_mod(v, pow16(width));
}

/// The upper-case hex digit of `d < 16`.
pub fn upper_hex_digit(d: u8) -> (r: u8)
    requires
        d < 16,
    ensures
        r == upper_digit(d as nat),
{
    if d < 10 {
        48 + d
    } else {
        55 + d
    }
}

/// Appends `v` as `width` upper-case hex digits.
pub fn push_hex(out: &mut Vec<u8>, v: u64, width: usize)
    ensures
        final(out)@ == old(out)@ + hex_upper(v as nat, width as nat),
    decreases width,
{
    if width > 0 {
        push_hex(out, v / 16, width - 1);
        out.push(upper_hex_digit((v % 16) as u8));
        proof {
            assert(final(out)@ =~= old(out)@ + hex_upper(v as nat, width as nat));
        }
    } else {
        proof {
            assert(final(out)@ =~= old(out)@ + hex_upper(v as nat, width as nat));
        }
    }
}

/// Relies on `num::Num::from_str_radix` for `u64` (std's `u64::from_str_radix`)
/// in radix 16: it accepts an optional `+` followed by one or more digits
/// `0-9`, `a-f`, `A-F` and nothing else; a field of at most 16 characters
/// cannot overflow. Bytes that are not UTF-8 are never digits.
#[verifier::external_body]
fn from_str_radix_16(field: &[u8]) -> (r: Option<u64>)
    requires
        field@.len() <= 16,
    ensures
        r is None <==> radix16_value(field@) is None,
        r matches Some(v) ==> radix16_value(field@) == Some(v as nat),
{
    match std::str::from_utf8(field) {
        Ok(s) => <u64 as num::Num>::from_str_radix(s, 16).ok(),
        Err(_) => None,
    }
}

/// Reads a numeric field of at most 16 characters; a sign is no digit.
pub fn parse_hex_field(field: &[u8]) -> (r: Option<u64>)
    requires
        field@.len() <= 16,
    ensures
        r is None <==> parse_hex(field@) is None,
        r matches Some(v) ==> parse_hex(field@) == Some(v as nat),
        r matches Some(v) ==> (v as nat) < pow16(field@.len()),
{
    if field.len() > 0 && field[0] == 43 {
        assert(!is_hex_digit(field@[0]));
        return None;
    }
    let r = from_str_radix_16(field);
    proof {
        if r is Some {
            lemma_hex_value_bound(field@);
        }
    }
    r
}

/// Any non-empty stretch of upper-case hex digits reads as a number.
pub proof fn lemma_upper_hex_parses(s: Seq<u8>, a: int, b: int)
    requires
        upper_hex_only(s),
        0 <= a < b <= s.len(),
    ensures
        parse_hex(s.subrange(a, b)) is Some,
{
    let t = s.subrange(a, b);
    assert forall|i: int| 0 <= i < t.len() implies is_hex_digit(#[trigger] t[i]) by {
        assert(t[i] == s[a + i]);
    }
}

/// Bytes below 0x80 are valid UTF-8.
pub proof fn lemma_ascii_valid_utf8(s: Seq<u8>)
    requires
        forall|i: int| 0 <= i < s.len() ==> #[trigger] s[i] < 0x80,
    ensures
        vstd::utf8::valid_utf8(s),
    decreases s.len(),
{
    if s.len() > 0 {
        let b = s[0];
        assert(b & 0x7f <= 0x7f) by (bit_vector);
        let rest = s.subrange(1, s.len() as int);
        assert forall|i: int| 0 <= i < rest.len() implies #[trigger] rest[i] < 0x80 by {
            assert(rest[i] == s[i + 1]);
        }
        lemma_ascii_valid_utf8(rest);
        assert(vstd::utf8::pop_first_scalar(s) == rest);
    }
}

/// A rendered field splits into its high and its low digits.
pub proof fn lemma_hex_upper_split(v: nat, a: nat, b: nat)
    ensures
        hex_upper(v, a + b) == hex_upper(v / pow16(b), a) + hex_upper(v % pow16(b), b),
    decreases b,
{
    if b == 0 {
        assert(pow16(0) == 1);
        assert(v / 1 == v);
        assert(hex_upper(v % 1, 0) =~= Seq::<u8>::empty());
        assert(hex_upper(v, a + b) =~= hex_upper(v / pow16(b), a) + hex_upper(v % pow16(b), b));
    } else {
        let b1 = (b - 1) as nat;
        lemma_hex_upper_split(v / 16, a, b1);
        lemma_pow16_positive(b1);
        let p = pow16(b1);
        assert(pow16(b) == 16 * p);
        assert((v / 16) / p == v / (16 * p)) by {
            vstd::arithmetic::div_mod::lemma_div_denominator(v as int, 16, p as int);
        }
        assert((v % (16 * p)) / 16 == (v / 16) % p) by {
            vstd::arithmetic::div_mod::lemma_breakdown(v as int, 16, p as int);
            vstd::arithmetic::div_mod::lemma_div_multiples_vanish_fancy(
                ((v / 16) % p) as int,
                (v % 16) as int,
                16,
            );
        }
        assert((v % (16 * p)) % 16 == v % 16) by {
            vstd::arithmetic::div_mod::lemma_mod_mod(v as int, 16, p as int);
        }
        assert(a + b - 1 == a + b1);
        assert(hex_upper(v, a + b) =~= hex_upper(v / pow16(b), a) + hex_upper(v % pow16(b), b));
    }
}

/// Upper-case digits are the rendering of their own value.
pub proof fn lemma_upper_hex_canonical(s: Seq<u8>)
    requires
        upper_hex_only(s),
    ensures
        hex_upper(hex_value(s), s.len()) == s,
    decreases s.len(),
{
    if s.len() > 0 {
        let t = s.drop_last();
        assert forall|i: int| 0 <= i < t.len() implies (48 <= #[trigger] t[i] <= 57 || 65 <= t[i] <= 70) by {
            assert(t[i] == s[i]);
        }
        lemma_upper_hex_canonical(t);
        let c = s.last();
        assert(48 <= c <= 57 || 65 <= c <= 70) by {
            assert(c == s[s.len() - 1]);
        }
        let d = hex_digit_value(c);
        let v = hex_value(s);
        assert(v == hex_value(t) * 16 + d);
        assert(d < 16);
        vstd::arithmetic::div_mod::lemma_div_multiples_vanish_fancy(hex_value(t) as int, d as int, 16);
        vstd::arithmetic::div_mod::lemma_fundamental_div_mod_converse(v as int, 16, hex_value(t) as int, d as int);
        assert(v / 16 == hex_value(t));
        assert(v % 16 == d);
        assert(upper_digit(d) == c);
        assert(hex_upper(v, s.len()) =~= s);
    }
}

/// A stretch of upper-case digits is a field that renders back to itself.
pub proof fn lemma_upper_field(p: Seq<u8>, a: int, w: nat)
    requires
        upper_hex_only(p),
        0 <= a,
        w > 0,
        a + w <= p.len(),
    ensures
        field_at(p, a, w as int) == Some(hex_value(p.subrange(a, a + w))),
        hex_upper(hex_value(p.subrange(a, a + w)), w) == p.subrange(a, a + w),
        hex_value(p.subrange(a, a + w)) < pow16(w),
{
    let t = p.subrange(a, a + w);
    assert forall|i: int| 0 <= i < t.len() implies (48 <= #[trigger] t[i] <= 57 || 65 <= t[i] <= 70) by {
        assert(t[i] == p[a + i]);
    }
    lemma_upper_hex_parses(p, a, a + w);
    lemma_upper_hex_canonical(t);
    lemma_hex_value_bound(t);
}

} // verus!
