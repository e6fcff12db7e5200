//! Verified parsers for the numeric fields of both record formats: unsigned
//! decimal integers, hexadecimal bitmasks, and signed decimal fractions read
//! into fixed-point millionths.

use vstd::prelude::*;
use crate::strutil::{first_occ, contains_char, split_once_char, slice_range_vec, lemma_first_occ};

verus! {

/// Why a numeric field failed to parse.
#[derive(Clone, Copy, PartialEq, Eq, Structural, Debug)]
pub enum NumErr {
    /// The text does not match the number grammar.
    Malformed,
    /// The text is a well-formed number too large for the target range.
    TooLarge,
}

pub open spec fn is_digit(c: char) -> bool {
    '0' <= c <= '9'
}

pub open spec fn digit_val(c: char) -> int {
    c as int - '0' as int
}

pub open spec fn all_digits(s: Seq<char>) -> bool {
    forall|i: int| 0 <= i < s.len() ==> is_digit(#[trigger] s[i])
}

/// Value of a digit string read in base ten.
pub open spec fn digits_val(s: Seq<char>) -> int
    decreases s.len(),
{
    if s.len() == 0 {
        0
    } else {
        digits_val(s.drop_last()) * 10 + digit_val(s.last())
    }
}

pub open spec fn is_hex_digit(c: char) -> bool {
    is_digit(c) || ('a' <= c <= 'f') || ('A' <= c <= 'F')
}

pub open spec fn hex_digit_val(c: char) -> int {
    if is_digit(c) {
        digit_val(c)
    } else if 'a' <= c <= 'f' {
        c as int - 'a' as int + 10
    } else {
        c as int - 'A' as int + 10
    }
}

pub open spec fn all_hex_digits(s: Seq<char>) -> bool {
    forall|i: int| 0 <= i < s.len() ==> is_hex_digit(#[trigger] s[i])
}

/// Value of a digit string read in base sixteen.
pub open spec fn hex_val(s: Seq<char>) -> int
    decreases s.len(),
{
    if s.len() == 0 {
        0
    } else {
        hex_val(s.drop_last()) * 16 + hex_digit_val(s.last())
    }
}

pub proof fn lemma_digits_val_nonneg(s: Seq<char>)
    requires
        all_digits(s),
    ensures
        digits_val(s) >= 0,
    decreases s.len(),
{
    if s.len() > 0 {
        lemma_digits_val_nonneg(s.drop_last());
    }
}

pub proof fn lemma_hex_val_nonneg(s: Seq<char>)
    requires
        all_hex_digits(s),
    ensures
        hex_val(s) >= 0,
    decreases s.len(),
{
    if s.len() > 0 {
        lemma_hex_val_nonneg(s.drop_last());
    }
}

/// A longer digit string never has a smaller value: every prefix's value is
/// at most the whole string's value.
pub proof fn lemma_digits_prefix_mono(s: Seq<char>, i: int)
    requires
        all_digits(s),
        0 <= i <= s.len(),
    ensures
        digits_val(s.take(i)) <= digits_val(s),
    decreases s.len() - i,
{
    if i < s.len() {
        lemma_digits_prefix_mono(s, i + 1);
        let p = s.take(i + 1);
        assert(p.drop_last() =~= s.take(i));
        assert(is_digit(p.last()));
        lemma_digits_val_nonneg(s.take(i));
        assert(digits_val(p) == digits_val(s.take(i)) * 10 + digit_val(p.last()));
    } else {
        assert(s.take(i) =~= s);
    }
}

pub proof fn lemma_hex_prefix_mono(s: Seq<char>, i: int)
    requires
        all_hex_digits(s),
        0 <= i <= s.len(),
    ensures
        hex_val(s.take(i)) <= hex_val(s),
    decreases s.len() - i,
{
    if i < s.len() {
        lemma_hex_prefix_mono(s, i + 1);
        let p = s.take(i + 1);
        assert(p.drop_last() =~= s.take(i));
        assert(is_hex_digit(p.last()));
        lemma_hex_val_nonneg(s.take(i));
        assert(hex_val(p) == hex_val(s.take(i)) * 16 + hex_digit_val(p.last()));
    } else {
        assert(s.take(i) =~= s);
    }
}

/// Powers of ten.
pub open spec fn pow10(n: nat) -> int
    decreases n,
{
    if n == 0 {
        1
    } else {
        10 * pow10((n - 1) as nat)
    }
}

/// A digit string of `n` digits has value below the `n`-th power of ten.
pub proof fn lemma_digits_val_upper(s: Seq<char>)
    requires
        all_digits(s),
    ensures
        digits_val(s) < pow10(s.len()),
    decreases s.len(),
{
    if s.len() > 0 {
        lemma_digits_val_upper(s.drop_last());
        assert(digits_val(s.drop_last()) * 10 <= (pow10((s.len() - 1) as nat) - 1) * 10)
            by (nonlinear_arith)
            requires digits_val(s.drop_last()) <= pow10((s.len() - 1) as nat) - 1;
    }
}

/// Base-ten accumulation over an all-digit string, failing exactly when the
/// value exceeds `lim`.
fn parse_digits_bounded(v: &[char], lim: u64) -> (r: Result<u64, NumErr>)
    requires
        all_digits(v@),
        lim >= 9,
    ensures
        match r {
            Ok(x) => digits_val(v@) <= lim && x == digits_val(v@),
            Err(e) => digits_val(v@) > lim && e == NumErr::TooLarge,
        },
{
    let n = v.len();
    let mut acc: u64 = 0;
    let mut i: usize = 0;
    proof {
        assert(v@.take(0) =~= Seq::<char>::empty());
    }
    while i < n
        invariant
            i <= n,
            n == v@.len(),
            all_digits(v@),
            acc == digits_val(v@.take(i as int)),
            acc <= lim,
        decreases n - i,
    {
        let c = v[i];
        let d: u64 = (c as u32 as u64) - ('0' as u32 as u64);
        proof {
            assert(v@.take(i as int + 1).drop_last() =~= v@.take(i as int));
        }
        if acc > (lim - d) / 10 {
            proof {
                assert(acc * 10 + d > lim) by (nonlinear_arith)
                    requires
                        acc > (lim - d as u64) / 10,
                        d <= lim,
                ;
                lemma_digits_prefix_mono(v@, i as int + 1);
            }
            return Err(NumErr::TooLarge);
        }
        proof {
            assert(acc * 10 + d <= lim) by (nonlinear_arith)
                requires
                    acc <= (lim - d as u64) / 10,
                    d <= lim,
            ;
        }
        acc = acc * 10 + d;
        i = i + 1;
    }
    proof {
        assert(v@.take(n as int) =~= v@);
    }
    Ok(acc)
}

/// Executable test that every character of `v` is a decimal digit.
fn check_all_digits(v: &[char]) -> (r: bool)
    ensures
        r == all_digits(v@),
{
    let mut i: usize = 0;
    while i < v.len()
        invariant
            i <= v@.len(),
            forall|k: int| 0 <= k < i ==> is_digit(#[trigger] v@[k]),
        decreases v@.len() - i,
    {
        let c = v[i];
        if c < '0' || c > '9' {
            return false;
        }
        i = i + 1;
    }
    true
}

/// An unsigned decimal integer: one or more digits whose value fits `u64`.
pub open spec fn u64_grammar(s: Seq<char>) -> bool {
    s.len() > 0 && all_digits(s)
}

/// Parse an unsigned decimal integer. `Malformed` exactly when the text is
/// empty or holds a non-digit; `TooLarge` exactly when the value exceeds
/// `u64::MAX`.
pub fn parse_u64(v: &[char]) -> (r: Result<u64, NumErr>)
    ensures
        match r {
            Ok(x) => u64_grammar(v@) && digits_val(v@) <= u64::MAX && x == digits_val(v@),
            Err(NumErr::Malformed) => !u64_grammar(v@),
            Err(NumErr::TooLarge) => u64_grammar(v@) && digits_val(v@) > u64::MAX,
        },
{
    if v.len() == 0 || !check_all_digits(v) {
        return Err(NumErr::Malformed);
    }
    parse_digits_bounded(v, u64::MAX)
}

/// Base-sixteen accumulation, bounded by `u32::MAX`.
fn parse_hex_bounded(v: &[char]) -> (r: Result<u32, NumErr>)
    requires
        all_hex_digits(v@),
    ensures
        match r {
            Ok(x) => hex_val(v@) <= u32::MAX && x == hex_val(v@),
            Err(e) => hex_val(v@) > u32::MAX && e == NumErr::TooLarge,
        },
{
    let n = v.len();
    let mut acc: u32 = 0;
    let mut i: usize = 0;
    proof {
        assert(v@.take(0) =~= Seq::<char>::empty());
    }
    while i < n
        invariant
            i <= n,
            n == v@.len(),
            all_hex_digits(v@),
            acc == hex_val(v@.take(i as int)),
        decreases n - i,
    {
        let c = v[i];
        let d: u32 = if c >= '0' && c <= '9' {
            (c as u32) - ('0' as u32)
        } else if c >= 'a' && c <= 'f' {
            (c as u32) - ('a' as u32) + 10
        } else {
            (c as u32) - ('A' as u32) + 10
        };
        proof {
            assert(v@.take(i as int + 1).drop_last() =~= v@.take(i as int));
        }
        if acc > (u32::MAX - d) / 16 {
            proof {
                assert(acc * 16 + d > u32::MAX) by (nonlinear_arith)
                    requires
                        acc > (u32::MAX - d) / 16,
                        d <= u32::MAX,
                ;
                lemma_hex_prefix_mono(v@, i as int + 1);
            }
            return Err(NumErr::TooLarge);
        }
        proof {
            assert(acc * 16 + d <= u32::MAX) by (nonlinear_arith)
                requires
                    acc <= (u32::MAX - d) / 16,
                    d <= u32::MAX,
            ;
        }
        acc = acc * 16 + d;
        i = i + 1;
    }
    proof {
        assert(v@.take(n as int) =~= v@);
    }
    Ok(acc)
}

/// Executable test that every character of `v` is a hexadecimal digit.
fn check_all_hex(v: &[char]) -> (r: bool)
    ensures
        r == all_hex_digits(v@),
{
    let mut i: usize = 0;
    while i < v.len()
        invariant
            i <= v@.len(),
            forall|k: int| 0 <= k < i ==> is_hex_digit(#[trigger] v@[k]),
        decreases v@.len() - i,
    {
        let c = v[i];
        if !((c >= '0' && c <= '9') || (c >= 'a' && c <= 'f') || (c >= 'A' && c <= 'F')) {
            return false;
        }
        i = i + 1;
    }
    true
}

/// A hexadecimal bitmask: one or more hex digits whose value fits `u32`.
pub open spec fn hex_grammar(s: Seq<char>) -> bool {
    s.len() > 0 && all_hex_digits(s)
}

/// Parse a hexadecimal field. `Malformed` exactly when the text is empty or
/// holds a non-hex character; `TooLarge` exactly when the value exceeds
/// `u32::MAX`.
pub fn parse_hex_u32(v: &[char]) -> (r: Result<u32, NumErr>)
    ensures
        match r {
            Ok(x) => hex_grammar(v@) && hex_val(v@) <= u32::MAX && x == hex_val(v@),
            Err(NumErr::Malformed) => !hex_grammar(v@),
            Err(NumErr::TooLarge) => hex_grammar(v@) && hex_val(v@) > u32::MAX,
        },
{
    if v.len() == 0 || !check_all_hex(v) {
        return Err(NumErr::Malformed);
    }
    parse_hex_bounded(v)
}

/// Powers of ten agree with addition of exponents.
pub proof fn lemma_pow10_add(a: nat, b: nat)
    ensures
        pow10(a) * pow10(b) == pow10(a + b),
    decreases a,
{
    if a == 0 {
        assert(1 * pow10(b) == pow10(b)) by (nonlinear_arith);
    } else {
        lemma_pow10_add((a - 1) as nat, b);
        assert((10 * pow10((a - 1) as nat)) * pow10(b) == 10 * (pow10((a - 1) as nat) * pow10(
            b,
        ))) by (nonlinear_arith);
    }
}

/// The text after the optional leading sign.
pub open spec fn dec_body(s: Seq<char>) -> Seq<char> {
    if s.len() > 0 && (s[0] == '-' || s[0] == '+') {
        s.drop_first()
    } else {
        s
    }
}

/// The number carries a leading minus sign.
pub open spec fn dec_neg(s: Seq<char>) -> bool {
    s.len() > 0 && s[0] == '-'
}

/// The digits before the first decimal point (the whole body when there is
/// no point).
pub open spec fn dec_int_part(s: Seq<char>) -> Seq<char> {
    let b = dec_body(s);
    b.take(first_occ(b, '.'))
}

/// The digits after the first decimal point; empty when there is no point.
pub open spec fn dec_frac_part(s: Seq<char>) -> Seq<char> {
    let b = dec_body(s);
    if contains_char(b, '.') {
        b.skip(first_occ(b, '.') + 1)
    } else {
        Seq::empty()
    }
}

/// A signed decimal fraction: optional sign, digits around at most one
/// decimal point, at least one digit in all.
pub open spec fn dec_grammar(s: Seq<char>) -> bool {
    let ip = dec_int_part(s);
    let fp = dec_frac_part(s);
    all_digits(ip) && all_digits(fp) && ip.len() + fp.len() > 0
}

/// At most the first six fractional digits contribute; fewer are padded with
/// zeros. This is the millionths count of the fractional part.
pub open spec fn frac_micro(fp: Seq<char>) -> int {
    let f6 = if fp.len() <= 6 {
        fp
    } else {
        fp.take(6)
    };
    digits_val(f6) * pow10((6 - f6.len()) as nat)
}

/// Magnitude of the number in millionths, fractional digits beyond the sixth
/// truncated.
pub open spec fn dec_micro_mag(s: Seq<char>) -> int {
    digits_val(dec_int_part(s)) * 1_000_000 + frac_micro(dec_frac_part(s))
}

/// Signed value of the number in millionths.
pub open spec fn dec_micro_val(s: Seq<char>) -> int {
    if dec_neg(s) {
        -dec_micro_mag(s)
    } else {
        dec_micro_mag(s)
    }
}

/// Largest whole part a fixed-point field may carry.
pub const DEC_INT_LIM: u64 = 9_000_000_000_000;

/// The whole part is small enough that the millionths count fits `i64`.
pub open spec fn dec_in_range(s: Seq<char>) -> bool {
    digits_val(dec_int_part(s)) <= DEC_INT_LIM
}

/// Parse a signed decimal fraction into fixed-point millionths, truncating
/// fractional digits beyond the sixth. `Malformed` exactly when the text does
/// not match the grammar; `TooLarge` exactly when the whole part exceeds
/// `DEC_INT_LIM`.
pub fn parse_fixed(v: &[char]) -> (r: Result<i64, NumErr>)
    ensures
        match r {
            Ok(x) => dec_grammar(v@) && dec_in_range(v@) && x == dec_micro_val(v@)
                && -9_000_000_000_001_000_000 <= x <= 9_000_000_000_001_000_000,
            Err(NumErr::Malformed) => !dec_grammar(v@),
            Err(NumErr::TooLarge) => dec_grammar(v@) && !dec_in_range(v@),
        },
{
    let n = v.len();
    let neg = n > 0 && v[0] == '-';
    let signed = n > 0 && (v[0] == '-' || v[0] == '+');
    let body: Vec<char> = if signed {
        slice_range_vec(v, 1, n)
    } else {
        slice_range_vec(v, 0, n)
    };
    proof {
        if signed {
            assert(body@ =~= dec_body(v@));
        } else {
            assert(body@ =~= dec_body(v@));
        }
    }
    let (ip, fp): (Vec<char>, Vec<char>) = match split_once_char(body.as_slice(), '.') {
        Some(parts) => parts,
        None => {
            proof {
                lemma_first_occ(body@, '.');
                assert(body@.take(body@.len() as int) =~= body@);
            }
            (body, Vec::new())
        },
    };
    proof {
        assert(ip@ == dec_int_part(v@));
        assert(fp@ =~= dec_frac_part(v@));
    }
    if ip.len() == 0 && fp.len() == 0 {
        return Err(NumErr::Malformed);
    }
    if !check_all_digits(ip.as_slice()) || !check_all_digits(fp.as_slice()) {
        return Err(NumErr::Malformed);
    }
    let ipv: u64 = match parse_digits_bounded(ip.as_slice(), DEC_INT_LIM) {
        Ok(x) => x,
        Err(_) => {
            return Err(NumErr::TooLarge);
        },
    };
    let fk: usize = if fp.len() <= 6 {
        fp.len()
    } else {
        6
    };
    let f6 = slice_range_vec(fp.as_slice(), 0, fk);
    proof {
        if fp@.len() <= 6 {
            assert(f6@ =~= fp@);
        }
        lemma_digits_val_upper(f6@);
        assert(pow10(0) == 1);
        assert(pow10(1) == 10);
        assert(pow10(2) == 100);
        assert(pow10(3) == 1000);
        assert(pow10(4) == 10000);
        assert(pow10(5) == 100000);
        assert(pow10(6) == 1000000);
        lemma_digits_val_nonneg(f6@);
    }
    let f6v: u64 = match parse_digits_bounded(f6.as_slice(), u64::MAX) {
        Ok(x) => x,
        Err(_) => {
            proof {
                assert(false);
            }
            return Err(NumErr::TooLarge);
        },
    };
    let mult: u64 = if fk == 0 {
        1_000_000
    } else if fk == 1 {
        100_000
    } else if fk == 2 {
        10_000
    } else if fk == 3 {
        1_000
    } else if fk == 4 {
        100
    } else if fk == 5 {
        10
    } else {
        1
    };
    proof {
        assert(mult == pow10((6 - fk) as nat));
        assert(f6v * mult + 1 * mult <= pow10(fk as nat) * pow10((6 - fk) as nat))
            by (nonlinear_arith)
            requires
                f6v < pow10(fk as nat),
                mult == pow10((6 - fk) as nat),
                mult >= 1,
        ;
        lemma_pow10_add(fk as nat, (6 - fk) as nat);
    }
    let fracv: u64 = f6v * mult;
    let mag: u64 = ipv * 1_000_000 + fracv;
    proof {
        assert(mag == dec_micro_mag(v@));
        assert(mag <= 9_000_000_000_000_999_999u64);
    }
    if neg {
        Ok(-(mag as i64))
    } else {
        Ok(mag as i64)
    }
}

} // verus!
