//! Byte-level text helpers: UTF-8 validity, ASCII case folding, decimal and hex digits.
use vstd::prelude::*;
use vstd::utf8::valid_utf8;

verus! {

/// `core::str::from_utf8(bytes).is_ok()`: whether the bytes are valid UTF-8.
#[verifier::external_body]
pub(crate) fn utf8_valid(bytes: &[u8]) -> (r: bool)
    ensures
        r == valid_utf8(bytes@),
{
    core::str::from_utf8(bytes).is_ok()
}

/// ASCII lower case of a byte; other bytes unchanged.
pub open spec fn ascii_lower(b: u8) -> u8 {
    if 65 <= b <= 90 { (b + 32) as u8 } else { b }
}

/// Equal ignoring ASCII case: same length, bytes equal after ASCII lower-casing.
pub open spec fn eq_ignore_case(a: Seq<u8>, b: Seq<u8>) -> bool {
    a.len() == b.len() && forall|i: int| 0 <= i < a.len() ==> ascii_lower(#[trigger] a[i]) == ascii_lower(b[i])
}

/// Compares two byte strings ignoring ASCII case (as `eq_ignore_ascii_case`).
pub fn eq_ignore_ascii_case(a: &[u8], b: &[u8]) -> (r: bool)
    ensures
        r == eq_ignore_case(a@, b@),
{
    if a.len() != b.len() {
        return false;
    }
    let mut i: usize = 0;
    while i < a.len()
        invariant
            a@.len() == b@.len(),
            i <= a@.len(),
            forall|j: int| 0 <= j < i ==> ascii_lower(#[trigger] a@[j]) == ascii_lower(b@[j]),
        decreases a@.len() - i,
    {
        let x = a[i];
        let y = b[i];
        let lx = if 65 <= x && x <= 90 { x + 32 } else { x };
        let ly = if 65 <= y && y <= 90 { y + 32 } else { y };
        if lx != ly {
            return false;
        }
        i = i + 1;
    }
    true
}

/// ASCII decimal digits of `n`, most significant first, no leading zeros ("0" for 0).
pub open spec fn decimal(n: nat) -> Seq<u8>
    decreases n,
{
    if n < 10 {
        seq![(48 + n) as u8]
    } else {
        decimal(n / 10).push((48 + n % 10) as u8)
    }
}

/// Appends the decimal digits of `n`.
pub fn push_decimal(out: &mut Vec<u8>, n: u64)
    ensures
        final(out)@ == old(out)@ + decimal(n as nat),
    decreases n,
{
    if n < 10 {
        out.push(48 + n as u8);
        proof {
            assert(final(out)@ =~= old(out)@ + decimal(n as nat));
        }
    } else {
        push_decimal(out, n / 10);
        out.push(48 + (n % 10) as u8);
        proof {
            assert(final(out)@ =~= old(out)@ + decimal(n as nat));
        }
    }
}

/// Appends the bytes of `lit`.
pub fn push_bytes(out: &mut Vec<u8>, lit: &[u8])
    ensures
        final(out)@ == old(out)@ + lit@,
{
    let mut i: usize = 0;
    while i < lit.len()
        invariant
            i <= lit@.len(),
            out@ == old(out)@ + lit@.take(i as int),
        decreases lit@.len() - i,
    {
        out.push(lit[i]);
        proof {
            assert(lit@.take(i as int + 1) =~= lit@.take(i as int).push(lit@[i as int]));
        }
        i = i + 1;
    }
    proof {
        assert(lit@.take(lit@.len() as int) =~= lit@);
    }
}

/// Upper-case hex digit of `v` (< 16).
pub open spec fn hex_upper(v: u8) -> u8 {
    if v < 10 { (48 + v) as u8 } else { (55 + v) as u8 }
}

/// Lower-case hex digit of `v` (< 16).
pub open spec fn hex_lower(v: u8) -> u8 {
    if v < 10 { (48 + v) as u8 } else { (87 + v) as u8 }
}

/// The upper-case hex digit of `v`.
pub fn hex_digit_upper(v: u8) -> (d: u8)
    requires
        v < 16,
    ensures
        d == hex_upper(v),
{
    if v < 10 { 48 + v } else { 55 + v }
}

/// The lower-case hex digit of `v`.
pub fn hex_digit_lower(v: u8) -> (d: u8)
    requires
        v < 16,
    ensures
        d == hex_lower(v),
{
    if v < 10 { 48 + v } else { 87 + v }
}

/// A fresh vector holding `b`.
pub fn copy_bytes(b: &[u8]) -> (v: Vec<u8>)
    ensures
        v@ == b@,
{
    let mut v: Vec<u8> = Vec::new();
    push_bytes(&mut v, b);
    proof {
        assert(Seq::<u8>::empty() + b@ =~= b@);
    }
    v
}

} // verus!
