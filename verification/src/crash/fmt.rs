//! The few number formats the crash screen uses: eight uppercase hex
//! digits, and decimals plain, zero-padded, left- or right-aligned.

use vstd::prelude::*;
use vstd::string::StringSliceAdditionalSpecFns;

verus! {

/// The ASCII digit of `d` (0 to 15), uppercase.
pub open spec fn hex_char(d: int) -> u8 {
    if d < 10 { (48 + d) as u8 } else { (55 + d) as u8 }
}

/// 16 to the `k`.
pub open spec fn pow16(k: nat) -> nat
    decreases k,
{
    if k == 0 { 1 } else { 16 * pow16((k - 1) as nat) }
}

proof fn lemma_pow16_pos(k: nat)
    ensures
        pow16(k) >= 1,
    decreases k,
{
    if k > 0 {
        lemma_pow16_pos((k - 1) as nat);
    }
}

/// `v` as eight uppercase hex digits (`{:08X}`).
pub open spec fn hex8(v: u32) -> Seq<u8> {
    Seq::new(8, |i: int| hex_char((v as int / pow16((7 - i) as nat) as int) % 16))
}

/// The decimal digits of `v` (`{}`).
pub open spec fn dec(v: nat) -> Seq<u8>
    decreases v,
{
    if v < 10 {
        seq![(48 + v) as u8]
    } else {
        dec(v / 10).push((48 + v % 10) as u8)
    }
}

/// `v` zero-padded to two digits (`{:02}`).
pub open spec fn dec02(v: nat) -> Seq<u8> {
    if v < 10 { seq![48u8] + dec(v) } else { dec(v) }
}

/// `v` left-aligned in two columns (`{:<2}`).
pub open spec fn dec_left2(v: nat) -> Seq<u8> {
    if v < 10 { dec(v).push(32u8) } else { dec(v) }
}

/// `v` right-aligned in three columns (`{:3}`).
pub open spec fn dec_right3(v: nat) -> Seq<u8> {
    if v < 10 {
        seq![32u8, 32u8] + dec(v)
    } else if v < 100 {
        seq![32u8] + dec(v)
    } else {
        dec(v)
    }
}

/// Append the bytes of `s`.
pub fn push_str(out: &mut Vec<u8>, s: &str)
    ensures
        final(out)@ == old(out)@ + s.spec_bytes(),
{
    push_bytes(out, crate::text::str_bytes(s));
}

/// Append `b`.
pub fn push_bytes(out: &mut Vec<u8>, b: &[u8])
    ensures
        final(out)@ == old(out)@ + b@,
{
    let mut i: usize = 0;
    while i < b.len()
        invariant
            i <= b@.len(),
            out@ == old(out)@ + b@.subrange(0, i as int),
        decreases b@.len() - i,
    {
        out.push(b[i]);
        i = i + 1;
        assert(out@ =~= old(out)@ + b@.subrange(0, i as int));
    }
    assert(b@.subrange(0, i as int) =~= b@);
}

/// Append `v` as eight uppercase hex digits.
pub fn push_hex8(out: &mut Vec<u8>, v: u32)
    ensures
        final(out)@ == old(out)@ + hex8(v),
{
    let mut p: u32 = 0x1000_0000;
    let mut i: usize = 0;
    assert(pow16(7) == 0x1000_0000) by {
        reveal_with_fuel(pow16, 8);
    }
    while i < 8
        invariant
            i <= 8,
            p as nat == pow16((7 - i) as nat) || i == 8,
            p >= 1,
            out@ == old(out)@ + hex8(v).subrange(0, i as int),
        decreases 8 - i,
    {
        let d = (v / p) % 16;
        out.push(if d < 10 { 48 + d as u8 } else { 55 + d as u8 });
        assert(out@ =~= old(out)@ + hex8(v).subrange(0, i + 1));
        if i < 7 {
            proof {
                assert(pow16((7 - i) as nat) == 16 * pow16((7 - i - 1) as nat));
                lemma_pow16_pos((7 - i - 1) as nat);
            }
            p = p / 16;
        }
        i = i + 1;
    }
    assert(hex8(v).subrange(0, 8) =~= hex8(v));
}

/// Append the decimal digits of `v`.
pub fn push_dec(out: &mut Vec<u8>, v: u64)
    ensures
        final(out)@ == old(out)@ + dec(v as nat),
    decreases v,
{
    if v >= 10 {
        push_dec(out, v / 10);
    }
    out.push(48 + (v % 10) as u8);
    assert(out@ =~= old(out)@ + dec(v as nat));
}

/// Append `v` zero-padded to two digits.
pub fn push_dec02(out: &mut Vec<u8>, v: u64)
    ensures
        final(out)@ == old(out)@ + dec02(v as nat),
{
    if v < 10 {
        out.push(48);
    }
    push_dec(out, v);
    assert(out@ =~= old(out)@ + dec02(v as nat));
}

/// Append `v` left-aligned in two columns.
pub fn push_dec_left2(out: &mut Vec<u8>, v: u64)
    ensures
        final(out)@ == old(out)@ + dec_left2(v as nat),
{
    push_dec(out, v);
    if v < 10 {
        out.push(32);
    }
    assert(out@ =~= old(out)@ + dec_left2(v as nat));
}

/// Append `v` right-aligned in three columns.
pub fn push_dec_right3(out: &mut Vec<u8>, v: u64)
    ensures
        final(out)@ == old(out)@ + dec_right3(v as nat),
{
    if v < 10 {
        out.push(32);
        out.push(32);
    } else if v < 100 {
        out.push(32);
    }
    push_dec(out, v);
    assert(out@ =~= old(out)@ + dec_right3(v as nat));
}

} // verus!
