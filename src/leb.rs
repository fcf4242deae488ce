//! LEB128, the variable-length integer encoding of the WebAssembly binary
//! format.

use vstd::prelude::*;

verus! {

/// Unsigned LEB128: seven bits per byte, low bits first, the high bit of a
/// byte set when more bytes follow.
pub open spec fn leb128(n: nat) -> Seq<u8>
    decreases n,
{
    if n < 128 {
        seq![n as u8]
    } else {
        seq![(n % 128 + 128) as u8] + leb128(n / 128)
    }
}

/// Signed LEB128: like `leb128`, on two's complement, ending once the rest
/// is the sign extension of the last byte's bit six.
pub open spec fn sleb128(n: int) -> Seq<u8>
    decreases (if n < 0 { -n } else { n }),
{
    if -64 <= n < 64 {
        seq![(n % 128) as u8]
    } else {
        seq![(n % 128 + 128) as u8] + sleb128(n / 128)
    }
}

/// Appends the unsigned LEB128 encoding of `n`.
pub fn push_leb128(out: &mut Vec<u8>, n: u32)
    ensures
        final(out)@ == old(out)@ + leb128(n as nat),
{
    let mut v: u32 = n;
    while v >= 128
        invariant
            out@ + leb128(v as nat) == old(out)@ + leb128(n as nat),
        decreases v,
    {
        let b: u8 = (v % 128 + 128) as u8;
        let ghost before = out@;
        out.push(b);
        assert(before + leb128(v as nat) =~= out@ + leb128((v / 128) as nat));
        v = v / 128;
    }
    let ghost before = out@;
    out.push(v as u8);
    assert(before + leb128(v as nat) =~= out@);
}

/// Appends the signed LEB128 encoding of `n`.
pub fn push_sleb128(out: &mut Vec<u8>, n: i32)
    ensures
        final(out)@ == old(out)@ + sleb128(n as int),
{
    let mut v: i64 = n as i64;
    while v < -64 || v >= 64
        invariant
            -0x8000_0000 <= v < 0x8000_0000,
            out@ + sleb128(v as int) == old(out)@ + sleb128(n as int),
        decreases (if v < 0 { -(v as int) } else { v as int }),
    {
        let ghost before = out@;
        let low: i64;
        let high: i64;
        if v >= 0 {
            low = v % 128;
            high = v / 128;
        } else {
            let t: i64 = -v - 1;
            low = 127 - t % 128;
            high = -(t / 128) - 1;
            assert(v as int % 128 == low && v as int / 128 == high) by (nonlinear_arith)
                requires
                    t == -v - 1,
                    t >= 0,
                    low == 127 - t % 128,
                    high == -(t / 128) - 1,
            ;
        }
        out.push((low + 128) as u8);
        assert(before + sleb128(v as int) =~= out@ + sleb128(high as int));
        v = high;
    }
    let ghost before = out@;
    let low: i64 = if v >= 0 { v } else { v + 128 };
    out.push(low as u8);
    assert(before + sleb128(v as int) =~= out@);
}

} // verus!
