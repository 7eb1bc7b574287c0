//! Source-block sizing: the source-symbol count `K`, the zero padding that
//! makes a block split evenly into `K` symbols, the emission budget, and the
//! on-air pacing delay.

use vstd::prelude::*;

verus! {

/// Ceiling division for non-negative operands.
pub open spec fn spec_ceil_div(a: int, b: int) -> int
    recommends
        a >= 0,
        b >= 1,
{
    if a % b == 0 {
        a / b
    } else {
        a / b + 1
    }
}

/// `K`, the number of source symbols of a block: `ceil(size / packet_size)`.
pub fn max_source_syms(size: usize, packet_size: usize) -> (r: usize)
    requires
        packet_size >= 1,
    ensures
        r == spec_ceil_div(size as int, packet_size as int),
{
    if size % packet_size == 0 {
        size / packet_size
    } else {
        proof {
            assert(packet_size >= 2);
            assert(size as int / packet_size as int <= size as int / 2) by {
                vstd::arithmetic::div_mod::lemma_div_is_ordered_by_denominator(
                    size as int,
                    2,
                    packet_size as int,
                );
            }
        }
        size / packet_size + 1
    }
}

/// The block padded with zero bytes up to the next multiple of `k`.
pub open spec fn spec_pad(b: Seq<u8>, k: int) -> Seq<u8>
    recommends
        k >= 1,
{
    b + Seq::new((k * spec_ceil_div(b.len() as int, k) - b.len()) as nat, |i: int| 0u8)
}

/// Pad a block with zero bytes so that it splits evenly into `k` symbols.
pub fn pad_block(block: &[u8], k: usize) -> (r: Vec<u8>)
    requires
        k >= 1,
        block@.len() + k <= usize::MAX,
    ensures
        r@ == spec_pad(block@, k as int),
        r@.len() == k * spec_ceil_div(block@.len() as int, k as int),
        (r@.len() as int) % (k as int) == 0,
        block@.len() <= r@.len() < block@.len() + k,
{
    let len = block.len();
    let excess = len % k;
    let padded_size = if excess == 0 {
        len
    } else {
        len + (k - excess)
    };
    proof {
        let l = len as int;
        let ki = k as int;
        assert(l == ki * (l / ki) + l % ki) by {
            vstd::arithmetic::div_mod::lemma_fundamental_div_mod(l, ki);
        }
        if excess == 0 {
            assert(padded_size == ki * spec_ceil_div(l, ki));
        } else {
            assert(padded_size == ki * (l / ki) + l % ki + ki - l % ki);
            assert(ki * (l / ki + 1) == ki * (l / ki) + ki) by (nonlinear_arith);
            assert(padded_size == ki * spec_ceil_div(l, ki));
        }
        assert((padded_size as int) % ki == 0) by {
            let q = spec_ceil_div(l, ki);
            assert(ki * q % ki == 0) by (nonlinear_arith)
                requires
                    ki >= 1,
            ;
        }
    }
    let mut out = vstd::slice::slice_to_vec(block);
    while out.len() < padded_size
        invariant
            len <= out@.len() <= padded_size,
            out@.take(len as int) == block@,
            forall|i: int| len <= i < out@.len() ==> out@[i] == 0,
        decreases padded_size - out@.len(),
    {
        let ghost before = out@;
        out.push(0);
        proof {
            assert(out@.take(len as int) =~= before.take(len as int));
        }
    }
    proof {
        assert(out@ =~= spec_pad(block@, k as int));
    }
    out
}

/// Truncating the padded block back to the original length recovers the
/// block exactly: padding loses nothing.
pub proof fn lemma_pad_truncate(b: Seq<u8>, k: int)
    requires
        k >= 1,
    ensures
        spec_pad(b, k).take(b.len() as int) == b,
        spec_pad(b, k).len() == k * spec_ceil_div(b.len() as int, k),
        forall|i: int| b.len() <= i < spec_pad(b, k).len() ==> spec_pad(b, k)[i] == 0,
{
    assert(k * spec_ceil_div(b.len() as int, k) >= b.len()) by {
        let l = b.len() as int;
        vstd::arithmetic::div_mod::lemma_fundamental_div_mod(l, k);
        if l % k == 0 {
            assert(k * (l / k) == l);
        } else {
            assert(k * (l / k + 1) == k * (l / k) + k) by (nonlinear_arith);
        }
    }
    assert(spec_pad(b, k).take(b.len() as int) =~= b);
}

/// What GET's padding does for any non-empty block and packet size: with
/// `K = ceil(len / packet_size)`, the padded source data has length
/// `K * ceil(len / K)`, carries the block unchanged as its prefix, and is
/// zero everywhere beyond it.
pub proof fn lemma_get_padding(block: Seq<u8>, packet_size: int)
    requires
        packet_size >= 1,
        block.len() >= 1,
    ensures
        ({
            let k = spec_ceil_div(block.len() as int, packet_size);
            &&& k >= 1
            &&& spec_pad(block, k).len() == k * spec_ceil_div(block.len() as int, k)
            &&& spec_pad(block, k).take(block.len() as int) == block
            &&& forall|i: int|
                block.len() <= i < spec_pad(block, k).len() ==> spec_pad(block, k)[i] == 0
        }),
{
    let l = block.len() as int;
    let k = spec_ceil_div(l, packet_size);
    assert(k >= 1) by {
        vstd::arithmetic::div_mod::lemma_fundamental_div_mod(l, packet_size);
        if l % packet_size == 0 {
            assert(l / packet_size >= 1) by (nonlinear_arith)
                requires
                    l >= 1,
                    packet_size >= 1,
                    l == packet_size * (l / packet_size),
            ;
        }
    }
    lemma_pad_truncate(block, k);
}

/// How many data payloads one GET emission produces: the padded block length
/// in whole packets, with twenty percent overhead and two extra.
pub fn emission_budget(padded_len: usize, packet_size: usize) -> (r: usize)
    requires
        packet_size >= 1,
        padded_len <= usize::MAX / 8,
    ensures
        r == 6 * ((padded_len as int) / (packet_size as int)) / 5 + 2,
{
    let q = padded_len / packet_size;
    proof {
        assert(q <= padded_len) by {
            vstd::arithmetic::div_mod::lemma_div_is_ordered_by_denominator(
                padded_len as int,
                1,
                packet_size as int,
            );
        }
    }
    6 * q / 5 + 2
}

/// Milliseconds to pause after sending one symbol of `len` bytes, modelling
/// its on-air duration at 9600 baud.
pub fn pacing_millis(len: usize) -> (r: u64)
    requires
        len <= u32::MAX,
    ensures
        r == 8000 * (len as int) / 9600,
{
    8000 * (len as u64) / 9600
}

} // verus!
