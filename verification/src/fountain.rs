//! The rateless erasure code, through the raptor-code crate.
//!
//! An encoder is prepared from a padded source block and produces, for any
//! encoding symbol identifier, a symbol deterministic in the block and the
//! identifier; identifiers below `K` reproduce the source fragments.  A
//! decoder ingests symbols in any order and can reconstruct the block once
//! the received set fully specifies it.

use vstd::prelude::*;

verus! {

#[verifier::external_type_specification]
#[verifier::external_body]
pub struct ExSourceBlockEncoder(raptor_code::SourceBlockEncoder);

#[verifier::external_type_specification]
#[verifier::external_body]
pub struct ExSourceBlockDecoder(raptor_code::SourceBlockDecoder);

/// The source block an encoder was built from.
pub uninterp spec fn enc_block(e: raptor_code::SourceBlockEncoder) -> Seq<u8>;

/// The source-symbol count an encoder was built with.
pub uninterp spec fn enc_nsyms(e: raptor_code::SourceBlockEncoder) -> nat;

/// The encoding symbol that the fountain produces for one identifier: a
/// fixed function of the block, the symbol count and the identifier.
pub uninterp spec fn spec_fountain(block: Seq<u8>, k: nat, esi: nat) -> Seq<u8>;

/// The source-symbol count a decoder was built with.
pub uninterp spec fn dec_nsyms(d: raptor_code::SourceBlockDecoder) -> nat;

/// Every symbol pushed into a decoder so far, oldest first.
pub uninterp spec fn dec_pushes(d: raptor_code::SourceBlockDecoder) -> Seq<(u32, Seq<u8>)>;

/// Whether a set of received symbols fully specifies the block: what the
/// decoder's `fully_specified` answers after those pushes.
pub uninterp spec fn spec_fully_specified(k: nat, pushes: Seq<(u32, Seq<u8>)>) -> bool;

/// The block the decoder reconstructs from the pushed symbols.
pub uninterp spec fn spec_decoded(k: nat, pushes: Seq<(u32, Seq<u8>)>, len: nat) -> Seq<u8>;

/// Whether the encoder refuses a block of `k` source symbols.  Under the
/// conditions `encoder_new` admits, acceptance is decided by the equation
/// system for `k` alone, a fixed function of `k`.
pub uninterp spec fn spec_encoder_refuses(k: nat) -> bool;

/// The `i`-th of the `k` equal fragments of an evenly divisible block.
pub open spec fn symbol_chunk(block: Seq<u8>, k: nat, i: nat) -> Seq<u8>
    recommends
        1 <= k,
        block.len() % k == 0,
        i < k,
{
    let s = block.len() as int / k as int;
    block.subrange(i * s, (i + 1) * s)
}

/// The `k` fragments of an evenly divisible block reassemble, in identifier
/// order, to exactly the block: the source symbols partition the padded
/// block without loss.
pub proof fn lemma_chunks_reassemble(block: Seq<u8>, k: nat)
    requires
        1 <= k,
        block.len() % k == 0,
    ensures
        Seq::new(k, |i: int| symbol_chunk(block, k, i as nat)).flatten() == block,
{
    let s = block.len() as int / k as int;
    assert(block.len() == k * s) by {
        vstd::arithmetic::div_mod::lemma_fundamental_div_mod(
            block.len() as int,
            k as int,
        );
    }
    assert(s >= 0) by {
        if s < 0 {
            assert(k * s < 0) by (nonlinear_arith)
                requires
                    k >= 1,
                    s < 0,
            ;
        }
    }
    lemma_chunks_prefix(block, k, s, k as int);
    assert(block.take(k as int * s) =~= block);
}

proof fn lemma_chunks_prefix(block: Seq<u8>, k: nat, s: int, m: int)
    requires
        1 <= k,
        s >= 0,
        block.len() == k * s,
        s == block.len() as int / k as int,
        0 <= m <= k,
    ensures
        Seq::new(m as nat, |i: int| symbol_chunk(block, k, i as nat)).flatten() == block.take(
            m * s,
        ),
    decreases m,
{
    let f = |i: int| symbol_chunk(block, k, i as nat);
    if m == 0 {
        assert(Seq::new(0, f) =~= Seq::<Seq<u8>>::empty());
        assert(Seq::<Seq<u8>>::empty().flatten() =~= Seq::<u8>::empty());
        assert(block.take(0) =~= Seq::<u8>::empty());
    } else {
        lemma_chunks_prefix(block, k, s, m - 1);
        assert(Seq::new(m as nat, f) =~= Seq::new((m - 1) as nat, f) + seq![f(m - 1)]);
        vstd::seq_lib::lemma_flatten_concat(Seq::new((m - 1) as nat, f), seq![f(m - 1)]);
        seq![f(m - 1)].lemma_flatten_one_element();
        assert((m - 1) * s >= 0 && m * s <= block.len()) by (nonlinear_arith)
            requires
                1 <= m <= k,
                s >= 0,
                block.len() == k * s,
        ;
        assert(f(m - 1) == block.subrange((m - 1) * s, (m - 1) * s + s)) by {
            assert((m - 1) * s + s == m * s) by (nonlinear_arith);
        }
        assert((m - 1) * s <= m * s) by (nonlinear_arith)
            requires
                s >= 0,
        ;
        assert((m - 1) * s + s == m * s) by (nonlinear_arith);
        assert(block.take((m - 1) * s) + block.subrange((m - 1) * s, m * s) =~= block.take(
            m * s,
        ));
    }
}

/// Relies on `raptor_code::SourceBlockEncoder::new`: partitions the block
/// into `k` source symbols and precomputes the intermediate symbols; fails
/// exactly when the equation system for `k` is not fully specified (so in
/// particular for very small `k`).  Its systematic index table covers
/// symbol counts up to 8192; beyond that the call does not return, so
/// larger counts are excluded here.
#[verifier::external_body]
pub(crate) fn encoder_new(data: &[u8], k: usize) -> (r: Option<raptor_code::SourceBlockEncoder>)
    requires
        1 <= k <= 8192,
        1 <= data@.len(),
        (data@.len() as int) % (k as int) == 0,
    ensures
        r is Some <==> !spec_encoder_refuses(k as nat),
        r is Some ==> enc_block(r->0) == data@ && enc_nsyms(r->0) == k,
{
    match raptor_code::SourceBlockEncoder::new(data, k) {
        Ok(e) => Some(e),
        Err(_) => None,
    }
}

/// Relies on `raptor_code::SourceBlockEncoder::fountain`: returns the
/// encoding symbol for an identifier, a function of the encoder's block and
/// symbol count alone; for identifiers below the symbol count it returns the
/// source fragment itself.
#[verifier::external_body]
pub(crate) fn encoder_fountain(e: &mut raptor_code::SourceBlockEncoder, esi: u32) -> (r: Vec<u8>)
    ensures
        enc_block(*final(e)) == enc_block(*old(e)),
        enc_nsyms(*final(e)) == enc_nsyms(*old(e)),
        r@ == spec_fountain(enc_block(*old(e)), enc_nsyms(*old(e)), esi as nat),
        (1 <= enc_nsyms(*old(e)) && enc_block(*old(e)).len() % enc_nsyms(*old(e)) == 0 && esi
            < enc_nsyms(*old(e))) ==> r@ == symbol_chunk(
            enc_block(*old(e)),
            enc_nsyms(*old(e)),
            esi as nat,
        ),
{
    e.fountain(esi)
}

/// Relies on `raptor_code::SourceBlockDecoder::new`: a fresh decoder for a
/// block of `k` source symbols, with nothing received yet.  The symbol
/// count stays within the codec's systematic index table, as every push
/// consults it.
#[verifier::external_body]
pub(crate) fn decoder_new(k: usize) -> (r: raptor_code::SourceBlockDecoder)
    requires
        k <= 8192,
    ensures
        dec_nsyms(r) == k,
        dec_pushes(r) == Seq::<(u32, Seq<u8>)>::empty(),
{
    raptor_code::SourceBlockDecoder::new(k)
}

/// Relies on `raptor_code::SourceBlockDecoder::push_encoding_symbol`: folds
/// one received symbol into the decoder's equation system.  The symbol
/// count stays within the codec's systematic index table, which the push
/// consults; beyond it the call would not return.
#[verifier::external_body]
pub(crate) fn decoder_push(d: &mut raptor_code::SourceBlockDecoder, symbol: &[u8], esi: u32)
    requires
        dec_nsyms(*old(d)) <= 8192,
    ensures
        dec_nsyms(*final(d)) == dec_nsyms(*old(d)),
        dec_pushes(*final(d)) == dec_pushes(*old(d)).push((esi, symbol@)),
{
    d.push_encoding_symbol(symbol, esi);
}

/// Relies on `raptor_code::SourceBlockDecoder::fully_specified`: whether the
/// received symbols determine the whole block.
#[verifier::external_body]
pub(crate) fn decoder_fully_specified(d: &raptor_code::SourceBlockDecoder) -> (r: bool)
    ensures
        r == spec_fully_specified(dec_nsyms(*d), dec_pushes(*d)),
{
    d.fully_specified()
}

/// Relies on `raptor_code::SourceBlockDecoder::decode`: solves the equation
/// system and reassembles the block.  When it yields a block, that block is
/// the reconstruction and has the requested length; whether it yields one
/// is not promised, so the caller treats an empty answer as a failure.
#[verifier::external_body]
pub(crate) fn decoder_decode(d: &mut raptor_code::SourceBlockDecoder, len: usize) -> (r: Option<
    Vec<u8>,
>)
    requires
        1 <= dec_nsyms(*old(d)) <= 8192,
        spec_fully_specified(dec_nsyms(*old(d)), dec_pushes(*old(d))),
        forall|i: int|
            0 <= i < dec_pushes(*old(d)).len() ==> (#[trigger] dec_pushes(*old(d))[i].1.len())
                * dec_nsyms(*old(d)) == len,
    ensures
        dec_nsyms(*final(d)) == dec_nsyms(*old(d)),
        dec_pushes(*final(d)) == dec_pushes(*old(d)),
        r is Some ==> r->0@ == spec_decoded(dec_nsyms(*old(d)), dec_pushes(*old(d)), len as nat)
            && r->0@.len() == len,
{
    d.decode(len)
}

} // verus!
