//! The server engine: turning one decoded request into the frames to send.
//!
//! META is answered with `m <hash> <K> <size>`; LIST with the listing text
//! and a trailing sentinel; GET with a burst of fountain-coded data
//! payloads, their emission order a fresh random permutation of the ESI
//! space.  Reading the request from the radio, fetching file bytes from
//! disk and broadcasting the frames are the caller's concern.

use vstd::prelude::*;

use crate::block::emission_budget;
use crate::block::max_source_syms;
use crate::block::pad_block;
use crate::block::spec_ceil_div;
use crate::block::spec_pad;
use crate::command::spec_list_sentinel;
use crate::command::spec_meta_reply;
use crate::command::list_sentinel;
use crate::command::meta_reply;
use crate::bytes::append_bytes;
use crate::bytes::lemma_split_append_field;
use crate::num::dec_repr;
use crate::fountain::enc_block;
use crate::fountain::enc_nsyms;
use crate::fountain::encoder_fountain;
use crate::fountain::encoder_new;
use crate::fountain::spec_fountain;
use crate::index::DirectoryIndex;
use crate::index::FileEntry;
use crate::pdu::build_data_pdu;
use crate::pdu::spec_data_pdu;
use crate::rng::shuffle_u16;

verus! {

/// What can go wrong while serving a request.
#[derive(Debug)]
pub enum UploaderError {
    /// A GET or META named a hash the index does not hold; logged and
    /// ignored on the wire, no negative reply is defined.
    HashNotFound,
    /// The erasure encoder refused the block, as it does when the block
    /// partitions into too few source symbols.
    CodecError,
}

/// The ESI sent at position `i` of an emission: the permutation while it
/// lasts, the reserve value zero beyond it.
pub open spec fn esi_at(perm: Seq<u16>, i: int) -> u16 {
    if 0 <= i < perm.len() {
        perm[i]
    } else {
        0
    }
}

/// The identifiers `0, 1, .., n-1`.
pub open spec fn spec_esi_range(n: int) -> Seq<u16>
    recommends
        0 <= n <= u16::MAX + 1,
{
    Seq::new(n as nat, |i: int| i as u16)
}

/// Answer a META request: `K` and the exact size of the block.
pub fn handle_meta(block: &[u8], hash: &[u8], packet_size: usize) -> (r: Vec<u8>)
    requires
        packet_size >= 1,
    ensures
        r@ == spec_meta_reply(
            hash@,
            spec_ceil_div(block@.len() as int, packet_size as int),
            block@.len() as int,
        ),
{
    let k = max_source_syms(block.len(), packet_size);
    meta_reply(hash, k, block.len())
}

/// Build the data payload for each requested ESI, in order.
///
/// `data` must already be padded to split evenly into `k` symbols.  Fails
/// exactly when the erasure encoder refuses a block of `k` symbols, as it
/// does for blocks of two or three.
pub fn encode_block_symbols(data: &[u8], k: usize, esis: &Vec<u16>, tag: u16) -> (r: Result<
    Vec<Vec<u8>>,
    UploaderError,
>)
    requires
        1 <= k <= 8192,
        1 <= data@.len(),
        (data@.len() as int) % (k as int) == 0,
    ensures
        r is Ok <==> !crate::fountain::spec_encoder_refuses(k as nat),
        r is Err ==> r->Err_0 is CodecError,
        r is Ok ==> {
            let frames = r->Ok_0;
            &&& frames@.len() == esis@.len()
            &&& forall|i: int|
                0 <= i < frames@.len() ==> (#[trigger] frames@[i])@ == spec_data_pdu(
                    tag,
                    esis@[i],
                    spec_fountain(data@, k as nat, esis@[i] as nat),
                )
            &&& forall|i: int|
                0 <= i < frames@.len() && esis@[i] < k ==> (#[trigger] frames@[i])@
                    == spec_data_pdu(
                    tag,
                    esis@[i],
                    crate::fountain::symbol_chunk(data@, k as nat, esis@[i] as nat),
                )
        },
{
    let mut encoder = match encoder_new(data, k) {
        Some(e) => e,
        None => {
            return Err(UploaderError::CodecError);
        },
    };
    let mut frames: Vec<Vec<u8>> = Vec::new();
    let mut i: usize = 0;
    while i < esis.len()
        invariant
            0 <= i <= esis@.len(),
            enc_block(encoder) == data@,
            enc_nsyms(encoder) == k,
            1 <= k,
            1 <= data@.len(),
            (data@.len() as int) % (k as int) == 0,
            frames@.len() == i,
            forall|j: int|
                0 <= j < i ==> (#[trigger] frames@[j])@ == spec_data_pdu(
                    tag,
                    esis@[j],
                    spec_fountain(data@, k as nat, esis@[j] as nat),
                ),
            forall|j: int|
                0 <= j < i && esis@[j] < k ==> (#[trigger] frames@[j])@ == spec_data_pdu(
                    tag,
                    esis@[j],
                    crate::fountain::symbol_chunk(data@, k as nat, esis@[j] as nat),
                ),
        decreases esis@.len() - i,
    {
        let esi = esis[i];
        let symbol = encoder_fountain(&mut encoder, esi as u32);
        let frame = build_data_pdu(tag, esi, symbol.as_slice());
        frames.push(frame);
        i = i + 1;
    }
    Ok(frames)
}

/// Answer a GET request: pad the block, pick a fresh uniformly random order
/// over the `K + nb_repair` identifiers, and emit the first
/// `floor(1.2 * padded/packet_size) + 2` data payloads in that order (the
/// order recycles identifier zero if the budget outruns the identifier
/// space).  An empty block has nothing to send.  The encoder refuses the
/// symbol counts it cannot fully specify -- blocks of two or three symbols
/// among them -- and then nothing is emitted at all.
pub fn handle_get(block: &[u8], packet_size: usize, nb_repair: usize, tag: u16) -> (r: Result<
    Vec<Vec<u8>>,
    UploaderError,
>)
    requires
        packet_size >= 1,
        block@.len() + packet_size <= usize::MAX / 16,
        spec_ceil_div(block@.len() as int, packet_size as int) <= 8192,
        spec_ceil_div(block@.len() as int, packet_size as int) + nb_repair <= u16::MAX,
    ensures
        block@.len() == 0 ==> r is Ok && r->Ok_0@.len() == 0,
        r is Err <==> (block@.len() > 0 && crate::fountain::spec_encoder_refuses(
            spec_ceil_div(block@.len() as int, packet_size as int) as nat,
        )),
        r is Err ==> r->Err_0 is CodecError,
        r is Ok && block@.len() > 0 ==> ({
            let k = spec_ceil_div(block@.len() as int, packet_size as int);
            let padded = spec_pad(block@, k);
            let budget = 6 * ((padded.len() as int) / (packet_size as int)) / 5 + 2;
            let frames = r->Ok_0;
            &&& frames@.len() == budget
            &&& exists|perm: Seq<u16>|
                {
                    &&& perm.len() == k + nb_repair
                    &&& perm.to_multiset() == spec_esi_range(k + nb_repair).to_multiset()
                    &&& forall|i: int|
                        0 <= i < frames@.len() ==> (#[trigger] frames@[i])@ == spec_data_pdu(
                            tag,
                            esi_at(perm, i),
                            spec_fountain(padded, k as nat, esi_at(perm, i) as nat),
                        )
                    &&& forall|i: int|
                        0 <= i < frames@.len() && esi_at(perm, i) < k ==> (
                        #[trigger] frames@[i])@ == spec_data_pdu(
                            tag,
                            esi_at(perm, i),
                            crate::fountain::symbol_chunk(
                                padded,
                                k as nat,
                                esi_at(perm, i) as nat,
                            ),
                        )
                }
        }),
{
    if block.len() == 0 {
        return Ok(Vec::new());
    }
    let k = max_source_syms(block.len(), packet_size);
    proof {
        let l = block@.len() as int;
        let ps = packet_size as int;
        vstd::arithmetic::div_mod::lemma_fundamental_div_mod(l, ps);
        assert(l == ps * (l / ps) + l % ps);
        if l % ps == 0 {
            assert(l / ps >= 1) by (nonlinear_arith)
                requires
                    l >= 1,
                    ps >= 1,
                    l == ps * (l / ps),
            ;
        }
        assert(k >= 1);
        assert(l / ps <= l) by (nonlinear_arith)
            requires
                l >= 0,
                ps >= 1,
                l == ps * (l / ps) + l % ps,
                l % ps >= 0,
            ;
        if l % ps != 0 {
            assert(l / ps + 1 <= l) by (nonlinear_arith)
                requires
                    l >= 1,
                    ps >= 1,
                    l == ps * (l / ps) + l % ps,
                    0 < l % ps < ps,
            ;
        }
        assert(k <= block@.len());
    }
    let source_data = pad_block(block, k);
    proof {
        assert(source_data@.len() < block@.len() + k);
        assert(source_data@.len() <= usize::MAX / 8);
    }
    let packets = emission_budget(source_data.len(), packet_size);
    let n: u16 = (k + nb_repair) as u16;
    let mut txlist: Vec<u16> = Vec::new();
    let mut e: u16 = 0;
    while (e as usize) < (n as usize)
        invariant
            0 <= e <= n,
            txlist@.len() == e,
            forall|j: int| 0 <= j < e ==> txlist@[j] == j as u16,
        decreases n - e,
    {
        txlist.push(e);
        e = e + 1;
    }
    proof {
        assert(txlist@ =~= spec_esi_range(k + nb_repair as int));
    }
    shuffle_u16(&mut txlist);
    let ghost perm = txlist@;
    let ghost shuffled_len = txlist@.len();
    if txlist.len() > packets {
        txlist.truncate(packets);
    } else {
        proof {
            assert(txlist@ =~= perm + Seq::new((txlist@.len() - perm.len()) as nat, |j: int| 0u16));
        }
        while txlist.len() < packets
            invariant
                txlist@.len() <= packets,
                perm.len() <= txlist@.len(),
                txlist@ == perm + Seq::new((txlist@.len() - perm.len()) as nat, |j: int| 0u16),
            decreases packets - txlist@.len(),
        {
            txlist.push(0);
            proof {
                assert(txlist@ =~= perm + Seq::new(
                    (txlist@.len() - perm.len()) as nat,
                    |j: int| 0u16,
                ));
            }
        }
    }
    proof {
        assert(txlist@.len() == packets);
        assert(forall|j: int| 0 <= j < packets ==> txlist@[j] == esi_at(perm, j));
    }
    let r = encode_block_symbols(source_data.as_slice(), k, &txlist, tag);
    match r {
        Ok(frames) => {
            proof {
                assert(forall|i: int|
                    0 <= i < frames@.len() ==> (#[trigger] frames@[i])@ == spec_data_pdu(
                        tag,
                        esi_at(perm, i),
                        spec_fountain(spec_pad(block@, k as int), k as nat, esi_at(perm, i) as nat),
                    ));
                assert(forall|i: int|
                    0 <= i < frames@.len() && esi_at(perm, i) < k ==> (#[trigger] frames@[i])@
                        == spec_data_pdu(
                        tag,
                        esi_at(perm, i),
                        crate::fountain::symbol_chunk(
                            spec_pad(block@, k as int),
                            k as nat,
                            esi_at(perm, i) as nat,
                        ),
                    ));
            }
            Ok(frames)
        },
        Err(err) => Err(err),
    }
}

/// The listing body: one `<hash> <name>` line per entry.
pub open spec fn spec_list_body(entries: Seq<(Seq<u8>, Seq<u8>)>) -> Seq<u8>
    decreases entries.len(),
{
    if entries.len() == 0 {
        Seq::empty()
    } else {
        spec_list_body(entries.drop_last()) + entries.last().0 + seq![32u8] + entries.last().1
            + seq![10u8]
    }
}

/// The listing frame: the sentinel line, then one line per entry.
pub open spec fn spec_list_reply(tag: u16, entries: Seq<(Seq<u8>, Seq<u8>)>) -> Seq<u8> {
    spec_list_sentinel(tag) + seq![10u8] + spec_list_body(entries)
}

/// The listing line of one entry: `<hash> <name>`.
pub open spec fn spec_entry_line(e: (Seq<u8>, Seq<u8>)) -> Seq<u8> {
    e.0 + seq![32u8] + e.1
}

/// Neither the hash nor the name of any entry contains a newline, so every
/// entry fits one listing line.
pub open spec fn entries_line_safe(entries: Seq<(Seq<u8>, Seq<u8>)>) -> bool {
    forall|i: int|
        0 <= i < entries.len() ==> (forall|j: int|
            0 <= j < (#[trigger] entries[i]).0.len() ==> entries[i].0[j] != 10) && (forall|j: int|
            0 <= j < entries[i].1.len() ==> entries[i].1[j] != 10)
}

proof fn lemma_body_lines(entries: Seq<(Seq<u8>, Seq<u8>)>)
    requires
        entries_line_safe(entries),
    ensures
        crate::bytes::spec_split(spec_list_body(entries), 10) == Seq::new(
            entries.len(),
            |i: int| spec_entry_line(entries[i]),
        ) + seq![Seq::<u8>::empty()],
    decreases entries.len(),
{
    if entries.len() == 0 {
        assert(spec_list_body(entries) =~= Seq::<u8>::empty());
        assert(crate::bytes::spec_split(spec_list_body(entries), 10) =~~= Seq::new(
            entries.len(),
            |i: int| spec_entry_line(entries[i]),
        ) + seq![Seq::<u8>::empty()]);
    } else {
        let front = entries.drop_last();
        let last = entries.last();
        let line = spec_entry_line(last);
        assert(entries_line_safe(front)) by {
            assert(forall|i: int| 0 <= i < front.len() ==> front[i] == entries[i]);
        }
        lemma_body_lines(front);
        assert(forall|j: int| 0 <= j < line.len() ==> line[j] != 10) by {
            assert(entries[entries.len() - 1] == last);
        }
        lemma_split_append_field(
            spec_list_body(front),
            Seq::new(front.len(), |i: int| spec_entry_line(front[i])),
            line,
            10,
        );
        assert(spec_list_body(entries) =~= spec_list_body(front) + line + seq![10u8]);
        assert(Seq::new(entries.len(), |i: int| spec_entry_line(entries[i])) =~~= Seq::new(
            front.len(),
            |i: int| spec_entry_line(front[i]),
        ) + seq![line]) by {
            assert(forall|i: int| 0 <= i < front.len() ==> front[i] == entries[i]);
        }
        assert(crate::bytes::spec_split(spec_list_body(entries), 10) =~~= Seq::new(
            entries.len(),
            |i: int| spec_entry_line(entries[i]),
        ) + seq![Seq::<u8>::empty()]);
    }
}

/// The LIST exchange loses nothing: the lines a client recovers from a
/// listing are exactly the index's entries, one line per entry, in order.
/// The listing is determined by the entries and the tag alone, so repeated
/// LIST commands over an unchanged directory yield the same pairs; and no
/// listing collides with the bare end-of-list sentinel.
pub proof fn lemma_list_roundtrip(tag: u16, entries: Seq<(Seq<u8>, Seq<u8>)>)
    requires
        entries_line_safe(entries),
    ensures
        spec_list_reply(tag, entries) != spec_list_sentinel(tag),
        crate::command::spec_lines(spec_list_reply(tag, entries)).len() == 1 + entries.len(),
        crate::command::spec_lines(spec_list_reply(tag, entries))[0] == spec_list_sentinel(tag),
        forall|i: int|
            0 <= i < entries.len() ==> crate::command::spec_lines(spec_list_reply(tag, entries))[i
                + 1] == spec_entry_line(#[trigger] entries[i]),
{
    let sentinel = spec_list_sentinel(tag);
    let body = spec_list_body(entries);
    let reply = spec_list_reply(tag, entries);
    assert(forall|j: int| 0 <= j < sentinel.len() ==> sentinel[j] != 10) by {
        crate::num::lemma_dec_repr_value(tag as int);
        assert(forall|j: int|
            0 <= j < dec_repr(tag as int).len() ==> crate::num::is_dec_digit(
                #[trigger] dec_repr(tag as int)[j],
            ));
        assert(forall|j: int|
            2 <= j < sentinel.len() ==> sentinel[j] == dec_repr(tag as int)[j - 2]);
    }
    assert(reply.len() > sentinel.len());
    crate::bytes::lemma_split_concat(sentinel, body, 10);
    assert(reply =~= sentinel + seq![10u8] + body);
    lemma_body_lines(entries);
    let mid = Seq::new(entries.len(), |i: int| spec_entry_line(entries[i]));
    assert(crate::bytes::spec_split(reply, 10) =~~= seq![sentinel] + mid + seq![
        Seq::<u8>::empty(),
    ]) by {
        assert(crate::bytes::spec_split(body, 10) == mid + seq![Seq::<u8>::empty()]);
        assert(crate::bytes::spec_split(reply, 10) =~= seq![sentinel] + (mid + seq![
            Seq::<u8>::empty(),
        ]));
    }
    let f = crate::bytes::spec_split(reply, 10);
    assert(f.last() == Seq::<u8>::empty());
    assert(crate::command::spec_lines(reply) == f.drop_last());
    assert(f.drop_last() =~~= seq![sentinel] + mid);
    assert(forall|i: int|
        0 <= i < entries.len() ==> (seq![sentinel] + mid)[i + 1] == spec_entry_line(
            #[trigger] entries[i],
        ));
}

/// Answer a LIST request: the listing frame and the closing sentinel frame,
/// to be sent in that order.
pub fn handle_list(index: &DirectoryIndex, tag: u16) -> (r: (Vec<u8>, Vec<u8>))
    ensures
        r.0@ == spec_list_reply(tag, index@),
        r.1@ == spec_list_sentinel(tag),
{
    let sentinel = list_sentinel(tag);
    let mut listing: Vec<u8> = Vec::new();
    append_bytes(&mut listing, sentinel.as_slice());
    listing.push(10);
    let entries = index.list();
    let ghost all = index@;
    let mut i: usize = 0;
    proof {
        assert(all.take(0) =~= Seq::<(Seq<u8>, Seq<u8>)>::empty());
        assert(listing@ =~= spec_list_sentinel(tag) + seq![10u8] + spec_list_body(all.take(0)));
    }
    while i < entries.len()
        invariant
            0 <= i <= entries@.len(),
            entries@.map_values(|e: FileEntry| e@) == all,
            listing@ == spec_list_sentinel(tag) + seq![10u8] + spec_list_body(all.take(i as int)),
        decreases entries@.len() - i,
    {
        append_bytes(&mut listing, entries[i].hash.as_slice());
        listing.push(32);
        append_bytes(&mut listing, entries[i].name.as_slice());
        listing.push(10);
        proof {
            assert(entries@[i as int]@ == all[i as int]);
            assert(all.take(i + 1).drop_last() =~= all.take(i as int));
            assert(all.take(i + 1).last() == all[i as int]);
            assert(listing@ =~= spec_list_sentinel(tag) + seq![10u8] + spec_list_body(
                all.take(i + 1),
            ));
        }
        i = i + 1;
    }
    proof {
        assert(all.take(all.len() as int) =~= all);
    }
    (listing, sentinel)
}

} // verus!
