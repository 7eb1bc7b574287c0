//! The client engine: one download session.
//!
//! A session is created from the META answers (`K` and the size), a fresh
//! 16-bit tag and the requested hash.  Inbound payloads are fed to it one by
//! one: frames of other transfers, short payloads and ill-sized symbols are
//! ignored; matching symbols go to the decoder until the block is fully
//! specified.  Finishing decodes the padded block, truncates it to the
//! announced size and verifies the digest against the requested hash.

use vstd::prelude::*;

use crate::bytes::bytes_eq;
use crate::digest::sha256_hex;
use crate::digest::spec_sha256_hex;
use crate::fountain::dec_nsyms;
use crate::fountain::dec_pushes;
use crate::fountain::decoder_decode;
use crate::fountain::decoder_fully_specified;
use crate::fountain::decoder_new;
use crate::fountain::decoder_push;
use crate::fountain::spec_decoded;
use crate::fountain::spec_fully_specified;
use crate::pdu::parse_data_pdu;
use crate::pdu::spec_parse_pdu;

verus! {

/// The longest symbol a session accepts.  Far beyond any radio frame, and
/// small enough that every byte count of a transfer fits a `usize`.
pub const MAX_SYMBOL_LEN: usize = 32768;

/// What can go wrong while downloading.
#[derive(Debug)]
pub enum DownloaderError {
    /// The decoded block does not hash to the requested hash: the first
    /// field is the digest of what arrived, the second the hash asked for.
    ChecksumMismatch(Vec<u8>, Vec<u8>),
    /// No frame of the active transfer arrived in time; the download loop
    /// answers it by resending GET with the byte count so far.
    Timeout,
    /// More bytes than the whole padded block arrived without the block
    /// becoming decodable: the stream is malformed.
    StreamMalformed,
    /// The decoder handed no block back although the block was fully
    /// specified: a decoder fault, fatal with no retry.
    DecodeFailed,
}

/// What one inbound payload did to the session.
#[derive(Debug, PartialEq, Eq, Structural)]
pub enum SymbolStatus {
    /// Not a data payload of this transfer; the session is unchanged.
    Ignored,
    /// The symbol went into the decoder; more are needed.
    Accepted,
    /// The symbol went into the decoder and the block is now decodable.
    Complete,
    /// The symbol count is spent without a decodable block; fatal.
    Malformed,
}

/// One transfer in progress.
pub struct Session {
    decoder: raptor_code::SourceBlockDecoder,
    k: usize,
    size: usize,
    tag: u16,
    hash: Vec<u8>,
    bytes_received: usize,
    symbol_len: usize,
    complete: bool,
    failed: bool,
}

/// `s` cut or zero-padded to length `n`: what truncating the decoded block
/// to the announced size yields.
pub open spec fn spec_fit(s: Seq<u8>, n: int) -> Seq<u8>
    recommends
        n >= 0,
{
    if n <= s.len() {
        s.take(n)
    } else {
        s + Seq::new((n - s.len()) as nat, |i: int| 0u8)
    }
}

impl Session {
    /// The source-symbol count `K` of the transfer.
    pub closed spec fn nsyms(&self) -> int {
        self.k as int
    }

    /// The file size announced by META.
    pub closed spec fn total_size(&self) -> int {
        self.size as int
    }

    /// The transfer tag this session listens for.
    pub closed spec fn transfer_tag(&self) -> u16 {
        self.tag
    }

    /// The requested content hash.
    pub closed spec fn want_hash(&self) -> Seq<u8> {
        self.hash@
    }

    /// Every symbol accepted so far, in arrival order.
    pub closed spec fn pushes(&self) -> Seq<(u32, Seq<u8>)> {
        dec_pushes(self.decoder)
    }

    /// The symbol length of the transfer, zero until the first symbol.
    pub closed spec fn symbol_size(&self) -> int {
        self.symbol_len as int
    }

    /// Bytes of accepted symbols so far.
    pub closed spec fn received_bytes(&self) -> int {
        self.bytes_received as int
    }

    /// Whether the decoder can reconstruct the block.
    pub closed spec fn is_complete(&self) -> bool {
        self.complete
    }

    /// Whether the stream was found malformed.
    pub closed spec fn is_failed(&self) -> bool {
        self.failed
    }

    /// The session's internal consistency.
    pub closed spec fn wf(&self) -> bool {
        &&& dec_nsyms(self.decoder) == self.k as nat
        &&& self.k <= 8192
        &&& self.symbol_len <= MAX_SYMBOL_LEN
        &&& (self.pushes().len() == 0 <==> self.symbol_len == 0)
        &&& forall|i: int|
            0 <= i < self.pushes().len() ==> (#[trigger] self.pushes()[i]).1.len()
                == self.symbol_len
        &&& self.bytes_received == self.pushes().len() * self.symbol_len
        &&& (!self.failed && !self.complete) ==> self.bytes_received <= self.k * self.symbol_len
        &&& (self.complete && self.k > 0) ==> spec_fully_specified(self.k as nat, self.pushes())
        &&& self.k == 0 ==> self.complete
    }

    /// Open a session for one transfer.
    ///
    /// `k` and `size` come from the META reply, `tag` is freshly drawn, and
    /// `hash` is the content hash being fetched.  A block of zero symbols
    /// has nothing to receive and is complete at once.  The symbol count is
    /// capped at 8192, the largest block the codec's systematic index
    /// covers; callers refuse larger META announcements.
    pub fn new(k: usize, size: usize, tag: u16, hash: Vec<u8>) -> (r: Session)
        requires
            k <= 8192,
        ensures
            r.wf(),
            r.nsyms() == k,
            r.total_size() == size,
            r.transfer_tag() == tag,
            r.want_hash() == hash@,
            r.pushes() == Seq::<(u32, Seq<u8>)>::empty(),
            r.received_bytes() == 0,
            r.symbol_size() == 0,
            r.is_complete() == (k == 0),
            !r.is_failed(),
    {
        Session {
            decoder: decoder_new(k),
            k,
            size,
            tag,
            hash,
            bytes_received: 0,
            symbol_len: 0,
            complete: k == 0,
            failed: false,
        }
    }

    /// Bytes of accepted symbols so far, as reported in resend requests.
    pub fn bytes_done(&self) -> (r: usize)
        ensures
            r == self.received_bytes(),
    {
        self.bytes_received
    }

    /// Feed one inbound UI payload to the session.
    ///
    /// Payloads shorter than the prefix, payloads of other transfer tags,
    /// empty or oversized symbols and symbols whose length disagrees with
    /// the transfer's symbol length leave the session untouched: frames of
    /// strangers never reach the decoder.
    pub fn on_payload(&mut self, payload: &[u8]) -> (r: SymbolStatus)
        requires
            old(self).wf(),
            !old(self).is_complete(),
            !old(self).is_failed(),
        ensures
            final(self).wf(),
            final(self).nsyms() == old(self).nsyms(),
            final(self).total_size() == old(self).total_size(),
            final(self).transfer_tag() == old(self).transfer_tag(),
            final(self).want_hash() == old(self).want_hash(),
            spec_parse_pdu(payload@) is None ==> (r is Ignored && *final(self) == *old(self)),
            spec_parse_pdu(payload@) matches Some((tag, esi, sym)) ==> {
                if tag != old(self).transfer_tag() {
                    r is Ignored && *final(self) == *old(self)
                } else if sym.len() == 0 || sym.len() > MAX_SYMBOL_LEN || (old(self).symbol_size()
                    != 0 && sym.len() != old(self).symbol_size()) {
                    r is Ignored && *final(self) == *old(self)
                } else {
                    &&& final(self).pushes() == old(self).pushes().push((esi as u32, sym))
                    &&& final(self).symbol_size() == sym.len()
                    &&& final(self).received_bytes() == old(self).received_bytes() + sym.len()
                    &&& (r is Complete <==> spec_fully_specified(
                        old(self).nsyms() as nat,
                        final(self).pushes(),
                    ))
                    &&& (r is Malformed <==> (!spec_fully_specified(
                        old(self).nsyms() as nat,
                        final(self).pushes(),
                    ) && old(self).received_bytes() + sym.len() > old(self).nsyms() * sym.len()))
                    &&& final(self).is_complete() == (r is Complete)
                    &&& final(self).is_failed() == (r is Malformed)
                    &&& (r is Accepted || r is Complete || r is Malformed)
                }
            },
    {
        let parsed = match parse_data_pdu(payload) {
            None => {
                return SymbolStatus::Ignored;
            },
            Some(p) => p,
        };
        if parsed.tag != self.tag {
            return SymbolStatus::Ignored;
        }
        let sl = parsed.symbol.len();
        if sl == 0 || sl > MAX_SYMBOL_LEN {
            return SymbolStatus::Ignored;
        }
        if self.symbol_len != 0 && sl != self.symbol_len {
            return SymbolStatus::Ignored;
        }
        proof {
            assert(self.k * sl <= 8192 * 32768) by (nonlinear_arith)
                requires
                    self.k <= 8192,
                    sl <= 32768,
            ;
            assert(self.bytes_received <= self.k * self.symbol_len);
            if self.symbol_len != 0 {
                assert(self.k * self.symbol_len == self.k * sl);
            } else {
                assert(self.pushes().len() == 0);
                assert(self.bytes_received == 0);
            }
        }
        decoder_push(&mut self.decoder, parsed.symbol.as_slice(), parsed.esi as u32);
        self.symbol_len = sl;
        self.bytes_received = self.bytes_received + sl;
        proof {
            assert(self.bytes_received == self.pushes().len() * self.symbol_len) by {
                let ghost n = old(self).pushes().len();
                assert(self.pushes().len() == n + 1);
                assert((n + 1) * sl == n * sl + sl) by (nonlinear_arith);
            }
        }
        if decoder_fully_specified(&self.decoder) {
            self.complete = true;
            return SymbolStatus::Complete;
        }
        if self.bytes_received > self.k * sl {
            self.failed = true;
            return SymbolStatus::Malformed;
        }
        SymbolStatus::Accepted
    }

    /// Decode the block, truncate it to the announced size, and verify the
    /// digest.  The bytes come back exactly when the decoder yields the
    /// block and it hashes to the requested hash; a digest disagreement is
    /// fatal, carrying both digests, and a decoder that yields nothing is
    /// fatal too.
    pub fn finish(&mut self) -> (r: Result<Vec<u8>, DownloaderError>)
        requires
            old(self).wf(),
            old(self).is_complete(),
        ensures
            ({
                let padded = if old(self).nsyms() == 0 {
                    Seq::<u8>::empty()
                } else {
                    spec_decoded(
                        old(self).nsyms() as nat,
                        old(self).pushes(),
                        (old(self).nsyms() * old(self).symbol_size()) as nat,
                    )
                };
                let data = spec_fit(padded, old(self).total_size());
                &&& (r is Ok ==> r->Ok_0@ == data && spec_sha256_hex(data) == old(
                    self,
                ).want_hash())
                &&& (r is Err ==> r->Err_0 is ChecksumMismatch || r->Err_0 is DecodeFailed)
                &&& ((r is Err && r->Err_0 is ChecksumMismatch) ==> spec_sha256_hex(data) != old(
                    self,
                ).want_hash() && r->Err_0->ChecksumMismatch_0@ == spec_sha256_hex(data)
                    && r->Err_0->ChecksumMismatch_1@ == old(self).want_hash())
                &&& (old(self).nsyms() == 0 ==> !(r is Err && r->Err_0 is DecodeFailed))
            }),
    {
        let mut block: Vec<u8>;
        if self.k == 0 {
            block = Vec::new();
        } else {
            proof {
                assert(self.k * self.symbol_len <= 8192 * 32768) by (nonlinear_arith)
                    requires
                        self.k <= 8192,
                        self.symbol_len <= 32768,
                ;
                assert forall|i: int| 0 <= i < self.pushes().len() implies (
                #[trigger] self.pushes()[i]).1.len() * (self.k as int) == (self.k as int) * (
                self.symbol_len as int) by {
                    assert(self.pushes()[i].1.len() == self.symbol_len);
                }
            }
            let len = self.k * self.symbol_len;
            block = match decoder_decode(&mut self.decoder, len) {
                Some(v) => v,
                None => {
                    return Err(DownloaderError::DecodeFailed);
                },
            };
        }
        let data = fit_to(block, self.size);
        let digest = sha256_hex(data.as_slice());
        if bytes_eq(digest.as_slice(), self.hash.as_slice()) {
            Ok(data)
        } else {
            Err(DownloaderError::ChecksumMismatch(digest, vstd::slice::slice_to_vec(
                self.hash.as_slice(),
            )))
        }
    }
}

/// Padding and truncation cancel out: a block padded with zeroes to a
/// multiple of its symbol count, then cut back to its own length, is the
/// block again, byte for byte.
pub proof fn lemma_padding_truncation(b: Seq<u8>, k: int)
    requires
        k >= 1,
    ensures
        spec_fit(crate::block::spec_pad(b, k), b.len() as int) == b,
        spec_fit(crate::block::spec_pad(b, k), b.len() as int).len() == b.len(),
{
    crate::block::lemma_pad_truncate(b, k);
}

/// Cut or zero-pad a buffer to length `n`.
fn fit_to(mut v: Vec<u8>, n: usize) -> (r: Vec<u8>)
    ensures
        r@ == spec_fit(v@, n as int),
{
    let ghost orig = v@;
    if n <= v.len() {
        v.truncate(n);
        proof {
            assert(v@ =~= spec_fit(orig, n as int));
        }
        v
    } else {
        while v.len() < n
            invariant
                orig.len() <= v@.len() <= n,
                v@.take(orig.len() as int) == orig,
                forall|i: int| orig.len() <= i < v@.len() ==> v@[i] == 0,
            decreases n - v@.len(),
        {
            let ghost before = v@;
            v.push(0);
            proof {
                assert(v@.take(orig.len() as int) =~= before.take(orig.len() as int));
            }
        }
        proof {
            assert(v@ =~= spec_fit(orig, n as int));
        }
        v
    }
}

} // verus!
