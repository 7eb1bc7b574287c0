//! The data payload framing: a 4-byte prefix `BE16(tag) || BE16(esi)` in
//! front of the raw symbol bytes.
//!
//! The tag disambiguates concurrent transfers on the shared broadcast medium;
//! the ESI identifies the encoding symbol.  Payloads shorter than the prefix
//! are rejected.

use vstd::prelude::*;
use vstd::slice::slice_subrange;
use vstd::slice::slice_to_vec;

verus! {

/// Big-endian bytes of a 16-bit integer.
pub open spec fn spec_be16(v: u16) -> Seq<u8> {
    seq![(v / 256) as u8, (v % 256) as u8]
}

/// On-air bytes of a data payload: tag, ESI, then the symbol.
pub open spec fn spec_data_pdu(tag: u16, esi: u16, sym: Seq<u8>) -> Seq<u8> {
    spec_be16(tag) + spec_be16(esi) + sym
}

/// The parse of a payload: `None` for payloads shorter than the prefix.
pub open spec fn spec_parse_pdu(p: Seq<u8>) -> Option<(u16, u16, Seq<u8>)> {
    if p.len() < 4 {
        None
    } else {
        Some(
            (
                (p[0] * 256 + p[1]) as u16,
                (p[2] * 256 + p[3]) as u16,
                p.skip(4),
            ),
        )
    }
}

/// A parsed data payload.
pub struct DataPdu {
    /// The 16-bit transfer tag the sender stamped on the payload.
    pub tag: u16,
    /// The encoding symbol identifier, as carried on the wire.
    pub esi: u16,
    /// The symbol bytes that follow the prefix.
    pub symbol: Vec<u8>,
}

/// Serialize a data payload.
pub fn build_data_pdu(tag: u16, esi: u16, sym: &[u8]) -> (r: Vec<u8>)
    ensures
        r@ == spec_data_pdu(tag, esi, sym@),
{
    let mut out: Vec<u8> = Vec::new();
    out.push((tag / 256) as u8);
    out.push((tag % 256) as u8);
    out.push((esi / 256) as u8);
    out.push((esi % 256) as u8);
    let mut i: usize = 0;
    while i < sym.len()
        invariant
            0 <= i <= sym@.len(),
            out@ == spec_be16(tag) + spec_be16(esi) + sym@.take(i as int),
        decreases sym@.len() - i,
    {
        out.push(sym[i]);
        proof {
            assert(sym@.take(i + 1) =~= sym@.take(i as int).push(sym@[i as int]));
            assert(out@ =~= spec_be16(tag) + spec_be16(esi) + sym@.take(i + 1));
        }
        i = i + 1;
    }
    proof {
        assert(sym@.take(sym@.len() as int) =~= sym@);
    }
    out
}

/// Parse a data payload; rejects anything shorter than the 4-byte prefix.
pub fn parse_data_pdu(p: &[u8]) -> (r: Option<DataPdu>)
    ensures
        r is Some <==> spec_parse_pdu(p@) is Some,
        r is Some ==> {
            let (tag, esi, sym) = spec_parse_pdu(p@)->0;
            r->0.tag == tag && r->0.esi == esi && r->0.symbol@ == sym
        },
{
    if p.len() < 4 {
        return None;
    }
    let tag: u16 = (p[0] as u16) * 256 + (p[1] as u16);
    let esi: u16 = (p[2] as u16) * 256 + (p[3] as u16);
    let rest = slice_subrange(p, 4, p.len());
    let symbol = slice_to_vec(rest);
    proof {
        assert(rest@ =~= p@.skip(4));
    }
    Some(DataPdu { tag, esi, symbol })
}

/// Parsing inverts serialization: the framing loses nothing.
pub proof fn lemma_pdu_roundtrip(tag: u16, esi: u16, sym: Seq<u8>)
    ensures
        spec_parse_pdu(spec_data_pdu(tag, esi, sym)) == Some((tag, esi, sym)),
{
    let p = spec_data_pdu(tag, esi, sym);
    assert(p.len() == 4 + sym.len());
    assert(p[0] == tag / 256 && p[1] == tag % 256);
    assert(p[2] == esi / 256 && p[3] == esi % 256);
    assert((tag / 256) * 256 + tag % 256 == tag);
    assert((esi / 256) * 256 + esi % 256 == esi);
    assert(p.skip(4) =~= sym);
}

} // verus!
