//! The ASCII command/response grammar carried in UI payloads.
//!
//! Clients send `L <tag>`, `M <hash>`, `G <tag> 0 <existing> <hash>` or
//! `GM <tag> <freq> <existing> <hash>`; servers answer with `m <hash> <K>
//! <size>` and with listings framed by `l <tag>` sentinel lines.  Payloads
//! that do not match the grammar are silently dropped, never an error: the
//! broadcast medium carries arbitrary garbage.

use vstd::prelude::*;
use vstd::string::StringExecFns;

use crate::bytes::append_bytes;
use crate::bytes::bytes_eq;
use crate::bytes::spec_split;
use crate::bytes::split_bytes;
use crate::num::all_digits;
use crate::num::dec_repr;
use crate::num::dec_value;
use crate::num::format_u64;
use crate::num::is_dec_digit;
use crate::num::parse_u16;
use crate::num::parse_u32;
use crate::num::parse_usize;

verus! {

/// A word byte: letter, digit or underscore, as in hex hashes.
pub open spec fn is_word_byte(b: u8) -> bool {
    is_dec_digit(b) || (65 <= b <= 90) || (97 <= b <= 122) || b == 95
}

/// Every byte of `s` is a word byte.
pub open spec fn all_word_bytes(s: Seq<u8>) -> bool {
    forall|i: int| 0 <= i < s.len() ==> is_word_byte(#[trigger] s[i])
}

/// A request a server acts on, as decoded from one UI payload.
#[derive(Debug)]
pub enum Request {
    /// `M <hash>`: report symbol count and size of the named file.
    Meta {
        /// Where the reply goes: the link-layer source of the request.
        dst: String,
        /// The hex content hash the client asks about.
        hash: Vec<u8>,
    },
    /// `G <tag> 0 <existing> <hash>` (or the GET half of `GM`): stream data
    /// symbols of the named file.
    Get {
        /// Where the reply goes.
        dst: String,
        /// The reserved frequency slot field, kept as received.
        frequency: Vec<u8>,
        /// The client's transfer tag, echoed on every data payload.
        tag: u16,
        /// How many bytes the client already holds; a hint to keep sending.
        existing: u32,
        /// The hex content hash of the wanted file.
        id: Vec<u8>,
    },
    /// `L <tag>`: send the directory listing.
    List {
        /// Where the reply goes.
        dst: String,
        /// The tag framing the listing reply.
        tag: u16,
    },
}

/// The mathematical shape of a request.
pub enum RequestV {
    /// See [`Request::Meta`].
    Meta {
        /// The link-layer source of the request.
        dst: Seq<char>,
        /// The requested hash.
        hash: Seq<u8>,
    },
    /// See [`Request::Get`].
    Get {
        /// The link-layer source of the request.
        dst: Seq<char>,
        /// The reserved slot field.
        frequency: Seq<u8>,
        /// The transfer tag.
        tag: u16,
        /// The byte-count hint.
        existing: u32,
        /// The requested hash.
        id: Seq<u8>,
    },
    /// See [`Request::List`].
    List {
        /// The link-layer source of the request.
        dst: Seq<char>,
        /// The tag framing the reply.
        tag: u16,
    },
}

impl View for Request {
    type V = RequestV;

    open spec fn view(&self) -> RequestV {
        match self {
            Request::Meta { dst, hash } => RequestV::Meta { dst: dst@, hash: hash@ },
            Request::Get { dst, frequency, tag, existing, id } => RequestV::Get {
                dst: dst@,
                frequency: frequency@,
                tag: *tag,
                existing: *existing,
                id: id@,
            },
            Request::List { dst, tag } => RequestV::List { dst: dst@, tag: *tag },
        }
    }
}

/// The five space-separated fields of a GET/GM command have the right shape.
pub open spec fn get_form_ok(f: Seq<Seq<u8>>) -> bool {
    &&& f.len() == 5
    &&& (f[0] == seq![71u8] || f[0] == seq![71u8, 77u8])
    &&& (f[0] == seq![71u8] ==> f[2] == seq![48u8])
    &&& f[2].len() >= 1
    &&& f[1].len() >= 1 && all_digits(f[1])
    &&& f[3].len() >= 1 && all_digits(f[3])
    &&& f[4].len() >= 1 && all_word_bytes(f[4])
}

/// The numeric fields of a well-formed GET/GM command fit their types.
pub open spec fn get_values_ok(f: Seq<Seq<u8>>) -> bool {
    dec_value(f[1]) <= u16::MAX && dec_value(f[3]) <= u32::MAX
}

/// The two fields of a META command have the right shape.
pub open spec fn meta_form_ok(f: Seq<Seq<u8>>) -> bool {
    f.len() == 2 && f[0] == seq![77u8] && f[1].len() >= 1 && all_word_bytes(f[1])
}

/// The two fields of a LIST command have the right shape.
pub open spec fn list_form_ok(f: Seq<Seq<u8>>) -> bool {
    f.len() == 2 && f[0] == seq![76u8] && f[1].len() >= 1 && all_digits(f[1])
}

/// The requests one well-formed GET/GM command stands for: the GET itself,
/// preceded for GM by the implied META.
pub open spec fn spec_get_requests(src: Seq<char>, f: Seq<Seq<u8>>) -> Seq<RequestV> {
    if get_values_ok(f) {
        let get = RequestV::Get {
            dst: src,
            frequency: f[2],
            tag: dec_value(f[1]) as u16,
            existing: dec_value(f[3]) as u32,
            id: f[4],
        };
        if f[0] == seq![71u8, 77u8] {
            seq![RequestV::Meta { dst: src, hash: f[4] }, get]
        } else {
            seq![get]
        }
    } else {
        Seq::empty()
    }
}

/// What one UI payload from `src` asks for; the empty sequence when the
/// payload matches no command.
pub open spec fn spec_parse_request(src: Seq<char>, s: Seq<u8>) -> Seq<RequestV> {
    let f = spec_split(s, 32);
    if get_form_ok(f) {
        spec_get_requests(src, f)
    } else if meta_form_ok(f) {
        seq![RequestV::Meta { dst: src, hash: f[1] }]
    } else if list_form_ok(f) {
        if dec_value(f[1]) <= u16::MAX {
            seq![RequestV::List { dst: src, tag: dec_value(f[1]) as u16 }]
        } else {
            Seq::empty()
        }
    } else {
        Seq::empty()
    }
}

/// Every byte of `s` is a decimal digit and `s` is non-empty.
fn check_digits(s: &[u8]) -> (r: bool)
    ensures
        r == (s@.len() > 0 && all_digits(s@)),
{
    if s.len() == 0 {
        return false;
    }
    let mut i: usize = 0;
    while i < s.len()
        invariant
            0 <= i <= s@.len(),
            forall|j: int| 0 <= j < i ==> is_dec_digit(#[trigger] s@[j]),
        decreases s@.len() - i,
    {
        let b = s[i];
        if b < 48 || b > 57 {
            return false;
        }
        i = i + 1;
    }
    true
}

/// Every byte of `s` is a word byte and `s` is non-empty.
fn check_word(s: &[u8]) -> (r: bool)
    ensures
        r == (s@.len() > 0 && all_word_bytes(s@)),
{
    if s.len() == 0 {
        return false;
    }
    let mut i: usize = 0;
    while i < s.len()
        invariant
            0 <= i <= s@.len(),
            forall|j: int| 0 <= j < i ==> is_word_byte(#[trigger] s@[j]),
        decreases s@.len() - i,
    {
        let b = s[i];
        let ok = (48 <= b && b <= 57) || (65 <= b && b <= 90) || (97 <= b && b <= 122) || b == 95;
        if !ok {
            return false;
        }
        i = i + 1;
    }
    true
}

/// Decode the fields of a GET or GM command into requests.
///
/// A tag that is no 16-bit number or an `existing` count that is no 32-bit
/// number makes the whole command fall away, as any unparsable payload does.
pub fn parse_get_request(
    cmd: &[u8],
    dst: &str,
    frequency: &[u8],
    tag: &[u8],
    existing: &[u8],
    hash: &[u8],
) -> (r: Vec<Request>)
    requires
        get_form_ok(seq![cmd@, tag@, frequency@, existing@, hash@]),
    ensures
        r@.map_values(|q: Request| q@) == spec_get_requests(
            dst@,
            seq![cmd@, tag@, frequency@, existing@, hash@],
        ),
{
    let ghost f = seq![cmd@, tag@, frequency@, existing@, hash@];
    let mut out: Vec<Request> = Vec::new();
    let tag_num = match parse_u16(tag) {
        Some(v) => v,
        None => {
            assert(!get_values_ok(f)) by {
                crate::num::lemma_dec_value_nonneg(tag@);
            }
            assert(out@.map_values(|q: Request| q@) =~= spec_get_requests(dst@, f));
            return out;
        },
    };
    let existing_num = match parse_u32(existing) {
        Some(v) => v,
        None => {
            assert(!get_values_ok(f)) by {
                crate::num::lemma_dec_value_nonneg(existing@);
            }
            assert(out@.map_values(|q: Request| q@) =~= spec_get_requests(dst@, f));
            return out;
        },
    };
    if cmd.len() == 2 {
        assert(cmd@ == seq![71u8, 77u8]);
        out.push(
            Request::Meta { dst: String::from_str(dst), hash: vstd::slice::slice_to_vec(hash) },
        );
    } else {
        assert(cmd@ == seq![71u8]);
    }
    out.push(
        Request::Get {
            dst: String::from_str(dst),
            frequency: vstd::slice::slice_to_vec(frequency),
            tag: tag_num,
            existing: existing_num,
            id: vstd::slice::slice_to_vec(hash),
        },
    );
    assert(out@.map_values(|q: Request| q@) =~= spec_get_requests(dst@, f));
    out
}

/// Decode one UI payload from `src` into the requests it asks for.
///
/// Anything that matches no command of the grammar decodes to no requests at
/// all: garbage on the broadcast medium is dropped, never an error.
pub fn parse_request(src: &str, s: &[u8]) -> (r: Vec<Request>)
    ensures
        r@.map_values(|q: Request| q@) == spec_parse_request(src@, s@),
{
    let fields = split_bytes(s, 32);
    let ghost f = spec_split(s@, 32);
    proof {
        assert(fields.deep_view() == f);
        assert(forall|k: int| 0 <= k < fields@.len() ==> (#[trigger] fields@[k])@ == f[k]);
    }
    if fields.len() == 5 {
        let cmd = &fields[0];
        let is_g = cmd.len() == 1 && cmd[0] == 71;
        let is_gm = cmd.len() == 2 && cmd[0] == 71 && cmd[1] == 77;
        proof {
            if is_g {
                assert(cmd@ =~= seq![71u8]);
            }
            if is_gm {
                assert(cmd@ =~= seq![71u8, 77u8]);
            }
        }
        let freq = &fields[2];
        let freq_ok = if is_g {
            freq.len() == 1 && freq[0] == 48
        } else {
            freq.len() >= 1
        };
        proof {
            if is_g && freq_ok {
                assert(freq@ =~= seq![48u8]);
            }
            if !is_g && cmd@ == seq![71u8] {
                assert(cmd@.len() == 1 && cmd@[0] == 71);
            }
            if !is_gm && cmd@ == seq![71u8, 77u8] {
                assert(cmd@.len() == 2 && cmd@[0] == 71 && cmd@[1] == 77);
            }
        }
        if (is_g || is_gm) && freq_ok && check_digits(&fields[1]) && check_digits(&fields[3])
            && check_word(&fields[4]) {
            assert(get_form_ok(f));
            let r = parse_get_request(
                &fields[0],
                src,
                &fields[2],
                &fields[1],
                &fields[3],
                &fields[4],
            );
            assert(seq![fields@[0]@, fields@[1]@, fields@[2]@, fields@[3]@, fields@[4]@] =~= f);
            return r;
        }
        assert(!get_form_ok(f));
        let out: Vec<Request> = Vec::new();
        assert(out@.map_values(|q: Request| q@) =~= spec_parse_request(src@, s@));
        return out;
    }
    let mut out: Vec<Request> = Vec::new();
    if fields.len() == 2 {
        let cmd = &fields[0];
        let is_m = cmd.len() == 1 && cmd[0] == 77;
        let is_l = cmd.len() == 1 && cmd[0] == 76;
        proof {
            if is_m {
                assert(cmd@ =~= seq![77u8]);
            }
            if is_l {
                assert(cmd@ =~= seq![76u8]);
            }
            if !is_m && cmd@ == seq![77u8] {
                assert(cmd@.len() == 1 && cmd@[0] == 77);
            }
            if !is_l && cmd@ == seq![76u8] {
                assert(cmd@.len() == 1 && cmd@[0] == 76);
            }
        }
        if is_m && check_word(&fields[1]) {
            assert(meta_form_ok(f));
            out.push(
                Request::Meta {
                    dst: String::from_str(src),
                    hash: vstd::slice::slice_to_vec(&fields[1]),
                },
            );
            assert(out@.map_values(|q: Request| q@) =~= spec_parse_request(src@, s@));
            return out;
        }
        if is_l && check_digits(&fields[1]) {
            assert(list_form_ok(f));
            match parse_u16(&fields[1]) {
                Some(tag) => {
                    out.push(Request::List { dst: String::from_str(src), tag });
                },
                None => {
                    proof {
                        crate::num::lemma_dec_value_nonneg(f[1]);
                    }
                },
            }
            assert(out@.map_values(|q: Request| q@) =~= spec_parse_request(src@, s@));
            return out;
        }
    }
    assert(!get_form_ok(f));
    assert(!meta_form_ok(f));
    assert(!list_form_ok(f));
    assert(out@.map_values(|q: Request| q@) =~= spec_parse_request(src@, s@));
    out
}

/// The `M <hash>` command.
pub open spec fn spec_meta_command(hash: Seq<u8>) -> Seq<u8> {
    seq![77u8, 32u8] + hash
}

/// The `L <tag>` command.
pub open spec fn spec_list_command(tag: u16) -> Seq<u8> {
    seq![76u8, 32u8] + dec_repr(tag as int)
}

/// The `G <tag> 0 <existing> <hash>` command.
pub open spec fn spec_get_command(tag: u16, existing: int, hash: Seq<u8>) -> Seq<u8> {
    seq![71u8, 32u8] + dec_repr(tag as int) + seq![32u8, 48u8, 32u8] + dec_repr(existing)
        + seq![32u8] + hash
}

/// The `m <hash> <K> <size>` reply.
pub open spec fn spec_meta_reply(hash: Seq<u8>, k: int, size: int) -> Seq<u8> {
    seq![109u8, 32u8] + hash + seq![32u8] + dec_repr(k) + seq![32u8] + dec_repr(size)
}

/// The `l <tag>` sentinel line that frames a listing and, alone, ends it.
pub open spec fn spec_list_sentinel(tag: u16) -> Seq<u8> {
    seq![108u8, 32u8] + dec_repr(tag as int)
}

/// Build the `M <hash>` command.
pub fn meta_command(hash: &[u8]) -> (r: Vec<u8>)
    ensures
        r@ == spec_meta_command(hash@),
{
    let mut out: Vec<u8> = Vec::new();
    out.push(77);
    out.push(32);
    append_bytes(&mut out, hash);
    proof {
        assert(out@ =~= spec_meta_command(hash@));
    }
    out
}

/// Build the `L <tag>` command.
pub fn list_command(tag: u16) -> (r: Vec<u8>)
    ensures
        r@ == spec_list_command(tag),
{
    let mut out: Vec<u8> = Vec::new();
    out.push(76);
    out.push(32);
    let digits = format_u64(tag as u64);
    append_bytes(&mut out, digits.as_slice());
    proof {
        assert(out@ =~= spec_list_command(tag));
    }
    out
}

/// Build the `G <tag> 0 <existing> <hash>` command, with which a transfer
/// both starts (`existing` zero) and resumes after a timeout (`existing` the
/// bytes received so far).
pub fn get_command(tag: u16, existing: usize, hash: &[u8]) -> (r: Vec<u8>)
    ensures
        r@ == spec_get_command(tag, existing as int, hash@),
{
    let mut out: Vec<u8> = Vec::new();
    out.push(71);
    out.push(32);
    let digits = format_u64(tag as u64);
    append_bytes(&mut out, digits.as_slice());
    out.push(32);
    out.push(48);
    out.push(32);
    let digits = format_u64(existing as u64);
    append_bytes(&mut out, digits.as_slice());
    out.push(32);
    append_bytes(&mut out, hash);
    proof {
        assert(out@ =~= spec_get_command(tag, existing as int, hash@));
    }
    out
}

/// Build the `m <hash> <K> <size>` reply.
pub fn meta_reply(hash: &[u8], k: usize, size: usize) -> (r: Vec<u8>)
    ensures
        r@ == spec_meta_reply(hash@, k as int, size as int),
{
    let mut out: Vec<u8> = Vec::new();
    out.push(109);
    out.push(32);
    append_bytes(&mut out, hash);
    out.push(32);
    let digits = format_u64(k as u64);
    append_bytes(&mut out, digits.as_slice());
    out.push(32);
    let digits = format_u64(size as u64);
    append_bytes(&mut out, digits.as_slice());
    proof {
        assert(out@ =~= spec_meta_reply(hash@, k as int, size as int));
    }
    out
}

/// Build the `l <tag>` sentinel line.
pub fn list_sentinel(tag: u16) -> (r: Vec<u8>)
    ensures
        r@ == spec_list_sentinel(tag),
{
    let mut out: Vec<u8> = Vec::new();
    out.push(108);
    out.push(32);
    let digits = format_u64(tag as u64);
    append_bytes(&mut out, digits.as_slice());
    proof {
        assert(out@ =~= spec_list_sentinel(tag));
    }
    out
}

/// What a well-formed `m <hash> <K> <size>` reply for the wanted hash
/// carries: the symbol count and the file size.  `None` when the payload is
/// no such reply, echoes another hash, or carries oversized numbers.
pub open spec fn spec_meta_reply_values(s: Seq<u8>, hash: Seq<u8>) -> Option<(int, int)> {
    let f = spec_split(s, 32);
    if f.len() == 4 && f[0] == seq![109u8] && f[1].len() >= 1 && all_word_bytes(f[1]) && f[1]
        == hash && f[2].len() >= 1 && all_digits(f[2]) && f[3].len() >= 1 && all_digits(f[3])
        && dec_value(f[2]) <= usize::MAX && dec_value(f[3]) <= usize::MAX {
        Some((dec_value(f[2]), dec_value(f[3])))
    } else {
        None
    }
}

/// Decode a META reply for the wanted hash; replies for other hashes and
/// payloads of any other shape are `None` and are skipped by the client.
pub fn parse_meta_reply(s: &[u8], hash: &[u8]) -> (r: Option<(usize, usize)>)
    ensures
        r is Some <==> spec_meta_reply_values(s@, hash@) is Some,
        r is Some ==> Some(((r->0).0 as int, (r->0).1 as int)) == spec_meta_reply_values(s@, hash@),
{
    let fields = split_bytes(s, 32);
    let ghost f = spec_split(s@, 32);
    proof {
        assert(forall|k: int| 0 <= k < fields@.len() ==> (#[trigger] fields@[k])@ == f[k]);
    }
    if fields.len() != 4 {
        return None;
    }
    let cmd = &fields[0];
    if !(cmd.len() == 1 && cmd[0] == 109) {
        proof {
            if f[0] == seq![109u8] {
                assert(cmd@.len() == 1 && cmd@[0] == 109);
            }
        }
        return None;
    }
    proof {
        assert(cmd@ =~= seq![109u8]);
    }
    if !check_word(&fields[1]) {
        return None;
    }
    if !bytes_eq(fields[1].as_slice(), hash) {
        return None;
    }
    let k = match parse_usize(&fields[2]) {
        Some(v) => v,
        None => {
            return None;
        },
    };
    let size = match parse_usize(&fields[3]) {
        Some(v) => v,
        None => {
            return None;
        },
    };
    Some((k, size))
}

/// The lines of a textual payload, the final line ending optional.
pub open spec fn spec_lines(s: Seq<u8>) -> Seq<Seq<u8>> {
    let f = spec_split(s, 10);
    if f.len() >= 1 && f.last().len() == 0 {
        f.drop_last()
    } else {
        f
    }
}

/// How one inbound payload relates to an awaited listing.
#[derive(Debug)]
pub enum ListReply {
    /// The bare sentinel `l <tag>`: the listing is over.
    End,
    /// A listing framed by the right sentinel line; holds the entry lines.
    Entries {
        /// One line per directory entry: `<hash> <name>`.
        lines: Vec<Vec<u8>>,
    },
    /// Some other payload; the client keeps waiting.
    NoMatch,
}

/// Classify one inbound payload while a listing with `tag` is awaited.
pub fn classify_list_reply(s: &[u8], tag: u16) -> (r: ListReply)
    ensures
        r is End <==> s@ == spec_list_sentinel(tag),
        r is Entries <==> (s@ != spec_list_sentinel(tag) && spec_lines(s@).len() >= 1 && spec_lines(
            s@,
        )[0] == spec_list_sentinel(tag)),
        r matches ListReply::Entries { lines } ==> lines.deep_view() == spec_lines(s@).skip(1),
{
    let sent = list_sentinel(tag);
    if bytes_eq(s, sent.as_slice()) {
        return ListReply::End;
    }
    let mut lines = split_bytes(s, 10);
    let ghost f = spec_split(s@, 10);
    proof {
        crate::bytes::lemma_split_len(s@, 10);
        assert(forall|k: int| 0 <= k < lines@.len() ==> (#[trigger] lines@[k])@ == f[k]);
    }
    if lines[lines.len() - 1].len() == 0 {
        let ghost before = lines@;
        lines.pop();
        proof {
            assert(lines@ =~= before.drop_last());
            assert(forall|k: int|
                0 <= k < lines@.len() ==> (#[trigger] lines@[k])@ == spec_lines(s@)[k]);
        }
    } else {
        proof {
            assert(spec_lines(s@) == f);
        }
    }
    assert(lines@.len() == spec_lines(s@).len());
    if lines.len() == 0 {
        return ListReply::NoMatch;
    }
    if !bytes_eq(lines[0].as_slice(), sent.as_slice()) {
        return ListReply::NoMatch;
    }
    let ghost before = lines@;
    lines.remove(0);
    proof {
        assert(lines@ =~= before.skip(1));
        assert(lines.deep_view() =~~= spec_lines(s@).skip(1));
    }
    ListReply::Entries { lines }
}

/// Digit runs and word tokens contain no space, so they survive splitting.
proof fn lemma_token_sep_free(t: Seq<u8>)
    requires
        all_digits(t) || all_word_bytes(t),
    ensures
        forall|j: int| 0 <= j < t.len() ==> t[j] != 32,
{
    assert forall|j: int| 0 <= j < t.len() implies t[j] != 32 by {
        if all_digits(t) {
            assert(is_dec_digit(t[j]));
        } else {
            assert(is_word_byte(t[j]));
        }
    }
}

/// A LIST command always parses back to the single LIST request it stands
/// for: what the client speaks, the server reads.
pub proof fn lemma_list_command_parses(src: Seq<char>, tag: u16)
    ensures
        spec_parse_request(src, spec_list_command(tag)) == seq![
            RequestV::List { dst: src, tag },
        ],
{
    let d = dec_repr(tag as int);
    crate::num::lemma_dec_repr_value(tag as int);
    lemma_token_sep_free(d);
    assert(spec_list_command(tag) =~= seq![76u8] + seq![32u8] + d);
    crate::bytes::lemma_split_concat(seq![76u8], d, 32);
    crate::bytes::lemma_split_whole(d, 32);
    let f = spec_split(spec_list_command(tag), 32);
    assert(f =~~= seq![seq![76u8], d]);
    assert(list_form_ok(f));
    assert(!get_form_ok(f));
    assert(!meta_form_ok(f));
    assert(dec_value(f[1]) == tag);
    assert(spec_parse_request(src, spec_list_command(tag)) =~= seq![
        RequestV::List { dst: src, tag },
    ]);
}

/// A META command always parses back to the single META request it stands
/// for.
pub proof fn lemma_meta_command_parses(src: Seq<char>, hash: Seq<u8>)
    requires
        hash.len() >= 1,
        all_word_bytes(hash),
    ensures
        spec_parse_request(src, spec_meta_command(hash)) == seq![
            RequestV::Meta { dst: src, hash },
        ],
{
    lemma_token_sep_free(hash);
    assert(spec_meta_command(hash) =~= seq![77u8] + seq![32u8] + hash);
    crate::bytes::lemma_split_concat(seq![77u8], hash, 32);
    crate::bytes::lemma_split_whole(hash, 32);
    let f = spec_split(spec_meta_command(hash), 32);
    assert(f =~~= seq![seq![77u8], hash]);
    assert(meta_form_ok(f));
    assert(!get_form_ok(f));
    assert(spec_parse_request(src, spec_meta_command(hash)) =~= seq![
        RequestV::Meta { dst: src, hash },
    ]);
}

/// A GET command always parses back to the single GET request it stands
/// for, with the reserved slot zero and the same tag, byte count and hash.
pub proof fn lemma_get_command_parses(src: Seq<char>, tag: u16, existing: int, hash: Seq<u8>)
    requires
        hash.len() >= 1,
        all_word_bytes(hash),
        0 <= existing <= u32::MAX,
    ensures
        spec_parse_request(src, spec_get_command(tag, existing, hash)) == seq![
            RequestV::Get {
                dst: src,
                frequency: seq![48u8],
                tag,
                existing: existing as u32,
                id: hash,
            },
        ],
{
    let dt = dec_repr(tag as int);
    let de = dec_repr(existing);
    crate::num::lemma_dec_repr_value(tag as int);
    crate::num::lemma_dec_repr_value(existing);
    lemma_token_sep_free(dt);
    lemma_token_sep_free(de);
    lemma_token_sep_free(hash);
    let rest3 = de + seq![32u8] + hash;
    let rest2 = seq![48u8] + seq![32u8] + rest3;
    let rest1 = dt + seq![32u8] + rest2;
    assert(spec_get_command(tag, existing, hash) =~= seq![71u8] + seq![32u8] + rest1);
    crate::bytes::lemma_split_concat(seq![71u8], rest1, 32);
    crate::bytes::lemma_split_concat(dt, rest2, 32);
    crate::bytes::lemma_split_concat(seq![48u8], rest3, 32);
    crate::bytes::lemma_split_concat(de, hash, 32);
    crate::bytes::lemma_split_whole(hash, 32);
    let f = spec_split(spec_get_command(tag, existing, hash), 32);
    assert(f =~~= seq![seq![71u8], dt, seq![48u8], de, hash]);
    assert(get_form_ok(f));
    assert(get_values_ok(f));
    assert(dec_value(f[1]) == tag && dec_value(f[3]) == existing);
    assert(f[0] != seq![71u8, 77u8]);
    assert(spec_parse_request(src, spec_get_command(tag, existing, hash)) =~= seq![
        RequestV::Get {
            dst: src,
            frequency: seq![48u8],
            tag,
            existing: existing as u32,
            id: hash,
        },
    ]);
}

/// A META reply for a hash always parses back, for that hash, to the exact
/// symbol count and size it announced.
pub proof fn lemma_meta_reply_parses(hash: Seq<u8>, k: int, size: int)
    requires
        hash.len() >= 1,
        all_word_bytes(hash),
        0 <= k <= usize::MAX,
        0 <= size <= usize::MAX,
    ensures
        spec_meta_reply_values(spec_meta_reply(hash, k, size), hash) == Some((k, size)),
{
    let dk = dec_repr(k);
    let ds = dec_repr(size);
    crate::num::lemma_dec_repr_value(k);
    crate::num::lemma_dec_repr_value(size);
    lemma_token_sep_free(dk);
    lemma_token_sep_free(ds);
    lemma_token_sep_free(hash);
    let rest2 = dk + seq![32u8] + ds;
    let rest1 = hash + seq![32u8] + rest2;
    assert(spec_meta_reply(hash, k, size) =~= seq![109u8] + seq![32u8] + rest1);
    crate::bytes::lemma_split_concat(seq![109u8], rest1, 32);
    crate::bytes::lemma_split_concat(hash, rest2, 32);
    crate::bytes::lemma_split_concat(dk, ds, 32);
    crate::bytes::lemma_split_whole(ds, 32);
    let f = spec_split(spec_meta_reply(hash, k, size), 32);
    assert(f =~~= seq![seq![109u8], hash, dk, ds]);
    assert(dec_value(f[2]) == k && dec_value(f[3]) == size);
}

} // verus!
