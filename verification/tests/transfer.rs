// Whole transfers: encode on the server, decode in a client session,
// verify the digest.

use airfile::block::emission_budget;
use airfile::block::max_source_syms;
use airfile::block::pacing_millis;
use airfile::block::pad_block;
use airfile::client::DownloaderError;
use airfile::client::Session;
use airfile::client::SymbolStatus;
use airfile::command::get_command;
use airfile::command::parse_meta_reply;
use airfile::pdu::parse_data_pdu;
use airfile::server::encode_block_symbols;
use airfile::server::handle_get;
use airfile::server::handle_meta;
use airfile::server::UploaderError;

fn file_bytes(n: usize) -> Vec<u8> {
    (0..n).map(|i| ((i * 31 + 7) % 251) as u8).collect()
}

fn hex_hash(data: &[u8]) -> Vec<u8> {
    sha256::digest(data).into_bytes()
}

fn feed_all(sess: &mut Session, frames: &[Vec<u8>]) -> SymbolStatus {
    let mut last = SymbolStatus::Ignored;
    for f in frames {
        last = sess.on_payload(f);
        if matches!(last, SymbolStatus::Complete | SymbolStatus::Malformed) {
            break;
        }
    }
    last
}

// A 6-byte file: K = 1, one source symbol carries the whole block.
#[test]
fn single_small_file() {
    let content = b"Hello\n".to_vec();
    let hash_str = sha256::digest(&content[..]);
    assert!(hash_str.starts_with("66a045"));
    let hash = hash_str.clone().into_bytes();

    let reply = handle_meta(&content, &hash, 200);
    assert_eq!(reply, format!("m {} 1 6", hash_str).into_bytes());
    assert_eq!(parse_meta_reply(&reply, &hash), Some((1, 6)));

    assert_eq!(max_source_syms(6, 200), 1);
    let padded = pad_block(&content, 1);
    assert_eq!(padded, content);
    let frames = encode_block_symbols(&padded, 1, &vec![0u16], 99).unwrap();
    assert_eq!(frames[0].len(), 4 + 6);
    let mut sess = Session::new(1, 6, 99, hash.clone());
    assert!(matches!(sess.on_payload(&frames[0]), SymbolStatus::Complete));
    assert_eq!(sess.finish().unwrap(), content);
}

// The full GET path for the small file: the emission budget is two
// payloads, each tagged for the transfer and inside the ESI space.
#[test]
fn small_file_emission_shape() {
    let content = b"Hello\n".to_vec();
    let frames = handle_get(&content, 200, 5, 7).unwrap();
    assert_eq!(frames.len(), 2);
    for f in &frames {
        let p = parse_data_pdu(f).unwrap();
        assert_eq!(p.tag, 7);
        assert!((p.esi as usize) < 1 + 5);
    }
}

// A 3684-byte file at packet size 200: K = 19, the server pads to 3686,
// nineteen distinct source symbols decode the block, and the truncated
// result hashes to the requested hash.
#[test]
fn mid_size_file_round_trip() {
    let content = file_bytes(3684);
    let hash = hex_hash(&content);
    assert_eq!(max_source_syms(3684, 200), 19);
    let padded = pad_block(&content, 19);
    assert_eq!(padded.len(), 3686);
    assert_eq!(&padded[..3684], &content[..]);
    assert_eq!(&padded[3684..], &[0u8, 0u8][..]);

    let esis: Vec<u16> = (0..19).collect();
    let frames = encode_block_symbols(&padded, 19, &esis, 5).unwrap();
    let mut sess = Session::new(19, 3684, 5, hash.clone());
    assert!(matches!(feed_all(&mut sess, &frames), SymbolStatus::Complete));
    let out = sess.finish().unwrap();
    assert_eq!(out.len(), 3684);
    assert_eq!(out, content);
}

// Round trips across packet sizes and repair budgets, with a repair symbol
// in the mix.
#[test]
fn round_trip_configurations() {
    let content = file_bytes(3684);
    let hash = hex_hash(&content);
    for &(packet_size, repair) in &[(50usize, 10usize), (200, 50), (1000, 10), (1000, 50)] {
        let k = max_source_syms(content.len(), packet_size);
        let padded = pad_block(&content, k);
        let mut esis: Vec<u16> = vec![(k + repair - 1) as u16];
        for e in 0..k as u16 {
            esis.push(e);
        }
        let frames = encode_block_symbols(&padded, k, &esis, 8).unwrap();
        let mut sess = Session::new(k, content.len(), 8, hash.clone());
        assert!(matches!(feed_all(&mut sess, &frames), SymbolStatus::Complete));
        assert_eq!(sess.finish().unwrap(), content);
    }
}

// Any delivery order yields the same bytes.
#[test]
fn reordered_delivery_same_bytes() {
    let content = file_bytes(1000);
    let hash = hex_hash(&content);
    let k = max_source_syms(1000, 200);
    assert_eq!(k, 5);
    let padded = pad_block(&content, k);
    let forward: Vec<u16> = (0..5).collect();
    let backward: Vec<u16> = (0..5).rev().collect();
    let rotated: Vec<u16> = vec![2, 3, 4, 0, 1];
    let mut outputs: Vec<Vec<u8>> = Vec::new();
    for esis in [forward, backward, rotated] {
        let frames = encode_block_symbols(&padded, k, &esis, 4).unwrap();
        let mut sess = Session::new(k, 1000, 4, hash.clone());
        assert!(matches!(feed_all(&mut sess, &frames), SymbolStatus::Complete));
        outputs.push(sess.finish().unwrap());
    }
    assert_eq!(outputs[0], content);
    assert_eq!(outputs[1], content);
    assert_eq!(outputs[2], content);
}

// Duplicate ESIs are harmless: the decoder deduplicates.
#[test]
fn duplicate_symbols_are_harmless() {
    let content = file_bytes(1000);
    let hash = hex_hash(&content);
    let k = 4;
    let padded = pad_block(&content, k);
    let esis: Vec<u16> = vec![0, 0, 1, 2, 3];
    let frames = encode_block_symbols(&padded, k, &esis, 4).unwrap();
    let mut sess = Session::new(k, 1000, 4, hash.clone());
    assert!(matches!(feed_all(&mut sess, &frames), SymbolStatus::Complete));
    assert_eq!(sess.finish().unwrap(), content);
}

// Frames of another transfer tag, short payloads and ill-sized symbols
// never touch the decoder state.
#[test]
fn tag_isolation() {
    let content = file_bytes(1000);
    let hash = hex_hash(&content);
    let k = 4;
    let padded = pad_block(&content, k);
    let esis: Vec<u16> = (0..4).collect();
    let own = encode_block_symbols(&padded, k, &esis, 4).unwrap();
    let foreign = encode_block_symbols(&padded, k, &esis, 5).unwrap();

    let mut sess = Session::new(k, 1000, 4, hash.clone());
    assert!(matches!(sess.on_payload(&foreign[0]), SymbolStatus::Ignored));
    assert!(matches!(sess.on_payload(b"ab"), SymbolStatus::Ignored));
    assert!(matches!(sess.on_payload(&[0, 4, 0, 0]), SymbolStatus::Ignored));
    assert_eq!(sess.bytes_done(), 0);
    assert!(matches!(feed_all(&mut sess, &own), SymbolStatus::Complete));
    assert_eq!(sess.finish().unwrap(), content);
}

// A tampered symbol with a valid tag and ESI still decodes, but the digest
// disagrees and the mismatch is fatal.
#[test]
fn tampered_delivery_fails_checksum() {
    let content = file_bytes(1000);
    let hash = hex_hash(&content);
    let k = 5;
    let padded = pad_block(&content, k);
    let esis: Vec<u16> = (0..5).collect();
    let mut frames = encode_block_symbols(&padded, k, &esis, 4).unwrap();
    frames[2][10] ^= 0x55;
    let mut sess = Session::new(k, 1000, 4, hash.clone());
    assert!(matches!(feed_all(&mut sess, &frames), SymbolStatus::Complete));
    match sess.finish() {
        Err(DownloaderError::ChecksumMismatch(actual, expected)) => {
            assert_eq!(expected, hash);
            assert_eq!(actual.len(), 64);
            assert_ne!(actual, hash);
        },
        other => panic!("expected a checksum mismatch, got {:?}", other.map(|v| v.len())),
    }
}

// Loss recovery: with every other frame lost, two GET cycles still deliver
// all nineteen source symbols and the download completes.
#[test]
fn loss_recovery_two_cycles() {
    let content = file_bytes(3684);
    let hash = hex_hash(&content);
    let k: usize = 19;
    let padded = pad_block(&content, k);
    assert_eq!(emission_budget(padded.len(), 200), 23);

    let mut sess = Session::new(k, 3684, 77, hash.clone());
    let first_request = get_command(77, sess.bytes_done(), &hash);
    assert_eq!(&first_request[..8], b"G 77 0 0");

    // Cycle one: 24 symbols on the air, the even positions lost; the odd
    // positions carry source symbols 0..12.
    let mut cycle1: Vec<u16> = Vec::new();
    for i in 0..24u16 {
        if i % 2 == 0 {
            cycle1.push(20 + i / 2);
        } else {
            cycle1.push((i - 1) / 2);
        }
    }
    let frames1 = encode_block_symbols(&padded, k, &cycle1, 77).unwrap();
    for (i, f) in frames1.iter().enumerate() {
        if i % 2 == 1 {
            assert!(matches!(sess.on_payload(f), SymbolStatus::Accepted));
        }
    }
    assert_eq!(sess.bytes_done(), 12 * 194);

    // Timeout: the client resends GET with its byte count.
    let resend = get_command(77, sess.bytes_done(), &hash);
    let mut expected = format!("G 77 0 {} ", 12 * 194).into_bytes();
    expected.extend_from_slice(&hash);
    assert_eq!(resend, expected);

    // Cycle two: the odd positions carry the missing source symbols 12..19.
    let mut cycle2: Vec<u16> = Vec::new();
    for i in 0..24u16 {
        if i % 2 == 1 && (i - 1) / 2 < 7 {
            cycle2.push(12 + (i - 1) / 2);
        } else {
            cycle2.push(40 + i / 2);
        }
    }
    let frames2 = encode_block_symbols(&padded, k, &cycle2, 77).unwrap();
    let mut complete = false;
    for (i, f) in frames2.iter().enumerate() {
        if i % 2 == 1 {
            if matches!(sess.on_payload(f), SymbolStatus::Complete) {
                complete = true;
                break;
            }
        }
    }
    assert!(complete);
    assert_eq!(sess.finish().unwrap(), content);
}

// Pouring in more bytes than the padded block holds without the block
// becoming decodable is malformed.
#[test]
fn overlong_stream_is_malformed() {
    let content = file_bytes(1000);
    let hash = hex_hash(&content);
    let k = 4;
    let padded = pad_block(&content, k);
    let esis: Vec<u16> = vec![0, 0, 0, 0, 0];
    let frames = encode_block_symbols(&padded, k, &esis, 4).unwrap();
    let mut sess = Session::new(k, 1000, 4, hash.clone());
    assert!(matches!(feed_all(&mut sess, &frames), SymbolStatus::Malformed));
}

// The erasure encoder accepts a single-symbol block and blocks of four or
// more symbols, but refuses two and three.
#[test]
fn codec_refuses_tiny_symbol_counts() {
    let data = file_bytes(12);
    for k in [2usize, 3] {
        let padded = pad_block(&data, k);
        match encode_block_symbols(&padded, k, &vec![0u16], 1) {
            Err(UploaderError::CodecError) => {},
            other => panic!("expected a codec error for k = {}, got ok = {}", k, other.is_ok()),
        }
    }
    let padded = pad_block(&data, 4);
    assert!(encode_block_symbols(&padded, 4, &vec![0u16], 1).is_ok());
    // The same refusal through the GET path: a file of two symbols gets
    // nothing emitted, only the error.
    let content = file_bytes(400);
    match handle_get(&content, 200, 50, 9) {
        Err(UploaderError::CodecError) => {},
        other => panic!("expected a codec error, got ok = {}", other.is_ok()),
    }
}

// An empty block: K = 0, nothing to send, and a session over it is
// complete at once; the digest of the empty file still decides.
#[test]
fn empty_file_download() {
    let frames = handle_get(b"", 200, 50, 3).unwrap();
    assert!(frames.is_empty());
    let hash = hex_hash(b"");
    let mut sess = Session::new(0, 0, 3, hash);
    assert_eq!(sess.finish().unwrap(), Vec::<u8>::new());
    let mut wrong = Session::new(0, 0, 3, b"00".to_vec());
    match wrong.finish() {
        Err(DownloaderError::ChecksumMismatch(actual, expected)) => {
            assert_eq!(expected, b"00".to_vec());
            assert_eq!(actual.len(), 64);
        },
        other => panic!("expected a checksum mismatch, got ok = {}", other.is_ok()),
    }
}

// The random emission of handle_get: the budgeted number of frames, all
// tagged, with distinct in-range identifiers.
#[test]
fn emission_is_a_permutation_prefix() {
    let content = file_bytes(1000);
    let frames = handle_get(&content, 200, 50, 12).unwrap();
    assert_eq!(frames.len(), 6 * (1000 / 200) / 5 + 2);
    let mut seen: Vec<u16> = Vec::new();
    for f in &frames {
        let p = parse_data_pdu(f).unwrap();
        assert_eq!(p.tag, 12);
        assert!((p.esi as usize) < 5 + 50);
        assert!(!seen.contains(&p.esi));
        seen.push(p.esi);
    }
}

// META for an empty file announces zero symbols and zero size.
#[test]
fn meta_for_empty_file() {
    let reply = handle_meta(b"", b"cafe", 200);
    assert_eq!(reply, b"m cafe 0 0".to_vec());
    assert_eq!(parse_meta_reply(&reply, b"cafe"), Some((0, 0)));
}

// A server announcing a size beyond what the symbols decode to cannot make
// the digest check pass: the zero-padded result mismatches.
#[test]
fn oversized_announcement_fails_checksum() {
    let content = file_bytes(1000);
    let hash = hex_hash(&content);
    let k = 4;
    let padded = pad_block(&content, k);
    let esis: Vec<u16> = (0..4).collect();
    let frames = encode_block_symbols(&padded, k, &esis, 4).unwrap();
    let mut sess = Session::new(k, 5000, 4, hash.clone());
    assert!(matches!(feed_all(&mut sess, &frames), SymbolStatus::Complete));
    match sess.finish() {
        Err(DownloaderError::ChecksumMismatch(_, expected)) => assert_eq!(expected, hash),
        other => panic!("expected a checksum mismatch, got ok = {}", other.is_ok()),
    }
}

// The sizing formulas on concrete values.
#[test]
fn sizing_formulas() {
    assert_eq!(max_source_syms(0, 200), 0);
    assert_eq!(max_source_syms(200, 200), 1);
    assert_eq!(max_source_syms(201, 200), 2);
    assert_eq!(emission_budget(3686, 200), 23);
    assert_eq!(emission_budget(6, 200), 2);
    assert_eq!(pacing_millis(200), 8000 * 200 / 9600);
    assert_eq!(pacing_millis(0), 0);
}
