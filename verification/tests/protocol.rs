// The wire grammar: decimal fields, the data-payload prefix, commands and
// replies.

use airfile::command::list_command;
use airfile::command::classify_list_reply;
use airfile::command::get_command;
use airfile::command::meta_command;
use airfile::command::meta_reply;
use airfile::command::parse_meta_reply;
use airfile::command::parse_request;
use airfile::command::ListReply;
use airfile::command::Request;
use airfile::num::format_u64;
use airfile::num::parse_u16;
use airfile::num::parse_u32;
use airfile::pdu::build_data_pdu;
use airfile::pdu::parse_data_pdu;

#[test]
fn decimal_format_and_parse() {
    assert_eq!(format_u64(0), b"0".to_vec());
    assert_eq!(format_u64(7), b"7".to_vec());
    assert_eq!(format_u64(65535), b"65535".to_vec());
    assert_eq!(format_u64(1024), b"1024".to_vec());
    assert_eq!(parse_u16(b"0"), Some(0));
    assert_eq!(parse_u16(b"65535"), Some(65535));
    assert_eq!(parse_u16(b"65536"), None);
    assert_eq!(parse_u16(b"007"), Some(7));
    assert_eq!(parse_u16(b""), None);
    assert_eq!(parse_u16(b"12a"), None);
    assert_eq!(parse_u32(b"4294967295"), Some(4294967295));
    assert_eq!(parse_u32(b"4294967296"), None);
}

#[test]
fn data_pdu_round_trip() {
    let pdu = build_data_pdu(5, 263, b"abc");
    assert_eq!(pdu, vec![0, 5, 1, 7, 97, 98, 99]);
    let parsed = parse_data_pdu(&pdu).unwrap();
    assert_eq!(parsed.tag, 5);
    assert_eq!(parsed.esi, 263);
    assert_eq!(parsed.symbol, b"abc".to_vec());
}

#[test]
fn data_pdu_too_short() {
    assert!(parse_data_pdu(b"").is_none());
    assert!(parse_data_pdu(b"abc").is_none());
    let parsed = parse_data_pdu(&[0, 9, 0, 0]).unwrap();
    assert_eq!(parsed.tag, 9);
    assert_eq!(parsed.esi, 0);
    assert!(parsed.symbol.is_empty());
}

#[test]
fn parse_get() {
    let reqs = parse_request("N0CALL", b"G 123 0 0 abcdef");
    assert_eq!(reqs.len(), 1);
    match &reqs[0] {
        Request::Get { dst, frequency, tag, existing, id } => {
            assert_eq!(dst, "N0CALL");
            assert_eq!(frequency, &b"0".to_vec());
            assert_eq!(*tag, 123);
            assert_eq!(*existing, 0);
            assert_eq!(id, &b"abcdef".to_vec());
        },
        other => panic!("not a GET: {:?}", other),
    }
}

#[test]
fn parse_get_meta() {
    let reqs = parse_request("N0CALL", b"GM 9 14100 42 cafe");
    assert_eq!(reqs.len(), 2);
    match &reqs[0] {
        Request::Meta { dst, hash } => {
            assert_eq!(dst, "N0CALL");
            assert_eq!(hash, &b"cafe".to_vec());
        },
        other => panic!("not a META: {:?}", other),
    }
    match &reqs[1] {
        Request::Get { tag, existing, id, frequency, .. } => {
            assert_eq!(*tag, 9);
            assert_eq!(*existing, 42);
            assert_eq!(id, &b"cafe".to_vec());
            assert_eq!(frequency, &b"14100".to_vec());
        },
        other => panic!("not a GET: {:?}", other),
    }
}

#[test]
fn parse_meta_and_list() {
    let reqs = parse_request("XX1XX", b"M cafebabe");
    assert_eq!(reqs.len(), 1);
    assert!(matches!(&reqs[0], Request::Meta { .. }));
    let reqs = parse_request("XX1XX", b"L 7");
    assert_eq!(reqs.len(), 1);
    match &reqs[0] {
        Request::List { dst, tag } => {
            assert_eq!(dst, "XX1XX");
            assert_eq!(*tag, 7);
        },
        other => panic!("not a LIST: {:?}", other),
    }
}

#[test]
fn parse_rejects_garbage() {
    assert!(parse_request("A", b"").is_empty());
    assert!(parse_request("A", b"hello world").is_empty());
    assert!(parse_request("A", b"L 99999").is_empty());
    assert!(parse_request("A", b"G 5 1 0 abc").is_empty());
    assert!(parse_request("A", b"G 70000 0 0 abc").is_empty());
    assert!(parse_request("A", b"G 5 0 0 ").is_empty());
    assert!(parse_request("A", b"M a b c").is_empty());
    assert!(parse_request("A", &[0xff, 0x20, 0x31]).is_empty());
    assert!(parse_request("A", b"l 5").is_empty());
}

#[test]
fn command_builders() {
    assert_eq!(get_command(77, 1024, b"aa"), b"G 77 0 1024 aa".to_vec());
    assert_eq!(meta_command(b"cafe"), b"M cafe".to_vec());
    assert_eq!(list_command(31), b"L 31".to_vec());
}

#[test]
fn commands_parse_back() {
    let reqs = parse_request("SRV", &get_command(77, 1024, b"aa"));
    assert_eq!(reqs.len(), 1);
    match &reqs[0] {
        Request::Get { tag, existing, id, .. } => {
            assert_eq!(*tag, 77);
            assert_eq!(*existing, 1024);
            assert_eq!(id, &b"aa".to_vec());
        },
        other => panic!("not a GET: {:?}", other),
    }
    let reqs = parse_request("SRV", &meta_command(b"cafe"));
    assert!(matches!(&reqs[0], Request::Meta { .. }));
    let reqs = parse_request("SRV", &list_command(31));
    assert!(matches!(&reqs[0], Request::List { tag: 31, .. }));
}

#[test]
fn meta_reply_round_trip() {
    let reply = meta_reply(b"ff00", 3, 500);
    assert_eq!(reply, b"m ff00 3 500".to_vec());
    assert_eq!(parse_meta_reply(&reply, b"ff00"), Some((3, 500)));
    assert_eq!(parse_meta_reply(&reply, b"ff01"), None);
    assert_eq!(parse_meta_reply(b"m ff00 3", b"ff00"), None);
    assert_eq!(parse_meta_reply(b"x ff00 3 500", b"ff00"), None);
    assert_eq!(parse_meta_reply(b"", b"ff00"), None);
}

#[test]
fn list_reply_classification() {
    match classify_list_reply(b"l 42", 42) {
        ListReply::End => {},
        other => panic!("not End: {:?}", other),
    }
    match classify_list_reply(b"l 42\naa one.txt\nbb two.txt\n", 42) {
        ListReply::Entries { lines } => {
            assert_eq!(lines, vec![b"aa one.txt".to_vec(), b"bb two.txt".to_vec()]);
        },
        other => panic!("not Entries: {:?}", other),
    }
    match classify_list_reply(b"l 42\n", 42) {
        ListReply::Entries { lines } => assert!(lines.is_empty()),
        other => panic!("not Entries: {:?}", other),
    }
    assert!(matches!(classify_list_reply(b"l 41\naa x\n", 42), ListReply::NoMatch));
    assert!(matches!(classify_list_reply(b"m aa 1 2", 42), ListReply::NoMatch));
    assert!(matches!(classify_list_reply(b"", 42), ListReply::NoMatch));
}
