use engine_core::codec::{decode_request, encode_request, frame_payload, parse_lp, DecodeError};
use engine_core::msg::{GetLogsArg, ServerRequest};
use engine_core::types::Address;
use engine_core::wire::{push_i64_be, push_u32_be, push_u64_be, read_i64_be, read_u32_be,
    read_u64_be};

fn addr(b: u8) -> Address {
    Address::from_bytes(vec![b; 20]).unwrap()
}

fn hash(b: u8) -> engine_core::types::Hash {
    engine_core::types::Hash::from_bytes(vec![b; 32]).unwrap()
}

#[test]
fn u32_be_exact_bytes() {
    let mut v: Vec<u8> = Vec::new();
    push_u32_be(&mut v, 0x12345678);
    assert_eq!(v, vec![0x12, 0x34, 0x56, 0x78]);
    assert_eq!(read_u32_be(&v, 0), 0x12345678);
}

#[test]
fn u64_be_round_trip() {
    let mut v: Vec<u8> = Vec::new();
    push_u64_be(&mut v, 0xdead_beef_0102_0304);
    assert_eq!(v.len(), 8);
    assert_eq!(read_u64_be(&v, 0), 0xdead_beef_0102_0304);
}

#[test]
fn i64_be_negative_round_trip() {
    let mut v: Vec<u8> = Vec::new();
    push_i64_be(&mut v, -5);
    assert_eq!(v, vec![0xff; 7].into_iter().chain(vec![0xfb]).collect::<Vec<u8>>());
    assert_eq!(read_i64_be(&v, 0), -5);
}

#[test]
fn frame_is_length_prefixed() {
    let framed = frame_payload(&[0x07]);
    assert_eq!(framed, vec![0, 0, 0, 1, 0x07]);
}

#[test]
fn parse_lp_reads_back() {
    let framed = frame_payload(&[9, 8, 7]);
    let (body, next) = parse_lp(&framed, 0).unwrap();
    assert_eq!(body, vec![9, 8, 7]);
    assert_eq!(next, 7);
}

#[test]
fn parse_lp_truncated() {
    assert_eq!(parse_lp(&[0, 0, 0], 0), Err(DecodeError::Truncated));
    assert_eq!(parse_lp(&[0, 0, 0, 9, 1], 0), Err(DecodeError::Truncated));
}

#[test]
fn ping_round_trip() {
    let bytes = encode_request(&ServerRequest::Ping);
    assert_eq!(bytes, vec![0]);
    assert!(matches!(decode_request(&bytes), Ok(ServerRequest::Ping)));
}

#[test]
fn bye_round_trip() {
    let bytes = encode_request(&ServerRequest::Bye);
    assert_eq!(bytes, vec![1]);
    assert!(matches!(decode_request(&bytes), Ok(ServerRequest::Bye)));
}

#[test]
fn get_logs_round_trip() {
    let req = ServerRequest::GetLogs(GetLogsArg {
        from_block: 100,
        to_block: 9000,
        filters: vec![(addr(0xaa), hash(0xbb)), (addr(0xcc), hash(0xdd))],
    });
    let bytes = encode_request(&req);
    match decode_request(&bytes) {
        Ok(ServerRequest::GetLogs(arg)) => {
            assert_eq!(arg.from_block, 100);
            assert_eq!(arg.to_block, 9000);
            assert_eq!(arg.filters.len(), 2);
            assert_eq!(arg.filters[0].0.bytes(), &vec![0xaa; 20]);
            assert_eq!(arg.filters[0].1.bytes(), &vec![0xbb; 32]);
            assert_eq!(arg.filters[1].0.bytes(), &vec![0xcc; 20]);
            assert_eq!(arg.filters[1].1.bytes(), &vec![0xdd; 32]);
        },
        _ => panic!("expected GetLogs"),
    }
}

#[test]
fn get_logs_negative_blocks_round_trip() {
    let req = ServerRequest::GetLogs(GetLogsArg {
        from_block: -7,
        to_block: -1,
        filters: vec![],
    });
    let bytes = encode_request(&req);
    match decode_request(&bytes) {
        Ok(ServerRequest::GetLogs(arg)) => {
            assert_eq!(arg.from_block, -7);
            assert_eq!(arg.to_block, -1);
            assert_eq!(arg.filters.len(), 0);
        },
        _ => panic!("expected GetLogs"),
    }
}

/// A GetLogs payload whose one filter holds an address field of the given
/// length instead of 20 bytes.
fn get_logs_with_address_len(n: u8) -> Vec<u8> {
    let mut b: Vec<u8> = vec![2];
    b.extend_from_slice(&[0; 8]); // from_block 0
    b.extend_from_slice(&[0, 0, 0, 0, 0, 0, 0, 1]); // to_block 1
    b.extend_from_slice(&[0, 0, 0, 1]); // one filter
    b.extend_from_slice(&[0, 0, 0, n]); // address length
    b.extend(std::iter::repeat(0xaa).take(n as usize));
    b.extend_from_slice(&[0, 0, 0, 32]); // hash length
    b.extend(std::iter::repeat(0xbb).take(32));
    b
}

#[test]
fn malformed_address_rejected_with_its_own_error() {
    let b = get_logs_with_address_len(19);
    assert!(matches!(decode_request(&b), Err(DecodeError::BadAddressLength)));
    let b = get_logs_with_address_len(21);
    assert!(matches!(decode_request(&b), Err(DecodeError::BadAddressLength)));
    let b = get_logs_with_address_len(20);
    assert!(matches!(decode_request(&b), Ok(ServerRequest::GetLogs(_))));
}

#[test]
fn malformed_hash_rejected_with_its_own_error() {
    let mut b: Vec<u8> = vec![2];
    b.extend_from_slice(&[0; 8]);
    b.extend_from_slice(&[0, 0, 0, 0, 0, 0, 0, 1]);
    b.extend_from_slice(&[0, 0, 0, 1]);
    b.extend_from_slice(&[0, 0, 0, 20]);
    b.extend(std::iter::repeat(0xaa).take(20));
    b.extend_from_slice(&[0, 0, 0, 31]); // hash too short
    b.extend(std::iter::repeat(0xbb).take(31));
    assert!(matches!(decode_request(&b), Err(DecodeError::BadHashLength)));
}

#[test]
fn unknown_tag_rejected() {
    assert!(matches!(decode_request(&[9]), Err(DecodeError::UnknownTag)));
}

#[test]
fn empty_payload_rejected() {
    assert!(matches!(decode_request(&[]), Err(DecodeError::Truncated)));
}

#[test]
fn truncated_get_logs_rejected() {
    assert!(matches!(decode_request(&[2, 0, 0]), Err(DecodeError::Truncated)));
}

#[test]
fn trailing_bytes_rejected() {
    assert!(matches!(decode_request(&[0, 0]), Err(DecodeError::TrailingBytes)));
    let mut b = encode_request(&ServerRequest::Bye);
    b.push(0);
    assert!(matches!(decode_request(&b), Err(DecodeError::TrailingBytes)));
}

#[test]
fn address_length_validated() {
    assert!(Address::from_bytes(vec![1; 19]).is_none());
    assert!(Address::from_bytes(vec![1; 21]).is_none());
    assert!(Address::from_bytes(vec![1; 20]).is_some());
}

#[test]
fn hash_length_validated() {
    assert!(engine_core::types::Hash::from_bytes(vec![1; 31]).is_none());
    assert!(engine_core::types::Hash::from_bytes(vec![1; 33]).is_none());
    assert!(engine_core::types::Hash::from_bytes(vec![1; 32]).is_some());
}
