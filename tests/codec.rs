use lokipool::codec::{
    decode_greeting, decode_method_selection, decode_reply, decode_request, encode_greeting,
    encode_method_selection, encode_reply, encode_request, CodecError, Greeting, Reply, Request,
    TargetAddr,
};

#[test]
fn greeting_round_trip() {
    let bytes = vec![5u8, 2, 0, 2];
    let (g, n) = decode_greeting(&bytes).unwrap();
    assert_eq!(n, 4);
    assert_eq!(g.methods, vec![0u8, 2]);
    assert_eq!(encode_greeting(&g), bytes);
}

#[test]
fn greeting_with_trailing_bytes() {
    let bytes = vec![5u8, 1, 0, 5, 1, 0, 1];
    let (g, n) = decode_greeting(&bytes).unwrap();
    assert_eq!(n, 3);
    assert_eq!(encode_greeting(&g), bytes[..3].to_vec());
}

#[test]
fn greeting_incomplete() {
    assert_eq!(decode_greeting(&[]).unwrap_err(), CodecError::Incomplete);
    assert_eq!(decode_greeting(&[5]).unwrap_err(), CodecError::Incomplete);
    assert_eq!(decode_greeting(&[5, 2, 0]).unwrap_err(), CodecError::Incomplete);
}

#[test]
fn greeting_wrong_version() {
    assert_eq!(decode_greeting(&[4, 1, 0]).unwrap_err(), CodecError::ProtocolVersion(4));
}

#[test]
fn method_selection_round_trip() {
    let bytes = encode_method_selection(0);
    assert_eq!(bytes, vec![5u8, 0]);
    assert_eq!(decode_method_selection(&bytes).unwrap(), (0u8, 2usize));
    assert_eq!(decode_method_selection(&[5, 0xff]).unwrap(), (0xffu8, 2usize));
    assert_eq!(decode_method_selection(&[4, 0]).unwrap_err(), CodecError::ProtocolVersion(4));
}

#[test]
fn request_ipv4_round_trip() {
    let bytes = vec![5u8, 1, 0, 1, 1, 2, 3, 4, 0x01, 0xbb];
    let (q, n) = decode_request(&bytes).unwrap();
    assert_eq!(n, 10);
    assert_eq!(q.addr, TargetAddr::Ipv4([1, 2, 3, 4]));
    assert_eq!(q.port, 443);
    assert_eq!(encode_request(&q), bytes);
}

#[test]
fn request_domain_round_trip() {
    let mut bytes = vec![5u8, 1, 0, 3, 11];
    bytes.extend_from_slice(b"example.com");
    bytes.extend_from_slice(&[0, 80]);
    let (q, n) = decode_request(&bytes).unwrap();
    assert_eq!(n, bytes.len());
    assert_eq!(q.addr, TargetAddr::Domain(b"example.com".to_vec()));
    assert_eq!(q.port, 80);
    assert_eq!(encode_request(&q), bytes);
}

#[test]
fn request_ipv6_round_trip() {
    let mut bytes = vec![5u8, 1, 0, 4];
    bytes.extend_from_slice(&[0x20, 0x01, 0x0d, 0xb8, 0, 0, 0, 0, 0, 0, 0, 0, 0, 0, 0, 1]);
    bytes.extend_from_slice(&[0x1f, 0x90]);
    let (q, n) = decode_request(&bytes).unwrap();
    assert_eq!(n, 22);
    assert_eq!(q.port, 8080);
    assert_eq!(encode_request(&q), bytes);
}

#[test]
fn request_errors() {
    assert_eq!(decode_request(&[5, 2, 0, 1]).unwrap_err(), CodecError::UnsupportedCommand(2));
    assert_eq!(decode_request(&[5, 1, 0, 2, 0]).unwrap_err(), CodecError::UnsupportedAddressType(2));
    assert_eq!(decode_request(&[5, 1, 1, 1]).unwrap_err(), CodecError::ReservedNonZero(1));
    assert_eq!(decode_request(&[6, 1, 0, 1]).unwrap_err(), CodecError::ProtocolVersion(6));
    assert_eq!(decode_request(&[5, 1, 0, 1, 1, 2, 3, 4, 0]).unwrap_err(), CodecError::Incomplete);
}

#[test]
fn reply_round_trip() {
    let rep = Reply { code: 0, addr: TargetAddr::Ipv4([0, 0, 0, 0]), port: 0 };
    let bytes = encode_reply(&rep);
    assert_eq!(bytes, vec![5u8, 0, 0, 1, 0, 0, 0, 0, 0, 0]);
    let (back, n) = decode_reply(&bytes).unwrap();
    assert_eq!(n, 10);
    assert_eq!(back, rep);
}

#[test]
fn reply_with_domain_bound_address() {
    let mut bytes = vec![5u8, 0, 0, 3, 4];
    bytes.extend_from_slice(b"host");
    bytes.extend_from_slice(&[0x04, 0x38]);
    let (rep, n) = decode_reply(&bytes).unwrap();
    assert_eq!(n, bytes.len());
    assert_eq!(rep.port, 1080);
    assert_eq!(encode_reply(&rep), bytes);
}

#[test]
fn encoded_request_decodes_back() {
    let q = Request { addr: TargetAddr::Domain(b"a.b".to_vec()), port: 65535 };
    let mut bytes = encode_request(&q);
    bytes.push(99);
    let (back, n) = decode_request(&bytes).unwrap();
    assert_eq!(back, q);
    assert_eq!(n, bytes.len() - 1);
}

#[test]
fn encoded_greeting_decodes_back() {
    let g = Greeting { methods: vec![0, 1, 2] };
    let bytes = encode_greeting(&g);
    assert_eq!(bytes, vec![5u8, 3, 0, 1, 2]);
    assert_eq!(decode_greeting(&bytes).unwrap(), (g, 5usize));
}
