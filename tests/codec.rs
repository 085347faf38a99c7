use boringvpn::addr::IpAddr;
use boringvpn::error::Error;
use boringvpn::message::{decode, encode, Message};

fn v4(a: u8, b: u8, c: u8, d: u8) -> IpAddr {
    IpAddr::v4(a, b, c, d)
}

#[test]
fn request_round_trip() {
    let m = Message::Request { msg: "hello".to_string() };
    let bytes = encode(&m);
    assert_eq!(decode(&bytes), Ok(m));
}

#[test]
fn response_round_trip() {
    let m = Message::Response {
        ip: v4(10, 10, 10, 253),
        netmask: v4(255, 255, 255, 0),
        token: 0x0123_4567_89ab_cdef,
        dns: IpAddr::V6([0x20, 0x01, 0x48, 0x60, 0, 0, 0, 0, 0, 0, 0, 0, 0, 0, 0x88, 0x88]),
    };
    let bytes = encode(&m);
    assert_eq!(decode(&bytes), Ok(m));
}

#[test]
fn data_round_trip() {
    let m = Message::Data { ip: v4(1, 2, 3, 4), token: 7, data: vec![0, 1, 2, 255] };
    assert_eq!(decode(&encode(&m)), Ok(m));
    let empty = Message::Data { ip: v4(1, 2, 3, 4), token: 0, data: vec![] };
    assert_eq!(decode(&encode(&empty)), Ok(empty));
}

#[test]
fn request_layout() {
    let bytes = encode(&Message::Request { msg: "hello".to_string() });
    assert_eq!(bytes, vec![0, 0, 0, 0, 5, 0, 0, 0, 0, 0, 0, 0, b'h', b'e', b'l', b'l', b'o']);
}

#[test]
fn layout_agrees_with_bincode() {
    let request = encode(&Message::Request { msg: "hello".to_string() });
    assert_eq!(request, bincode::serialize(&(0u32, "hello".to_string())).unwrap());

    // An address goes as its family's variant index, then its octets.
    let ip = (0u32, [10u8, 10, 10, 253]);
    let mask = (0u32, [255u8, 255, 255, 0]);
    let dns = (1u32, [0x20u8, 0x01, 0x48, 0x60, 0, 0, 0, 0, 0, 0, 0, 0, 0, 0, 0x88, 0x88]);
    let response = encode(&Message::Response {
        ip: v4(10, 10, 10, 253),
        netmask: v4(255, 255, 255, 0),
        token: 99,
        dns: IpAddr::V6([0x20, 0x01, 0x48, 0x60, 0, 0, 0, 0, 0, 0, 0, 0, 0, 0, 0x88, 0x88]),
    });
    assert_eq!(response, bincode::serialize(&(1u32, ip, mask, 99u64, dns)).unwrap());

    let data = encode(&Message::Data { ip: v4(10, 10, 10, 253), token: 5, data: vec![9, 8, 7] });
    assert_eq!(data, bincode::serialize(&(2u32, ip, 5u64, vec![9u8, 8, 7])).unwrap());
}

#[test]
fn unknown_kind_is_a_parse_error() {
    let mut bytes = encode(&Message::Request { msg: "hello".to_string() });
    bytes[0] = 3;
    assert!(matches!(decode(&bytes), Err(Error::Parse(_))));
}

#[test]
fn truncated_input_is_a_parse_error() {
    let bytes = encode(&Message::Data { ip: v4(1, 2, 3, 4), token: 7, data: vec![1, 2, 3] });
    for n in 0..bytes.len() {
        assert!(matches!(decode(&bytes[..n]), Err(Error::Parse(_))));
    }
    assert!(decode(&[]).is_err());
}

#[test]
fn trailing_bytes_are_a_parse_error() {
    let mut bytes = encode(&Message::Request { msg: "hi".to_string() });
    bytes.push(0);
    assert!(matches!(decode(&bytes), Err(Error::Parse(_))));
}

#[test]
fn invalid_utf8_is_a_parse_error() {
    let bytes = vec![0, 0, 0, 0, 2, 0, 0, 0, 0, 0, 0, 0, 0xff, 0xfe];
    assert!(matches!(decode(&bytes), Err(Error::Parse(_))));
}

#[test]
fn unknown_address_family_is_a_parse_error() {
    let mut bytes = encode(&Message::Data { ip: v4(1, 2, 3, 4), token: 7, data: vec![] });
    bytes[4] = 2;
    assert!(decode(&bytes).is_err());
}

#[test]
fn non_ascii_text_round_trips() {
    let m = Message::Request { msg: "héllo ✓".to_string() };
    assert_eq!(decode(&encode(&m)), Ok(m));
}
