use boringvpn::addr::{Endpoint, IpAddr};
use boringvpn::client::{Client, ClientAction};
use boringvpn::crypto::CryptoMethod;
use boringvpn::error::Error;
use boringvpn::frame::Channel;
use boringvpn::message::Message;
use boringvpn::server::{
    ipv4_destination, route_data, DropReason, Server, ServerAction, ServerState,
};

fn v4(a: u8, b: u8, c: u8, d: u8) -> IpAddr {
    IpAddr::v4(a, b, c, d)
}

fn test_server(secret: &str) -> ServerState {
    let mut config = Server::new();
    config.parse_ip(v4(10, 10, 10, 0));
    config.parse_netmask(v4(255, 255, 255, 0));
    config.parse_dns(v4(8, 8, 8, 8));
    config.parse_key(secret);
    config.parse_port(9527);
    ServerState::new(config)
}

fn client_endpoint() -> Endpoint {
    Endpoint { ip: v4(192, 0, 2, 7), port: 40000 }
}

fn ipv4_packet(dest: [u8; 4], payload: &[u8]) -> Vec<u8> {
    let mut p = vec![0x45u8, 0, 0, 0, 0, 0, 0, 0, 64, 17, 0, 0, 10, 10, 10, 1];
    p.extend_from_slice(&dest);
    p.extend_from_slice(payload);
    p
}

#[test]
fn pool_hands_out_descending_addresses() {
    let mut server = test_server("s");
    let first = server.accept_client(client_endpoint(), 11).unwrap();
    match first {
        Message::Response { ip, netmask, token, dns } => {
            assert_eq!(ip, v4(10, 10, 10, 253));
            assert_eq!(netmask, v4(255, 255, 255, 0));
            assert_eq!(token, 11);
            assert_eq!(dns, v4(8, 8, 8, 8));
        },
        other => panic!("unexpected {:?}", other),
    }
    let second = server.accept_client(Endpoint { ip: v4(192, 0, 2, 8), port: 1 }, 12).unwrap();
    assert!(matches!(second, Message::Response { ip, .. } if ip == v4(10, 10, 10, 252)));
}

#[test]
fn pool_runs_out_after_252_clients() {
    let mut server = test_server("s");
    for i in 0..252u64 {
        assert!(server.accept_client(client_endpoint(), i).is_some());
    }
    assert!(server.accept_client(client_endpoint(), 999).is_none());
}

#[test]
fn hello_request_is_answered_with_first_address() {
    let mut server = test_server("secret");
    let mut channel = Channel::new(CryptoMethod::AES256, "secret");
    let mut client = Client::new();
    let hello = client.shakehand_request(&mut channel);
    let reply = match server.on_datagram(&hello, client_endpoint()) {
        ServerAction::Send { to, frame } => {
            assert_eq!(to, client_endpoint());
            frame
        },
        other => panic!("unexpected {:?}", other),
    };
    client.shakehand_response(&channel, &reply).unwrap();
    assert_eq!(client.ip, v4(10, 10, 10, 253));
    let hello2 = Client::new().shakehand_request(&mut channel);
    let reply2 = match server.on_datagram(&hello2, client_endpoint()) {
        ServerAction::Send { frame, .. } => frame,
        other => panic!("unexpected {:?}", other),
    };
    let mut other = Client::new();
    other.shakehand_response(&channel, &reply2).unwrap();
    assert_eq!(other.ip, v4(10, 10, 10, 252));
    assert_ne!(client.token, other.token);
}

#[test]
fn data_with_wrong_token_or_unknown_address_is_dropped() {
    let mut server = test_server("secret");
    let mut channel = Channel::new(CryptoMethod::AES256, "secret");
    let mut client = Client::new();
    let hello = client.shakehand_request(&mut channel);
    let reply = match server.on_datagram(&hello, client_endpoint()) {
        ServerAction::Send { frame, .. } => frame,
        other => panic!("unexpected {:?}", other),
    };
    client.shakehand_response(&channel, &reply).unwrap();

    let wrong_token = Message::Data { ip: client.ip, token: client.token.wrapping_add(1), data: vec![1, 2, 3] };
    let frame = channel.seal_message(&wrong_token);
    assert!(matches!(
        server.on_datagram(&frame, client_endpoint()),
        ServerAction::Discard { reason: DropReason::TokenMismatch }
    ));
    assert_eq!(server.dropped, 1);

    let unknown = Message::Data { ip: v4(10, 10, 10, 9), token: client.token, data: vec![1] };
    let frame = channel.seal_message(&unknown);
    assert!(matches!(
        server.on_datagram(&frame, client_endpoint()),
        ServerAction::Discard { reason: DropReason::UnknownAddress }
    ));
    assert_eq!(server.dropped, 2);

    let good = Message::Data { ip: client.ip, token: client.token, data: vec![4, 5] };
    let frame = channel.seal_message(&good);
    assert!(matches!(
        server.on_datagram(&frame, client_endpoint()),
        ServerAction::WriteTun { packet } if packet == vec![4, 5]
    ));
    assert_eq!(server.dropped, 2);
}

#[test]
fn end_to_end_exchange() {
    let mut server = test_server("shared");
    let mut channel = Channel::new(CryptoMethod::AES256, "shared");
    let mut client = Client::new();
    client.parse_key("shared");
    client.parse_host(v4(203, 0, 113, 1));
    client.parse_port(9527);

    let hello = client.shakehand_request(&mut channel);
    let reply = match server.on_datagram(&hello, client_endpoint()) {
        ServerAction::Send { to, frame } => {
            assert_eq!(to, client_endpoint());
            frame
        },
        other => panic!("unexpected {:?}", other),
    };
    client.shakehand_response(&channel, &reply).unwrap();
    assert_eq!(client.ip, v4(10, 10, 10, 253));
    assert_eq!(client.netmask, v4(255, 255, 255, 0));
    assert_eq!(client.dns, v4(8, 8, 8, 8));

    let x = ipv4_packet([93, 184, 216, 34], b"outbound payload");
    let frame = client.on_tun_packet(&mut channel, &x).unwrap();
    match server.on_datagram(&frame, client_endpoint()) {
        ServerAction::WriteTun { packet } => assert_eq!(packet, x),
        other => panic!("unexpected {:?}", other),
    }

    let back = ipv4_packet([10, 10, 10, 253], b"inbound payload");
    let frame = match server.on_tun_packet(&back) {
        ServerAction::Send { to, frame } => {
            assert_eq!(to, client_endpoint());
            frame
        },
        other => panic!("unexpected {:?}", other),
    };
    match client.on_datagram(&channel, &frame) {
        ClientAction::WriteTun { packet } => assert_eq!(packet, back),
        other => panic!("unexpected {:?}", other),
    }
    assert_eq!(server.dropped, 0);
}

#[test]
fn server_drops_what_it_cannot_use() {
    let mut server = test_server("secret");
    let mut channel = Channel::new(CryptoMethod::AES256, "secret");
    assert!(matches!(
        server.on_datagram(&[1, 2, 3], client_endpoint()),
        ServerAction::Discard { reason: DropReason::Undecodable }
    ));
    let other_key = Channel::new(CryptoMethod::AES256, "other").seal_message(&Message::Request { msg: "hello".to_string() });
    assert!(matches!(
        server.on_datagram(&other_key, client_endpoint()),
        ServerAction::Discard { reason: DropReason::Undecodable }
    ));
    let not_hello = channel.seal_message(&Message::Request { msg: "hi".to_string() });
    assert!(matches!(
        server.on_datagram(&not_hello, client_endpoint()),
        ServerAction::Discard { reason: DropReason::UnexpectedMessage }
    ));
    let response = channel.seal_message(&Message::Response {
        ip: v4(1, 1, 1, 1),
        netmask: v4(1, 1, 1, 1),
        token: 1,
        dns: v4(1, 1, 1, 1),
    });
    assert!(matches!(
        server.on_datagram(&response, client_endpoint()),
        ServerAction::Discard { reason: DropReason::UnexpectedMessage }
    ));
    assert!(matches!(server.on_tun_packet(&[0x60, 0, 0]), ServerAction::Discard { reason: DropReason::NotIpv4 }));
    assert!(matches!(
        server.on_tun_packet(&ipv4_packet([10, 10, 10, 5], b"")),
        ServerAction::Discard { reason: DropReason::UnknownAddress }
    ));
    assert!(matches!(
        server.on_tun_packet(&vec![0x45u8; 70000]),
        ServerAction::Discard { reason: DropReason::Oversized }
    ));
    assert_eq!(server.dropped, 7);
}

#[test]
fn client_handshake_rejects_other_messages() {
    let mut channel = Channel::new(CryptoMethod::AES256, "k");
    let mut client = Client::new();
    let data = channel.seal_message(&Message::Data { ip: v4(1, 1, 1, 1), token: 0, data: vec![] });
    assert!(matches!(client.shakehand_response(&channel, &data), Err(Error::InvalidMessage(_))));
    assert!(matches!(client.shakehand_response(&channel, &[0u8; 40]), Err(Error::Crypto(_))));
    assert_eq!(client.ip, v4(192, 168, 1, 1));
    assert_eq!(client.token, 0);
}

#[test]
fn client_drops_foreign_token_and_handshake_messages() {
    let mut channel = Channel::new(CryptoMethod::AES256, "k");
    let mut client = Client::new();
    client.set_token(5);
    let foreign = channel.seal_message(&Message::Data { ip: v4(1, 1, 1, 1), token: 6, data: vec![1] });
    assert!(matches!(
        client.on_datagram(&channel, &foreign),
        ClientAction::Discard { reason: DropReason::TokenMismatch }
    ));
    let hello = channel.seal_message(&Message::Request { msg: "hello".to_string() });
    assert!(matches!(
        client.on_datagram(&channel, &hello),
        ClientAction::Discard { reason: DropReason::UnexpectedMessage }
    ));
    assert!(matches!(
        client.on_datagram(&channel, &[]),
        ClientAction::Discard { reason: DropReason::Undecodable }
    ));
    assert!(client.on_tun_packet(&mut channel, &vec![0u8; 70000]).is_none());
}

#[test]
fn route_data_decisions() {
    let peer = client_endpoint();
    assert!(matches!(route_data(None, 1, vec![1]), ServerAction::Discard { reason: DropReason::UnknownAddress }));
    assert!(matches!(route_data(Some((2, peer)), 1, vec![1]), ServerAction::Discard { reason: DropReason::TokenMismatch }));
    assert!(matches!(route_data(Some((1, peer)), 1, vec![1]), ServerAction::WriteTun { packet } if packet == vec![1]));
}

#[test]
fn ipv4_destination_reads_offset_sixteen() {
    assert_eq!(ipv4_destination(&ipv4_packet([1, 2, 3, 4], b"x")), Some([1, 2, 3, 4]));
    assert_eq!(ipv4_destination(&[0x45; 19]), None);
    let mut v6 = ipv4_packet([1, 2, 3, 4], b"");
    v6[0] = 0x60;
    assert_eq!(ipv4_destination(&v6), None);
}

#[test]
fn sessions_survive_an_immediate_expiry_sweep() {
    let mut server = test_server("s");
    server.accept_client(client_endpoint(), 3).unwrap();
    assert!(server.expire_sessions().is_empty());
    let back = ipv4_packet([10, 10, 10, 253], b"");
    assert!(matches!(server.on_tun_packet(&back), ServerAction::Send { .. }));
}

#[test]
fn frames_carry_the_nonce_in_the_clear() {
    let mut a = Channel::new(CryptoMethod::ChaCha20, "k");
    let b = Channel::new(CryptoMethod::ChaCha20, "k");
    let m = Message::Data { ip: v4(1, 2, 3, 4), token: 1, data: vec![1, 2, 3] };
    let f1 = a.seal_message(&m);
    let f2 = a.seal_message(&m);
    assert_ne!(f1[..12], f2[..12]);
    assert_eq!(b.open_message(&f2), Ok(Message::Data { ip: v4(1, 2, 3, 4), token: 1, data: vec![1, 2, 3] }));
    assert_eq!(b.open_message(&f1), Ok(m));
}
