use boringvpn::addr::{Endpoint, IpAddr};
use boringvpn::error::Error;
use boringvpn::sessions::Sessions;

fn peer() -> Endpoint {
    Endpoint { ip: IpAddr::v4(192, 0, 2, 1), port: 5000 }
}

fn key(a: u8, b: u8, c: u8, d: u8) -> u32 {
    u32::from_be_bytes([a, b, c, d])
}

#[test]
fn release_skips_keys_it_cannot_free() {
    let mut s = Sessions::new([10, 10, 10, 0]);
    assert_eq!(s.allocate(peer(), 1), Some(IpAddr::v4(10, 10, 10, 253)));
    // Keys of another subnet, out of 2..=253, or of a number that is free already.
    s.release(&[key(10, 10, 11, 253), key(10, 10, 10, 254), key(10, 10, 10, 1), key(10, 10, 10, 5)]);
    assert_eq!(s.allocate(peer(), 2), Some(IpAddr::v4(10, 10, 10, 252)));
    assert_eq!(s.lookup(&IpAddr::v4(10, 10, 10, 253)), Some((1, peer())));
    let mut n = 2;
    while s.allocate(peer(), n).is_some() {
        n += 1;
    }
    // 253 and 252 went first; the other 250 host numbers follow.
    assert_eq!(n, 252);
}

#[test]
fn lookup_finds_allocated_sessions_only() {
    let mut s = Sessions::new([10, 10, 10, 0]);
    let ip = s.allocate(peer(), 77).unwrap();
    assert_eq!(s.lookup(&ip), Some((77, peer())));
    assert_eq!(s.lookup(&IpAddr::v4(10, 10, 10, 7)), None);
    assert_eq!(s.lookup(&IpAddr::V6([0; 16])), None);
    assert!(s.expire().is_empty());
    assert_eq!(s.lookup(&ip), Some((77, peer())));
}

#[test]
fn error_messages() {
    assert_eq!(Error::Parse("bad").message(), "bad");
    assert_eq!(Error::Crypto("auth").message(), "auth");
    assert_eq!(Error::InvalidMessage("phase").message(), "phase");
}
