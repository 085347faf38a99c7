use vstd::prelude::*;
use vstd::bytes::{
    spec_u32_from_le_bytes, spec_u32_to_le_bytes, spec_u64_from_le_bytes, spec_u64_to_le_bytes,
    u32_from_le_bytes, u32_to_le_bytes, u64_from_le_bytes, u64_to_le_bytes,
    lemma_auto_spec_u32_to_from_le_bytes, lemma_auto_spec_u64_to_from_le_bytes,
};
use vstd::utf8::{decode_utf8, encode_utf8, valid_utf8};
use vstd::string::StringSliceAdditionalSpecFns;
use vstd::slice::slice_to_vec;
use crate::addr::{IpAddr, IpView};
use crate::error::Error;

verus! {

broadcast use vstd::array::group_array_axioms;

/// A tunnel message: the client's request, the server's answer to it, or a packet.
#[derive(Debug, PartialEq, Eq)]
pub enum Message {
    Request { msg: String },
    Response { ip: IpAddr, netmask: IpAddr, token: u64, dns: IpAddr },
    Data { ip: IpAddr, token: u64, data: Vec<u8> },
}

/// A message as plain values.
pub enum MessageView {
    Request { msg: Seq<char> },
    Response { ip: IpView, netmask: IpView, token: u64, dns: IpView },
    Data { ip: IpView, token: u64, data: Seq<u8> },
}

impl View for Message {
    type V = MessageView;

    open spec fn view(&self) -> MessageView {
        match self {
            Message::Request { msg } => MessageView::Request { msg: msg@ },
            Message::Response { ip, netmask, token, dns } => MessageView::Response {
                ip: ip@,
                netmask: netmask@,
                token: *token,
                dns: dns@,
            },
            Message::Data { ip, token, data } => MessageView::Data { ip: ip@, token: *token, data: data@ },
        }
    }
}

impl MessageView {
    /// Addresses have their family's length and every length prefix fits in 64 bits.
    pub open spec fn wf(self) -> bool {
        match self {
            MessageView::Request { msg } => encode_utf8(msg).len() <= u64::MAX,
            MessageView::Response { ip, netmask, dns, .. } => ip.wf() && netmask.wf() && dns.wf(),
            MessageView::Data { ip, data, .. } => ip.wf() && data.len() <= u64::MAX,
        }
    }
}

/// Discriminants of the three kinds, and of the two address families.
pub const TAG_REQUEST: u32 = 0;
pub const TAG_RESPONSE: u32 = 1;
pub const TAG_DATA: u32 = 2;
pub const TAG_V4: u32 = 0;
pub const TAG_V6: u32 = 1;

/// An address: its family as a little-endian 32-bit number, then its octets.
pub open spec fn ip_encoding(a: IpView) -> Seq<u8> {
    match a {
        IpView::V4(o) => spec_u32_to_le_bytes(TAG_V4) + o,
        IpView::V6(o) => spec_u32_to_le_bytes(TAG_V6) + o,
    }
}

/// A byte string: its length as a little-endian 64-bit number, then the bytes.
pub open spec fn bytes_encoding(b: Seq<u8>) -> Seq<u8> {
    spec_u64_to_le_bytes(b.len() as u64) + b
}

/// The wire form of a message: the kind as a little-endian 32-bit number, then the
/// fields in order; text goes as its UTF-8 bytes, integers as little-endian bytes.
pub open spec fn encoding(m: MessageView) -> Seq<u8> {
    match m {
        MessageView::Request { msg } => spec_u32_to_le_bytes(TAG_REQUEST) + bytes_encoding(encode_utf8(msg)),
        MessageView::Response { ip, netmask, token, dns } => spec_u32_to_le_bytes(TAG_RESPONSE) + (ip_encoding(ip)
            + (ip_encoding(netmask) + (spec_u64_to_le_bytes(token) + ip_encoding(dns)))),
        MessageView::Data { ip, token, data } => spec_u32_to_le_bytes(TAG_DATA) + (ip_encoding(ip)
            + (spec_u64_to_le_bytes(token) + bytes_encoding(data))),
    }
}

spec fn take_u32(b: Seq<u8>) -> Option<(u32, Seq<u8>)> {
    if b.len() >= 4 {
        Some((spec_u32_from_le_bytes(b.take(4)), b.skip(4)))
    } else {
        None
    }
}

spec fn take_u64(b: Seq<u8>) -> Option<(u64, Seq<u8>)> {
    if b.len() >= 8 {
        Some((spec_u64_from_le_bytes(b.take(8)), b.skip(8)))
    } else {
        None
    }
}

spec fn take_ip(b: Seq<u8>) -> Option<(IpView, Seq<u8>)> {
    match take_u32(b) {
        Some((t, r)) => if t == TAG_V4 && r.len() >= 4 {
            Some((IpView::V4(r.take(4)), r.skip(4)))
        } else if t == TAG_V6 && r.len() >= 16 {
            Some((IpView::V6(r.take(16)), r.skip(16)))
        } else {
            None
        },
        None => None,
    }
}

spec fn take_bytes(b: Seq<u8>) -> Option<(Seq<u8>, Seq<u8>)> {
    match take_u64(b) {
        Some((n, r)) => if n <= r.len() {
            Some((r.take(n as int), r.skip(n as int)))
        } else {
            None
        },
        None => None,
    }
}

spec fn parse_request(b: Seq<u8>) -> Option<MessageView> {
    match take_bytes(b) {
        Some((t, r)) => if r.len() == 0 && valid_utf8(t) {
            Some(MessageView::Request { msg: decode_utf8(t) })
        } else {
            None
        },
        None => None,
    }
}

spec fn parse_response(b: Seq<u8>) -> Option<MessageView> {
    match take_ip(b) {
        Some((ip, r1)) => match take_ip(r1) {
            Some((netmask, r2)) => match take_u64(r2) {
                Some((token, r3)) => match take_ip(r3) {
                    Some((dns, r4)) => if r4.len() == 0 {
                        Some(MessageView::Response { ip, netmask, token, dns })
                    } else {
                        None
                    },
                    None => None,
                },
                None => None,
            },
            None => None,
        },
        None => None,
    }
}

spec fn parse_data(b: Seq<u8>) -> Option<MessageView> {
    match take_ip(b) {
        Some((ip, r1)) => match take_u64(r1) {
            Some((token, r2)) => match take_bytes(r2) {
                Some((data, r3)) => if r3.len() == 0 {
                    Some(MessageView::Data { ip, token, data })
                } else {
                    None
                },
                None => None,
            },
            None => None,
        },
        None => None,
    }
}

spec fn parse(b: Seq<u8>) -> Option<MessageView> {
    match take_u32(b) {
        Some((t, r)) => if t == TAG_REQUEST {
            parse_request(r)
        } else if t == TAG_RESPONSE {
            parse_response(r)
        } else if t == TAG_DATA {
            parse_data(r)
        } else {
            None
        },
        None => None,
    }
}

proof fn lemma_take_u32(x: u32, rest: Seq<u8>)
    ensures
        take_u32(spec_u32_to_le_bytes(x) + rest) == Some((x, rest)),
{
    lemma_auto_spec_u32_to_from_le_bytes();
    let b = spec_u32_to_le_bytes(x) + rest;
    assert(b.take(4) =~= spec_u32_to_le_bytes(x));
    assert(b.skip(4) =~= rest);
}

proof fn lemma_take_u32_inv(b: Seq<u8>)
    requires
        take_u32(b) is Some,
    ensures
        b == spec_u32_to_le_bytes((take_u32(b)->0).0) + (take_u32(b)->0).1,
{
    lemma_auto_spec_u32_to_from_le_bytes();
    assert(spec_u32_to_le_bytes(spec_u32_from_le_bytes(b.take(4))) == b.take(4));
    assert(b =~= b.take(4) + b.skip(4));
}

proof fn lemma_take_u64(x: u64, rest: Seq<u8>)
    ensures
        take_u64(spec_u64_to_le_bytes(x) + rest) == Some((x, rest)),
{
    lemma_auto_spec_u64_to_from_le_bytes();
    let b = spec_u64_to_le_bytes(x) + rest;
    assert(b.take(8) =~= spec_u64_to_le_bytes(x));
    assert(b.skip(8) =~= rest);
}

proof fn lemma_take_u64_inv(b: Seq<u8>)
    requires
        take_u64(b) is Some,
    ensures
        b == spec_u64_to_le_bytes((take_u64(b)->0).0) + (take_u64(b)->0).1,
{
    lemma_auto_spec_u64_to_from_le_bytes();
    assert(spec_u64_to_le_bytes(spec_u64_from_le_bytes(b.take(8))) == b.take(8));
    assert(b =~= b.take(8) + b.skip(8));
}

proof fn lemma_take_ip(a: IpView, rest: Seq<u8>)
    requires
        a.wf(),
    ensures
        take_ip(ip_encoding(a) + rest) == Some((a, rest)),
{
    match a {
        IpView::V4(o) => {
            assert(ip_encoding(a) + rest =~= spec_u32_to_le_bytes(TAG_V4) + (o + rest));
            lemma_take_u32(TAG_V4, o + rest);
            assert((o + rest).take(4) =~= o);
            assert((o + rest).skip(4) =~= rest);
        },
        IpView::V6(o) => {
            assert(ip_encoding(a) + rest =~= spec_u32_to_le_bytes(TAG_V6) + (o + rest));
            lemma_take_u32(TAG_V6, o + rest);
            assert((o + rest).take(16) =~= o);
            assert((o + rest).skip(16) =~= rest);
        },
    }
}

proof fn lemma_take_ip_inv(b: Seq<u8>)
    requires
        take_ip(b) is Some,
    ensures
        (take_ip(b)->0).0.wf(),
        b == ip_encoding((take_ip(b)->0).0) + (take_ip(b)->0).1,
{
    lemma_take_u32_inv(b);
    let (t, r) = take_u32(b)->0;
    if t == TAG_V4 {
        assert(r =~= r.take(4) + r.skip(4));
        assert(b =~= (spec_u32_to_le_bytes(TAG_V4) + r.take(4)) + r.skip(4));
    } else {
        assert(r =~= r.take(16) + r.skip(16));
        assert(b =~= (spec_u32_to_le_bytes(TAG_V6) + r.take(16)) + r.skip(16));
    }
}

proof fn lemma_take_bytes(d: Seq<u8>, rest: Seq<u8>)
    requires
        d.len() <= u64::MAX,
    ensures
        take_bytes(bytes_encoding(d) + rest) == Some((d, rest)),
{
    assert(bytes_encoding(d) + rest =~= spec_u64_to_le_bytes(d.len() as u64) + (d + rest));
    lemma_take_u64(d.len() as u64, d + rest);
    assert((d + rest).take(d.len() as int) =~= d);
    assert((d + rest).skip(d.len() as int) =~= rest);
}

proof fn lemma_take_bytes_inv(b: Seq<u8>)
    requires
        take_bytes(b) is Some,
    ensures
        (take_bytes(b)->0).0.len() <= u64::MAX,
        b == bytes_encoding((take_bytes(b)->0).0) + (take_bytes(b)->0).1,
{
    lemma_take_u64_inv(b);
    let (n, r) = take_u64(b)->0;
    let d = r.take(n as int);
    assert(d.len() as u64 == n);
    assert(r =~= d + r.skip(n as int));
    assert(b =~= (spec_u64_to_le_bytes(n) + d) + r.skip(n as int));
}

proof fn lemma_parse_encoding(m: MessageView)
    requires
        m.wf(),
    ensures
        parse(encoding(m)) == Some(m),
{
    let e = Seq::<u8>::empty();
    match m {
        MessageView::Request { msg } => {
            let t = encode_utf8(msg);
            lemma_take_u32(TAG_REQUEST, bytes_encoding(t));
            assert(bytes_encoding(t) + e =~= bytes_encoding(t));
            lemma_take_bytes(t, e);
            vstd::utf8::encode_utf8_valid_utf8(msg);
            vstd::utf8::encode_utf8_decode_utf8(msg);
        },
        MessageView::Response { ip, netmask, token, dns } => {
            let r3 = ip_encoding(dns);
            let r2 = spec_u64_to_le_bytes(token) + r3;
            let r1 = ip_encoding(netmask) + r2;
            lemma_take_u32(TAG_RESPONSE, ip_encoding(ip) + r1);
            lemma_take_ip(ip, r1);
            lemma_take_ip(netmask, r2);
            lemma_take_u64(token, r3);
            assert(r3 + e =~= r3);
            lemma_take_ip(dns, e);
        },
        MessageView::Data { ip, token, data } => {
            let r2 = bytes_encoding(data);
            let r1 = spec_u64_to_le_bytes(token) + r2;
            lemma_take_u32(TAG_DATA, ip_encoding(ip) + r1);
            lemma_take_ip(ip, r1);
            lemma_take_u64(token, r2);
            assert(r2 + e =~= r2);
            lemma_take_bytes(data, e);
        },
    }
}

proof fn lemma_encoding_of_parse(b: Seq<u8>)
    requires
        parse(b) is Some,
    ensures
        parse(b)->0.wf(),
        encoding(parse(b)->0) == b,
{
    lemma_take_u32_inv(b);
    let (t, r) = take_u32(b)->0;
    let e = Seq::<u8>::empty();
    if t == TAG_REQUEST {
        lemma_take_bytes_inv(r);
        let (d, r1) = take_bytes(r)->0;
        vstd::utf8::decode_utf8_encode_utf8(d);
        assert(r1 =~= e);
        assert(r =~= bytes_encoding(d));
    } else if t == TAG_RESPONSE {
        lemma_take_ip_inv(r);
        let (ip, r1) = take_ip(r)->0;
        lemma_take_ip_inv(r1);
        let (netmask, r2) = take_ip(r1)->0;
        lemma_take_u64_inv(r2);
        let (token, r3) = take_u64(r2)->0;
        lemma_take_ip_inv(r3);
        let (dns, r4) = take_ip(r3)->0;
        assert(r4 =~= e);
        assert(r3 =~= ip_encoding(dns));
    } else {
        lemma_take_ip_inv(r);
        let (ip, r1) = take_ip(r)->0;
        lemma_take_u64_inv(r1);
        let (token, r2) = take_u64(r1)->0;
        lemma_take_bytes_inv(r2);
        let (data, r3) = take_bytes(r2)->0;
        assert(r3 =~= e);
        assert(r2 =~= bytes_encoding(data));
    }
}

/// Decoding undoes encoding: two valid messages with the same wire form are the same
/// message, so the message that `decode` finds in `encode(m)` is `m`.
pub proof fn lemma_decode_encode(m: MessageView, n: MessageView)
    requires
        m.wf(),
        n.wf(),
        encoding(n) == encoding(m),
    ensures
        n == m,
{
    lemma_parse_encoding(m);
    lemma_parse_encoding(n);
}

/// Relies on `String::from_utf8`: it succeeds exactly on valid UTF-8 and keeps the bytes.
#[verifier::external_body]
fn string_from_utf8(bytes: Vec<u8>) -> (r: Option<String>)
    ensures
        r is Some <==> valid_utf8(bytes@),
        r matches Some(s) ==> encode_utf8(s@) == bytes@,
{
    String::from_utf8(bytes).ok()
}

fn push_u32(out: &mut Vec<u8>, x: u32)
    ensures
        final(out)@ == old(out)@ + spec_u32_to_le_bytes(x),
{
    let mut b = u32_to_le_bytes(x);
    out.append(&mut b);
}

fn push_u64(out: &mut Vec<u8>, x: u64)
    ensures
        final(out)@ == old(out)@ + spec_u64_to_le_bytes(x),
{
    let mut b = u64_to_le_bytes(x);
    out.append(&mut b);
}

fn push_ip(out: &mut Vec<u8>, a: &IpAddr)
    ensures
        final(out)@ == old(out)@ + ip_encoding(a@),
{
    match a {
        IpAddr::V4(o) => {
            push_u32(out, TAG_V4);
            out.extend_from_slice(o.as_slice());
        },
        IpAddr::V6(o) => {
            push_u32(out, TAG_V6);
            out.extend_from_slice(o.as_slice());
        },
    }
    assert(final(out)@ =~= old(out)@ + ip_encoding(a@));
}

fn push_bytes(out: &mut Vec<u8>, b: &[u8])
    ensures
        final(out)@ == old(out)@ + bytes_encoding(b@),
{
    push_u64(out, b.len() as u64);
    out.extend_from_slice(b);
    assert(final(out)@ =~= old(out)@ + bytes_encoding(b@));
}

/// The wire form of `m`.
pub fn encode(m: &Message) -> (r: Vec<u8>)
    ensures
        m@.wf(),
        r@ == encoding(m@),
{
    let mut out: Vec<u8> = Vec::new();
    match m {
        Message::Request { msg } => {
            push_u32(&mut out, TAG_REQUEST);
            let text = msg.as_str().as_bytes();
            assert(text@.len() == text.len());
            push_bytes(&mut out, text);
        },
        Message::Response { ip, netmask, token, dns } => {
            push_u32(&mut out, TAG_RESPONSE);
            push_ip(&mut out, ip);
            push_ip(&mut out, netmask);
            push_u64(&mut out, *token);
            push_ip(&mut out, dns);
        },
        Message::Data { ip, token, data } => {
            push_u32(&mut out, TAG_DATA);
            push_ip(&mut out, ip);
            push_u64(&mut out, *token);
            assert(data@.len() == data.len());
            push_bytes(&mut out, data.as_slice());
        },
    }
    assert(out@ =~= encoding(m@));
    out
}

fn read_u32(b: &[u8], pos: usize) -> (r: Option<(u32, usize)>)
    requires
        pos <= b@.len(),
    ensures
        match take_u32(b@.skip(pos as int)) {
            None => r is None,
            Some((x, rest)) => r matches Some((y, p)) && y == x && p <= b@.len() && rest == b@.skip(p as int),
        },
{
    if b.len() - pos < 4 {
        return None;
    }
    let x = u32_from_le_bytes(&b[pos..pos + 4]);
    assert(b@.skip(pos as int).take(4) =~= b@.subrange(pos as int, pos + 4));
    assert(b@.skip(pos as int).skip(4) =~= b@.skip(pos + 4));
    Some((x, pos + 4))
}

fn read_u64(b: &[u8], pos: usize) -> (r: Option<(u64, usize)>)
    requires
        pos <= b@.len(),
    ensures
        match take_u64(b@.skip(pos as int)) {
            None => r is None,
            Some((x, rest)) => r matches Some((y, p)) && y == x && p <= b@.len() && rest == b@.skip(p as int),
        },
{
    if b.len() - pos < 8 {
        return None;
    }
    let x = u64_from_le_bytes(&b[pos..pos + 8]);
    assert(b@.skip(pos as int).take(8) =~= b@.subrange(pos as int, pos + 8));
    assert(b@.skip(pos as int).skip(8) =~= b@.skip(pos + 8));
    Some((x, pos + 8))
}

fn read_ip(b: &[u8], pos: usize) -> (r: Option<(IpAddr, usize)>)
    requires
        pos <= b@.len(),
    ensures
        match take_ip(b@.skip(pos as int)) {
            None => r is None,
            Some((a, rest)) => r matches Some((x, p)) && x@ == a && p <= b@.len() && rest == b@.skip(p as int),
        },
{
    let (tag, p) = match read_u32(b, pos) {
        Some(t) => t,
        None => {
            return None;
        },
    };
    if tag == TAG_V4 && b.len() - p >= 4 {
        let o: [u8; 4] = [b[p], b[p + 1], b[p + 2], b[p + 3]];
        assert(o@ =~= b@.skip(p as int).take(4));
        assert(b@.skip(p as int).skip(4) =~= b@.skip(p + 4));
        Some((IpAddr::V4(o), p + 4))
    } else if tag == TAG_V6 && b.len() - p >= 16 {
        let o: [u8; 16] = [
            b[p], b[p + 1], b[p + 2], b[p + 3], b[p + 4], b[p + 5], b[p + 6], b[p + 7],
            b[p + 8], b[p + 9], b[p + 10], b[p + 11], b[p + 12], b[p + 13], b[p + 14], b[p + 15],
        ];
        assert(o@ =~= b@.skip(p as int).take(16));
        assert(b@.skip(p as int).skip(16) =~= b@.skip(p + 16));
        Some((IpAddr::V6(o), p + 16))
    } else {
        None
    }
}

fn read_bytes(b: &[u8], pos: usize) -> (r: Option<(Vec<u8>, usize)>)
    requires
        pos <= b@.len(),
    ensures
        match take_bytes(b@.skip(pos as int)) {
            None => r is None,
            Some((d, rest)) => r matches Some((x, p)) && x@ == d && p <= b@.len() && rest == b@.skip(p as int),
        },
{
    let (n, p) = match read_u64(b, pos) {
        Some(t) => t,
        None => {
            return None;
        },
    };
    if n > (b.len() - p) as u64 {
        return None;
    }
    let end = p + n as usize;
    let d = slice_to_vec(&b[p..end]);
    assert(d@ =~= b@.skip(p as int).take(n as int));
    assert(b@.skip(p as int).skip(n as int) =~= b@.skip(end as int));
    Some((d, end))
}

fn decode_request(b: &[u8], pos: usize) -> (r: Option<Message>)
    requires
        pos <= b@.len(),
    ensures
        match parse_request(b@.skip(pos as int)) {
            None => r is None,
            Some(v) => r matches Some(m) && m@ == v,
        },
{
    let (text, p) = match read_bytes(b, pos) {
        Some(t) => t,
        None => {
            return None;
        },
    };
    if p != b.len() {
        return None;
    }
    assert(b@.skip(p as int).len() == 0);
    let ghost t = text@;
    match string_from_utf8(text) {
        Some(msg) => {
            proof {
                vstd::utf8::encode_utf8_decode_utf8(msg@);
            }
            Some(Message::Request { msg })
        },
        None => None,
    }
}

fn decode_response(b: &[u8], pos: usize) -> (r: Option<Message>)
    requires
        pos <= b@.len(),
    ensures
        match parse_response(b@.skip(pos as int)) {
            None => r is None,
            Some(v) => r matches Some(m) && m@ == v,
        },
{
    let (ip, p1) = match read_ip(b, pos) {
        Some(t) => t,
        None => {
            return None;
        },
    };
    let (netmask, p2) = match read_ip(b, p1) {
        Some(t) => t,
        None => {
            return None;
        },
    };
    let (token, p3) = match read_u64(b, p2) {
        Some(t) => t,
        None => {
            return None;
        },
    };
    let (dns, p4) = match read_ip(b, p3) {
        Some(t) => t,
        None => {
            return None;
        },
    };
    if p4 != b.len() {
        return None;
    }
    Some(Message::Response { ip, netmask, token, dns })
}

fn decode_data(b: &[u8], pos: usize) -> (r: Option<Message>)
    requires
        pos <= b@.len(),
    ensures
        match parse_data(b@.skip(pos as int)) {
            None => r is None,
            Some(v) => r matches Some(m) && m@ == v,
        },
{
    let (ip, p1) = match read_ip(b, pos) {
        Some(t) => t,
        None => {
            return None;
        },
    };
    let (token, p2) = match read_u64(b, p1) {
        Some(t) => t,
        None => {
            return None;
        },
    };
    let (data, p3) = match read_bytes(b, p2) {
        Some(t) => t,
        None => {
            return None;
        },
    };
    if p3 != b.len() {
        return None;
    }
    Some(Message::Data { ip, token, data })
}

/// The message whose wire form is exactly `b`. A byte string that is no message's wire
/// form (an unknown kind or family, a truncated field, bytes left over, text that is
/// not UTF-8) is a `Parse` error.
pub fn decode(b: &[u8]) -> (r: Result<Message, Error>)
    ensures
        r matches Ok(m) ==> m@.wf() && encoding(m@) == b@,
        r is Err <==> forall|v: MessageView| v.wf() ==> #[trigger] encoding(v) != b@,
        r matches Err(e) ==> e.is_parse(),
{
    assert(b@.skip(0) =~= b@);
    let found = match read_u32(b, 0) {
        Some((tag, p)) => if tag == TAG_REQUEST {
            decode_request(b, p)
        } else if tag == TAG_RESPONSE {
            decode_response(b, p)
        } else if tag == TAG_DATA {
            decode_data(b, p)
        } else {
            None
        },
        None => None,
    };
    match found {
        Some(m) => {
            proof {
                lemma_encoding_of_parse(b@);
            }
            Ok(m)
        },
        None => {
            assert forall|v: MessageView| v.wf() implies #[trigger] encoding(v) != b@ by {
                if encoding(v) == b@ {
                    lemma_parse_encoding(v);
                }
            }
            Err(Error::Parse("not a message"))
        },
    }
}

} // verus!
