use vstd::prelude::*;
use vstd::slice::slice_to_vec;
use crate::addr::{IpAddr, IpView};
use crate::crypto::incremented;
use crate::error::Error;
use crate::frame::{Channel, frame_of};
use crate::message::{Message, MessageView};
use crate::server::{DropReason, MAX_PACKET_LEN};

verus! {

/// A client: the session state that the handshake gives it (virtual address, netmask,
/// token, DNS address), and its configuration (secret, server address and port, and
/// whether it takes over the default route).
#[derive(Debug)]
pub struct Client {
    pub ip: IpAddr,
    pub netmask: IpAddr,
    pub token: u64,
    pub dns: IpAddr,
    pub secret: String,
    pub host: IpAddr,
    pub port: u16,
    pub default_route: bool,
}

/// What the client's forwarding loop does with one datagram from the server.
#[derive(Debug)]
pub enum ClientAction {
    /// Write the packet to the virtual interface.
    WriteTun { packet: Vec<u8> },
    /// Drop the datagram, for the reason given.
    Discard { reason: DropReason },
}

/// The request that opens the handshake.
pub open spec fn hello_view() -> MessageView {
    MessageView::Request { msg: "hello"@ }
}

impl Client {
    /// The defaults: 192.168.1.1/255.255.255.0, token 0, DNS and server 114.114.114.114,
    /// port 0, an empty secret, and no default route.
    pub fn new() -> (r: Client)
        ensures
            r.ip@ == IpView::V4(seq![192u8, 168, 1, 1]),
            r.netmask@ == IpView::V4(seq![255u8, 255, 255, 0]),
            r.token == 0,
            r.dns@ == IpView::V4(seq![114u8, 114, 114, 114]),
            r.secret@.len() == 0,
            r.host@ == IpView::V4(seq![114u8, 114, 114, 114]),
            r.port == 0,
            !r.default_route,
    {
        Client {
            ip: IpAddr::v4(192, 168, 1, 1),
            netmask: IpAddr::v4(255, 255, 255, 0),
            token: 0,
            dns: IpAddr::v4(114, 114, 114, 114),
            secret: String::new(),
            host: IpAddr::v4(114, 114, 114, 114),
            port: 0,
            default_route: false,
        }
    }

    /// Sets the server's address.
    pub fn parse_host(&mut self, host: IpAddr)
        ensures
            *final(self) == (Client { host, ..*old(self) }),
    {
        self.host = host;
    }

    pub fn parse_key(&mut self, key: &str)
        ensures
            final(self).secret@ == key@,
            final(self).ip == old(self).ip,
            final(self).netmask == old(self).netmask,
            final(self).token == old(self).token,
            final(self).dns == old(self).dns,
            final(self).host == old(self).host,
            final(self).port == old(self).port,
            final(self).default_route == old(self).default_route,
    {
        self.secret = key.to_owned();
    }

    pub fn parse_default_route(&mut self, default: bool)
        ensures
            *final(self) == (Client { default_route: default, ..*old(self) }),
    {
        self.default_route = default;
    }

    pub fn parse_port(&mut self, port: u16)
        ensures
            *final(self) == (Client { port, ..*old(self) }),
    {
        self.port = port;
    }

    pub fn set_token(&mut self, token: u64)
        ensures
            *final(self) == (Client { token, ..*old(self) }),
    {
        self.token = token;
    }

    /// The first frame of the handshake: `Request { "hello" }`, sealed with the next
    /// nonce of the sending context.
    pub fn shakehand_request(&self, channel: &mut Channel) -> (r: Vec<u8>)
        requires
            old(channel).wf(),
        ensures
            final(channel).wf(),
            final(channel).receiver == old(channel).receiver,
            final(channel).sender.kind() == old(channel).sender.kind(),
            final(channel).sender.key_view() == old(channel).sender.key_view(),
            final(channel).sender.nonce_view() == incremented(old(channel).sender.nonce_view()),
            r@ == frame_of(final(channel).sender, final(channel).sender.nonce_view(), hello_view()),
    {
        let request = Message::Request { msg: "hello".to_owned() };
        proof {
            reveal_strlit("hello");
            vstd::bytes::lemma_auto_spec_u32_to_from_le_bytes();
            vstd::bytes::lemma_auto_spec_u64_to_from_le_bytes();
            assert(vstd::utf8::encode_utf8("hello"@).len() == 5) by {
                vstd::utf8::is_ascii_chars_encode_utf8("hello"@);
            }
        }
        channel.seal_message(&request)
    }

    /// The answer to the handshake: a `Response` sets the client's address, netmask,
    /// token and DNS address. A frame in which nothing authenticates is a `Crypto` error,
    /// one whose plaintext is no message a `Parse` error; any other message is an `InvalidMessage` error, and the client stays as
    /// it was.
    pub fn shakehand_response(&mut self, channel: &Channel, frame: &[u8]) -> (r: Result<(), Error>)
        requires
            channel.wf(),
        ensures
            match channel.received(frame@) {
                Some(MessageView::Response { ip, netmask, token, dns }) => r is Ok
                    && final(self).ip@ == ip && final(self).netmask@ == netmask
                    && final(self).token == token && final(self).dns@ == dns
                    && final(self).secret == old(self).secret && final(self).host == old(self).host
                    && final(self).port == old(self).port && final(self).default_route == old(self).default_route,
                Some(_) => (r matches Err(e) && e.is_invalid_message()) && *final(self) == *old(self),
                None => (r matches Err(e) && (e.is_crypto() <==> !channel.authenticates(frame@))
                    && (e.is_parse() <==> channel.authenticates(frame@))) && *final(self) == *old(self),
            },
    {
        match channel.open_message(frame) {
            Ok(Message::Response { ip, netmask, token, dns }) => {
                self.ip = ip;
                self.netmask = netmask;
                self.set_token(token);
                self.dns = dns;
                Ok(())
            },
            Ok(_) => Err(Error::InvalidMessage("error shakehand message")),
            Err(e) => Err(e),
        }
    }

    /// Handles one datagram from the server: a `Data` message with the client's token
    /// has its payload written to the virtual interface; one with another token, any
    /// other message, and a frame without a message are dropped.
    pub fn on_datagram(&self, channel: &Channel, frame: &[u8]) -> (r: ClientAction)
        requires
            channel.wf(),
        ensures
            match channel.received(frame@) {
                None => r == (ClientAction::Discard { reason: DropReason::Undecodable }),
                Some(MessageView::Data { token, data, .. }) => if token == self.token {
                    r matches ClientAction::WriteTun { packet } && packet@ == data
                } else {
                    r == (ClientAction::Discard { reason: DropReason::TokenMismatch })
                },
                Some(_) => r == (ClientAction::Discard { reason: DropReason::UnexpectedMessage }),
            },
    {
        match channel.open_message(frame) {
            Ok(Message::Data { token, data, .. }) => if token == self.token {
                ClientAction::WriteTun { packet: data }
            } else {
                ClientAction::Discard { reason: DropReason::TokenMismatch }
            },
            Ok(_) => ClientAction::Discard { reason: DropReason::UnexpectedMessage },
            Err(_) => ClientAction::Discard { reason: DropReason::Undecodable },
        }
    }

    /// Wraps a packet read from the virtual interface as a `Data` message with the
    /// client's address and token, and seals it for the server. A packet longer than any
    /// IPv4 packet is refused with `None`, and nothing changes.
    pub fn on_tun_packet(&self, channel: &mut Channel, packet: &[u8]) -> (r: Option<Vec<u8>>)
        requires
            old(channel).wf(),
        ensures
            final(channel).wf(),
            packet@.len() > MAX_PACKET_LEN ==> r is None && *final(channel) == *old(channel),
            packet@.len() <= MAX_PACKET_LEN ==> final(channel).receiver == old(channel).receiver
                && final(channel).sender.kind() == old(channel).sender.kind()
                && final(channel).sender.key_view() == old(channel).sender.key_view()
                && final(channel).sender.nonce_view() == incremented(old(channel).sender.nonce_view())
                && (r matches Some(f) && f@ == frame_of(final(channel).sender, final(channel).sender.nonce_view(),
                    MessageView::Data { ip: self.ip@, token: self.token, data: packet@ })),
    {
        if packet.len() > MAX_PACKET_LEN {
            return None;
        }
        let m = Message::Data { ip: self.ip, token: self.token, data: slice_to_vec(packet) };
        proof {
            crate::server::lemma_data_len(m@);
        }
        Some(channel.seal_message(&m))
    }
}

} // verus!
