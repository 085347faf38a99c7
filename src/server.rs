use vstd::prelude::*;
use vstd::slice::slice_to_vec;
use crate::addr::{Endpoint, IpAddr, IpView, ipv4_key_of};
use crate::crypto::{CryptoMethod, KEY_LEN, MAX_SECRET_LEN, PBKDF2_ITERATIONS, SALT, incremented, pbkdf2_hmac_sha256};
use vstd::utf8::encode_utf8;
use crate::frame::{Channel, frame_of};
use crate::message::{Message, MessageView, encoding};
use crate::sessions::{Sessions, address_of, freed_ids, initial_pool, no_sessions};

verus! {

broadcast use vstd::array::group_array_axioms;

/// Relies on rand's `random::<u64>`, which the server uses to draw session tokens: a
/// value from the thread-local generator, of which nothing is promised.
#[verifier::external_body]
fn random_token() -> (r: u64) {
    rand::random::<u64>()
}

/// Longest packet from the virtual interface that is forwarded: the largest IPv4 packet.
pub const MAX_PACKET_LEN: usize = 65535;

/// Longest encoding of a response, or of a data message around a packet of at most
/// `MAX_PACKET_LEN` bytes; below what either algorithm seals.
pub const MAX_FRAMED_LEN: usize = 65_600;

/// Configuration of a server: its virtual address (whose subnet the pool covers), the
/// netmask and DNS address that it hands to clients, the address and port it listens
/// on, and the shared secret.
#[derive(Debug)]
pub struct Server {
    pub ip: IpAddr,
    pub netmask: IpAddr,
    pub dns: IpAddr,
    pub host: IpAddr,
    pub secret: String,
    pub port: u16,
}

impl Server {
    /// The defaults: 192.168.1.1/255.255.255.0, DNS 114.114.114.114, listening on
    /// 0.0.0.0 port 0, with an empty secret.
    pub fn new() -> (r: Server)
        ensures
            r.ip@ == IpView::V4(seq![192u8, 168, 1, 1]),
            r.netmask@ == IpView::V4(seq![255u8, 255, 255, 0]),
            r.dns@ == IpView::V4(seq![114u8, 114, 114, 114]),
            r.host@ == IpView::V4(seq![0u8, 0, 0, 0]),
            r.secret@.len() == 0,
            r.port == 0,
    {
        Server {
            ip: IpAddr::v4(192, 168, 1, 1),
            netmask: IpAddr::v4(255, 255, 255, 0),
            dns: IpAddr::v4(114, 114, 114, 114),
            host: IpAddr::v4(0, 0, 0, 0),
            secret: String::new(),
            port: 0,
        }
    }

    pub fn parse_ip(&mut self, ip: IpAddr)
        ensures
            *final(self) == (Server { ip, ..*old(self) }),
    {
        self.ip = ip;
    }

    pub fn parse_netmask(&mut self, netmask: IpAddr)
        ensures
            *final(self) == (Server { netmask, ..*old(self) }),
    {
        self.netmask = netmask;
    }

    pub fn parse_dns(&mut self, dns: IpAddr)
        ensures
            *final(self) == (Server { dns, ..*old(self) }),
    {
        self.dns = dns;
    }

    pub fn parse_host(&mut self, host: IpAddr)
        ensures
            *final(self) == (Server { host, ..*old(self) }),
    {
        self.host = host;
    }

    pub fn parse_port(&mut self, port: u16)
        ensures
            *final(self) == (Server { port, ..*old(self) }),
    {
        self.port = port;
    }

    pub fn parse_key(&mut self, key: &str)
        ensures
            final(self).secret@ == key@,
            final(self).ip == old(self).ip,
            final(self).netmask == old(self).netmask,
            final(self).dns == old(self).dns,
            final(self).host == old(self).host,
            final(self).port == old(self).port,
    {
        self.secret = key.to_owned();
    }

    /// The subnet base of the pool: the octets of the server's IPv4 address; all zeroes
    /// for an IPv6 address.
    pub open spec fn base(&self) -> Seq<u8> {
        match self.ip@ {
            IpView::V4(o) => o,
            IpView::V6(_) => seq![0u8, 0, 0, 0],
        }
    }
}

/// Why the server or the client drops a datagram or a packet.
#[derive(Clone, Copy, Debug, PartialEq, Eq, Structural)]
pub enum DropReason {
    /// Nothing in the frame authenticates, or what does is no message.
    Undecodable,
    /// A request or a response outside the handshake.
    UnexpectedMessage,
    /// No session holds the virtual address.
    UnknownAddress,
    /// The session of the address has another token.
    TokenMismatch,
    /// No free host number is left.
    PoolExhausted,
    /// A packet from the virtual interface that is no IPv4 packet.
    NotIpv4,
    /// A packet from the virtual interface longer than any IPv4 packet.
    Oversized,
}

/// What the server's forwarding loop does with one event.
#[derive(Debug)]
pub enum ServerAction {
    /// Send the frame to the transport address.
    Send { to: Endpoint, frame: Vec<u8> },
    /// Write the packet to the virtual interface.
    WriteTun { packet: Vec<u8> },
    /// Drop the event, for the reason given.
    Discard { reason: DropReason },
}

/// The destination of an IPv4 packet: the four bytes at offset 16 of its header. A packet
/// shorter than the 20-byte header, or whose version is not 4, has none.
pub fn ipv4_destination(packet: &[u8]) -> (r: Option<[u8; 4]>)
    ensures
        r is Some <==> packet@.len() >= 20 && packet@[0] / 16 == 4,
        r matches Some(d) ==> d@ == packet@.subrange(16, 20),
{
    if packet.len() < 20 || packet[0] / 16 != 4 {
        return None;
    }
    let d: [u8; 4] = [packet[16], packet[17], packet[18], packet[19]];
    assert(d@ =~= packet@.subrange(16, 20));
    Some(d)
}

/// The action for a data message with `token`, given the session `entry` of its
/// address: drop it without a session or on another token, else write its payload.
pub open spec fn data_outcome(entry: Option<(u64, Endpoint)>, token: u64, data: Seq<u8>, r: ServerAction) -> bool {
    match entry {
        None => r == (ServerAction::Discard { reason: DropReason::UnknownAddress }),
        Some((t, _)) => if t != token {
            r == (ServerAction::Discard { reason: DropReason::TokenMismatch })
        } else {
            r matches ServerAction::WriteTun { packet } && packet@ == data
        },
    }
}

/// Decides on a data message: `entry` is the session of its virtual address.
pub fn route_data(entry: Option<(u64, Endpoint)>, token: u64, data: Vec<u8>) -> (r: ServerAction)
    ensures
        data_outcome(entry, token, data@, r),
{
    match entry {
        None => ServerAction::Discard { reason: DropReason::UnknownAddress },
        Some((t, _)) => if t != token {
            ServerAction::Discard { reason: DropReason::TokenMismatch }
        } else {
            ServerAction::WriteTun { packet: data }
        },
    }
}

/// The session of a virtual address in the table.
pub open spec fn session_of(table: Map<u32, (u64, Endpoint)>, ip: IpView) -> Option<(u64, Endpoint)> {
    match ip {
        IpView::V4(o) => table.get(ipv4_key_of(o)),
        IpView::V6(_) => None,
    }
}

/// The server's state: configuration, address pool and sessions, the two crypto
/// contexts, and the number of dropped events.
pub struct ServerState {
    pub config: Server,
    pub sessions: Sessions,
    pub channel: Channel,
    pub dropped: u64,
}

impl ServerState {
    pub open spec fn wf(&self) -> bool {
        &&& self.sessions.wf()
        &&& self.channel.wf()
        &&& self.sessions.base() == self.config.base()
    }

    /// The pool and the table are as in `other`.
    pub open spec fn same_sessions(&self, other: &ServerState) -> bool {
        &&& self.sessions.base() == other.sessions.base()
        &&& self.sessions.pool() == other.sessions.pool()
        &&& self.sessions.table() == other.sessions.table()
    }

    /// The response to a client whose address is `ip` and whose token is `token`.
    pub open spec fn response_view(&self, ip: Seq<u8>, token: u64) -> MessageView {
        MessageView::Response { ip: IpView::V4(ip), netmask: self.config.netmask@, token, dns: self.config.dns@ }
    }

    /// A fresh server: a full pool over the subnet of its address, no session, and
    /// AES-256-GCM contexts derived from its secret.
    pub fn new(config: Server) -> (r: ServerState)
        requires
            config.secret@.len() * 4 <= MAX_SECRET_LEN,
        ensures
            r.wf(),
            r.config == config,
            r.sessions.pool() == initial_pool(),
            r.sessions.table() == no_sessions(),
            r.channel.sender.kind() == Some(CryptoMethod::AES256),
            r.channel.receiver.kind() == Some(CryptoMethod::AES256),
            r.channel.sender.key_view() == pbkdf2_hmac_sha256(PBKDF2_ITERATIONS, SALT@, encode_utf8(config.secret@), KEY_LEN as nat),
            r.channel.receiver.key_view() == r.channel.sender.key_view(),
            r.dropped == 0,
    {
        let base: [u8; 4] = match config.ip {
            IpAddr::V4(o) => o,
            IpAddr::V6(_) => [0, 0, 0, 0],
        };
        assert(base@ =~= config.base());
        let channel = Channel::new(CryptoMethod::AES256, config.secret.as_str());
        let sessions = Sessions::new(base);
        ServerState { config, sessions, channel, dropped: 0 }
    }

    fn discard(&mut self, reason: DropReason) -> (r: ServerAction)
        ensures
            *final(self) == (ServerState { dropped: if old(self).dropped < u64::MAX { (old(self).dropped + 1) as u64 } else { old(self).dropped }, ..*old(self) }),
            r == (ServerAction::Discard { reason }),
    {
        if self.dropped < u64::MAX {
            self.dropped = self.dropped + 1;
        }
        ServerAction::Discard { reason }
    }

    /// Hands the next free address to the client at `from` under `token`, and returns the
    /// response for it; `None` when the pool is empty.
    pub fn accept_client(&mut self, from: Endpoint, token: u64) -> (r: Option<Message>)
        requires
            old(self).wf(),
        ensures
            final(self).wf(),
            final(self).config == old(self).config,
            final(self).channel == old(self).channel,
            final(self).dropped == old(self).dropped,
            old(self).sessions.pool().len() == 0 ==> r is None && final(self).same_sessions(old(self)),
            old(self).sessions.pool().len() > 0 ==> {
                let a = address_of(old(self).config.base(), old(self).sessions.pool().last());
                &&& r matches Some(m) && m@ == old(self).response_view(a, token)
                &&& !old(self).sessions.table().contains_key(ipv4_key_of(a))
                &&& final(self).sessions.pool() == old(self).sessions.pool().drop_last()
                &&& final(self).sessions.table() == old(self).sessions.table().insert(ipv4_key_of(a), (token, from))
                &&& final(self).sessions.base() == old(self).sessions.base()
            },
    {
        match self.sessions.allocate(from, token) {
            Some(ip) => Some(Message::Response { ip, netmask: self.config.netmask, token, dns: self.config.dns }),
            None => None,
        }
    }

    /// The dropped-events count after one more drop; it stays at its maximum.
    pub open spec fn dropped_after(&self, r: ServerAction) -> u64 {
        if r is Discard && self.dropped < u64::MAX { (self.dropped + 1) as u64 } else { self.dropped }
    }

    /// The sending context moved on by one sealing; the receiving one is as it was.
    pub open spec fn sealed_once(&self, old: &ServerState) -> bool {
        &&& self.channel.receiver == old.channel.receiver
        &&& self.channel.sender.kind() == old.channel.sender.kind()
        &&& self.channel.sender.key_view() == old.channel.sender.key_view()
        &&& self.channel.sender.nonce_view() == incremented(old.channel.sender.nonce_view())
    }

    /// A handshake answered: the next free address went to the client at `from` under
    /// token `t`, and `r` sends it the sealed response.
    pub open spec fn answered(&self, old: &ServerState, from: Endpoint, t: u64, r: ServerAction) -> bool {
        let a = address_of(old.config.base(), old.sessions.pool().last());
        &&& !old.sessions.table().contains_key(ipv4_key_of(a))
        &&& self.sessions.base() == old.sessions.base()
        &&& self.sessions.pool() == old.sessions.pool().drop_last()
        &&& self.sessions.table() == old.sessions.table().insert(ipv4_key_of(a), (t, from))
        &&& self.sealed_once(old)
        &&& r matches ServerAction::Send { to, frame } && to == from
            && frame@ == frame_of(self.channel.sender, self.channel.sender.nonce_view(), old.response_view(a, t))
    }

    /// Nothing changed but, for a drop, the count.
    pub open spec fn unchanged_but_count(&self, old: &ServerState, r: ServerAction) -> bool {
        &&& self.same_sessions(old)
        &&& self.channel == old.channel
        &&& self.dropped == old.dropped_after(r)
    }

    /// Handles one datagram from the transport address `from`. A frame that carries no
    /// message is dropped. A `Request` with the text "hello" gets the next free address
    /// and a fresh random token, and is answered with a `Response`; once the pool is
    /// empty it is dropped. Any other request, and any response, is dropped. A `Data`
    /// message whose address has a session with the same token has its payload written
    /// to the virtual interface; without a session, or on another token, it is dropped.
    pub fn on_datagram(&mut self, frame: &[u8], from: Endpoint) -> (r: ServerAction)
        requires
            old(self).wf(),
        ensures
            final(self).wf(),
            final(self).config == old(self).config,
            match old(self).channel.received(frame@) {
                None => r == (ServerAction::Discard { reason: DropReason::Undecodable })
                    && final(self).unchanged_but_count(old(self), r),
                Some(MessageView::Data { ip, token, data }) =>
                    data_outcome(session_of(old(self).sessions.table(), ip), token, data, r)
                    && final(self).unchanged_but_count(old(self), r),
                Some(MessageView::Response { .. }) => r == (ServerAction::Discard { reason: DropReason::UnexpectedMessage })
                    && final(self).unchanged_but_count(old(self), r),
                Some(MessageView::Request { msg }) => if msg != "hello"@ {
                    r == (ServerAction::Discard { reason: DropReason::UnexpectedMessage })
                        && final(self).unchanged_but_count(old(self), r)
                } else if old(self).sessions.pool().len() == 0 {
                    r == (ServerAction::Discard { reason: DropReason::PoolExhausted })
                        && final(self).unchanged_but_count(old(self), r)
                } else {
                    final(self).dropped == old(self).dropped
                        && exists|t: u64| #[trigger] final(self).answered(old(self), from, t, r)
                },
            },
    {
        let m = match self.channel.open_message(frame) {
            Ok(m) => m,
            Err(_) => {
                return self.discard(DropReason::Undecodable);
            },
        };
        match m {
            Message::Request { msg } => {
                let hello = "hello".to_owned();
                if msg != hello {
                    return self.discard(DropReason::UnexpectedMessage);
                }
                let token = random_token();
                let ghost before = *self;
                match self.accept_client(from, token) {
                    Some(response) => {
                        proof {
                            lemma_response_len(response@);
                        }
                        let sealed = self.channel.seal_message(&response);
                        let r = ServerAction::Send { to: from, frame: sealed };
                        assert(self.answered(&before, from, token, r));
                        r
                    },
                    None => self.discard(DropReason::PoolExhausted),
                }
            },
            Message::Response { .. } => self.discard(DropReason::UnexpectedMessage),
            Message::Data { ip, token, data } => {
                let entry = self.sessions.lookup(&ip);
                let r = route_data(entry, token, data);
                match r {
                    ServerAction::Discard { reason } => self.discard(reason),
                    _ => r,
                }
            },
        }
    }

    /// Handles one packet read from the virtual interface. An IPv4 packet whose
    /// destination has a session goes, as a `Data` message with the server's address and
    /// the session's token, sealed, to the session's transport address. Other packets
    /// are dropped.
    pub fn on_tun_packet(&mut self, packet: &[u8]) -> (r: ServerAction)
        requires
            old(self).wf(),
        ensures
            final(self).wf(),
            final(self).config == old(self).config,
            packet@.len() > MAX_PACKET_LEN ==> r == (ServerAction::Discard { reason: DropReason::Oversized })
                && final(self).unchanged_but_count(old(self), r),
            packet@.len() <= MAX_PACKET_LEN ==> match destination_of(packet@) {
                None => r == (ServerAction::Discard { reason: DropReason::NotIpv4 })
                    && final(self).unchanged_but_count(old(self), r),
                Some(d) => match session_of(old(self).sessions.table(), IpView::V4(d)) {
                    None => r == (ServerAction::Discard { reason: DropReason::UnknownAddress })
                        && final(self).unchanged_but_count(old(self), r),
                    Some((t, peer)) => final(self).same_sessions(old(self))
                        && final(self).sealed_once(old(self))
                        && final(self).dropped == old(self).dropped
                        && (r matches ServerAction::Send { to, frame } && to == peer
                        && frame@ == frame_of(final(self).channel.sender, final(self).channel.sender.nonce_view(),
                            MessageView::Data { ip: old(self).config.ip@, token: t, data: packet@ })),
                },
            },
    {
        if packet.len() > MAX_PACKET_LEN {
            return self.discard(DropReason::Oversized);
        }
        let d = match ipv4_destination(packet) {
            Some(d) => d,
            None => {
                return self.discard(DropReason::NotIpv4);
            },
        };
        let dest = IpAddr::V4(d);
        match self.sessions.lookup(&dest) {
            None => self.discard(DropReason::UnknownAddress),
            Some((token, to)) => {
                let m = Message::Data { ip: self.config.ip, token, data: slice_to_vec(packet) };
                proof {
                    lemma_data_len(m@);
                }
                let frame = self.channel.seal_message(&m);
                ServerAction::Send { to, frame }
            },
        }
    }

    /// Ends the sessions whose lifetime is over and frees their addresses; returns the
    /// keys of the sessions ended.
    pub fn expire_sessions(&mut self) -> (r: Vec<u32>)
        requires
            old(self).wf(),
        ensures
            final(self).wf(),
            final(self).config == old(self).config,
            final(self).channel == old(self).channel,
            final(self).dropped == old(self).dropped,
            final(self).sessions.base() == old(self).sessions.base(),
            final(self).sessions.table() == old(self).sessions.table().remove_keys(r@.to_set()),
            final(self).sessions.pool() == old(self).sessions.pool()
                + freed_ids(old(self).sessions.base(), old(self).sessions.pool(), r@),
    {
        self.sessions.expire()
    }
}

/// The destination of a packet, as `ipv4_destination` reads it.
pub open spec fn destination_of(packet: Seq<u8>) -> Option<Seq<u8>> {
    if packet.len() >= 20 && packet[0] / 16 == 4 {
        Some(packet.subrange(16, 20))
    } else {
        None
    }
}

proof fn lemma_ip_encoding_len(a: IpView)
    requires
        a.wf(),
    ensures
        crate::message::ip_encoding(a).len() <= 20,
{
    vstd::bytes::lemma_auto_spec_u32_to_from_le_bytes();
}

proof fn lemma_response_len(m: MessageView)
    requires
        m is Response,
        m.wf(),
    ensures
        encoding(m).len() <= MAX_FRAMED_LEN,
{
    vstd::bytes::lemma_auto_spec_u32_to_from_le_bytes();
    vstd::bytes::lemma_auto_spec_u64_to_from_le_bytes();
    if let MessageView::Response { ip, netmask, token, dns } = m {
        lemma_ip_encoding_len(ip);
        lemma_ip_encoding_len(netmask);
        lemma_ip_encoding_len(dns);
    }
}

pub proof fn lemma_data_len(m: MessageView)
    requires
        m is Data,
        m.wf(),
        m->Data_data.len() <= MAX_PACKET_LEN,
    ensures
        encoding(m).len() <= MAX_FRAMED_LEN,
{
    vstd::bytes::lemma_auto_spec_u32_to_from_le_bytes();
    vstd::bytes::lemma_auto_spec_u64_to_from_le_bytes();
    if let MessageView::Data { ip, token, data } = m {
        lemma_ip_encoding_len(ip);
    }
}

} // verus!
