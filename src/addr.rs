use vstd::prelude::*;

verus! {

broadcast use vstd::array::group_array_axioms;

/// An IP address, held as its octets in network order.
#[derive(Clone, Copy, Debug, PartialEq, Eq)]
pub enum IpAddr {
    V4([u8; 4]),
    V6([u8; 16]),
}

/// An IP address as a family and its octets.
pub enum IpView {
    V4(Seq<u8>),
    V6(Seq<u8>),
}

impl IpView {
    /// The octets have the family's length.
    pub open spec fn wf(self) -> bool {
        match self {
            IpView::V4(o) => o.len() == 4,
            IpView::V6(o) => o.len() == 16,
        }
    }
}

impl View for IpAddr {
    type V = IpView;

    open spec fn view(&self) -> IpView {
        match self {
            IpAddr::V4(o) => IpView::V4(o@),
            IpAddr::V6(o) => IpView::V6(o@),
        }
    }
}

/// The IPv4 address `a.b.c.d` as one number, the first octet highest.
pub open spec fn ipv4_number(o: Seq<u8>) -> nat {
    (o[0] as nat) * 0x100_0000 + (o[1] as nat) * 0x1_0000 + (o[2] as nat) * 0x100 + o[3] as nat
}

/// The IPv4 address as the 32-bit key of the session table.
pub open spec fn ipv4_key_of(o: Seq<u8>) -> u32 {
    ipv4_number(o) as u32
}

pub proof fn lemma_ipv4_number_bound(o: Seq<u8>)
    requires
        o.len() == 4,
    ensures
        ipv4_number(o) <= u32::MAX,
        ipv4_key_of(o) == ipv4_number(o),
{
}

/// Two IPv4 addresses with the same key are the same address.
pub proof fn lemma_ipv4_key_injective(a: Seq<u8>, b: Seq<u8>)
    requires
        a.len() == 4,
        b.len() == 4,
        ipv4_key_of(a) == ipv4_key_of(b),
    ensures
        a == b,
{
    lemma_ipv4_number_bound(a);
    lemma_ipv4_number_bound(b);
    lemma_ipv4_number_injective(a, b);
}

impl IpAddr {
    /// The IPv4 address `a.b.c.d`.
    pub fn v4(a: u8, b: u8, c: u8, d: u8) -> (r: IpAddr)
        ensures
            r@ == IpView::V4(seq![a, b, c, d]),
    {
        let r = IpAddr::V4([a, b, c, d]);
        assert(r@ == IpView::V4(seq![a, b, c, d])) by {
            assert([a, b, c, d]@ =~= seq![a, b, c, d]);
        }
        r
    }
}

/// An IPv4 address as one number, the first octet highest: the key of the session table.
pub fn ipv4_key(o: &[u8; 4]) -> (r: u32)
    ensures
        r == ipv4_number(o@),
        r == ipv4_key_of(o@),
{
    (o[0] as u32) * 0x100_0000 + (o[1] as u32) * 0x1_0000 + (o[2] as u32) * 0x100 + o[3] as u32
}

/// Two IPv4 addresses with the same number are the same address.
pub proof fn lemma_ipv4_number_injective(a: Seq<u8>, b: Seq<u8>)
    requires
        a.len() == 4,
        b.len() == 4,
        ipv4_number(a) == ipv4_number(b),
    ensures
        a == b,
{
    let (a0, a1, a2, a3) = (a[0] as int, a[1] as int, a[2] as int, a[3] as int);
    let (b0, b1, b2, b3) = (b[0] as int, b[1] as int, b[2] as int, b[3] as int);
    assert(a0 == b0 && a1 == b1 && a2 == b2 && a3 == b3) by (nonlinear_arith)
        requires
            0 <= a0 < 256, 0 <= a1 < 256, 0 <= a2 < 256, 0 <= a3 < 256,
            0 <= b0 < 256, 0 <= b1 < 256, 0 <= b2 < 256, 0 <= b3 < 256,
            a0 * 0x100_0000 + a1 * 0x1_0000 + a2 * 0x100 + a3 == b0 * 0x100_0000 + b1 * 0x1_0000 + b2 * 0x100 + b3,
    ;
    assert(a =~= b);
}

/// The transport address of a peer: an IP address and a UDP port.
#[derive(Clone, Copy, Debug, PartialEq, Eq)]
pub struct Endpoint {
    pub ip: IpAddr,
    pub port: u16,
}

} // verus!
