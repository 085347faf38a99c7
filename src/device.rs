use vstd::prelude::*;

verus! {

/// The kind of virtual interface: a point-to-point IP device or an Ethernet-like one.
#[derive(Clone, Copy, Debug, PartialEq, Eq, Structural)]
pub enum Type {
    Tun,
    Tap,
}

/// Interface flags of the Linux tun driver.
pub const IFF_TUN: u16 = 0x0001;
pub const IFF_TAP: u16 = 0x0002;
pub const IFF_NO_PI: u16 = 0x1000;

impl Type {
    /// The flags that ask the tun driver for this kind of device, without the packet
    /// information header, so that reads and writes carry bare packets.
    pub fn flags(&self) -> (r: u16)
        ensures
            r == match self {
                Type::Tun => IFF_TUN | IFF_NO_PI,
                Type::Tap => IFF_TAP | IFF_NO_PI,
            },
    {
        match self {
            Type::Tun => IFF_TUN | IFF_NO_PI,
            Type::Tap => IFF_TAP | IFF_NO_PI,
        }
    }
}

} // verus!
