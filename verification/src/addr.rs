//! Network addresses as plain values.

use vstd::prelude::*;

verus! {

/// A peer's network address: an IPv4 address in its 32-bit big-endian integer
/// form (`a.b.c.d` is `a*2^24 + b*2^16 + c*2^8 + d`), or an IPv6 address in
/// its 128-bit form. The surrounding process converts between this and the
/// operating system's address types.
#[derive(Clone, Copy, PartialEq, Eq, Hash, Debug, Structural)]
pub enum PeerAddr {
    V4(u32),
    V6(u128),
}

/// The link-local broadcast address 255.255.255.255 as a 32-bit integer.
pub const LIMITED_BROADCAST_V4: u32 = 0xFFFF_FFFF;

/// Where beacon datagrams are sent: with this host's IPv4 address at hand,
/// the subnet-broadcast address formed by setting the last octet to 255;
/// without one (lookup failed, or the host has only IPv6), the link-local
/// broadcast address.
pub fn beacon_destination(local_v4: Option<u32>) -> (r: u32)
    ensures
        r == match local_v4 {
            Some(a) => a | 0xFF,
            None => LIMITED_BROADCAST_V4,
        },
{
    match local_v4 {
        Some(a) => a | 0xFF,
        None => LIMITED_BROADCAST_V4,
    }
}

} // verus!
