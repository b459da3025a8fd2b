//! Multicast sockets and the datagrams that they deliver.

use crate::config::{Config, IpAddr, SocketAddr};
use vstd::prelude::*;

verus! {

/// Maximum UDP datagram size (IP limit).
pub const MAX_UDP: usize = 65_535;

/// A raw UDP datagram received from the multicast group.
#[derive(Debug)]
pub struct ReceivedPacket {
    /// The datagram bytes.
    pub data: Vec<u8>,
    /// Number of valid bytes in `data`.
    pub len: usize,
}

impl ReceivedPacket {
    /// The valid bytes are all in `data`.
    pub open spec fn wf(&self) -> bool {
        self.len <= self.data@.len()
    }

    /// The valid bytes.
    pub open spec fn content(&self) -> Seq<u8> {
        self.data@.take(self.len as int)
    }

    /// The datagram whose `len` bytes stand at the start of a receive buffer.
    pub fn from_buffer(buf: &[u8], len: usize) -> (r: ReceivedPacket)
        requires
            len <= buf@.len(),
        ensures
            r.wf(),
            r.data@ == buf@.take(len as int),
            r.content() == buf@.take(len as int),
            r.len == len,
    {
        let mut data: Vec<u8> = Vec::new();
        let mut i: usize = 0;
        while i < len
            invariant
                i <= len <= buf@.len(),
                data@ == buf@.take(i as int),
            decreases len - i,
        {
            data.push(buf[i]);
            i += 1;
            assert(data@ =~= buf@.take(i as int));
        }
        assert(data@.take(len as int) =~= data@);
        ReceivedPacket { data, len }
    }

    /// The valid bytes.
    pub fn bytes(&self) -> (r: &[u8])
        requires
            self.wf(),
        ensures
            r@ == self.content(),
    {
        assert(self.content() =~= self.data@.subrange(0, self.len as int));
        vstd::slice::slice_subrange(self.data.as_slice(), 0, self.len)
    }
}

/// How the multicast group is joined.
#[derive(Debug, Clone, Copy, PartialEq, Eq, Structural)]
pub enum Join {
    /// An IPv4 group, on the interface with this address.
    V4 { group: u32, interface: u32 },
    /// An IPv6 group; interface index 0 lets the system choose.
    V6 { group6: u128, index: u32 },
    /// The group is IPv4 and the interface is IPv6: there is no way to join.
    Mismatch,
}

/// How a multicast socket is set up.
#[derive(Debug, Clone, Copy, PartialEq, Eq, Structural)]
pub struct SocketPlan {
    /// The address to bind: any address of the group's family.
    pub bind: SocketAddr,
    /// How to join the group.
    pub join: Join,
}

/// How a socket on `port` is set up for the configured group.
pub open spec fn planned(group: IpAddr, local: IpAddr, port: u16) -> SocketPlan {
    SocketPlan {
        bind: SocketAddr {
            ip: match group {
                IpAddr::V4(_) => IpAddr::V4(0),
                IpAddr::V6(_) => IpAddr::V6(0),
            },
            port,
        },
        join: match (group, local) {
            (IpAddr::V4(group), IpAddr::V4(interface)) => Join::V4 { group, interface },
            (IpAddr::V6(group6), _) => Join::V6 { group6, index: 0 },
            (IpAddr::V4(_), IpAddr::V6(_)) => Join::Mismatch,
        },
    }
}

/// Plans the socket on `port`: it is bound to the unspecified address of the
/// group's family, so that the kernel delivers the group's datagrams.
pub fn plan_socket(cfg: &Config, port: u16) -> (r: SocketPlan)
    ensures
        r == planned(cfg.multicast_addr, cfg.local_addr, port),
{
    let any = match cfg.multicast_addr {
        IpAddr::V4(_) => IpAddr::V4(0),
        IpAddr::V6(_) => IpAddr::V6(0),
    };
    let join = match (cfg.multicast_addr, cfg.local_addr) {
        (IpAddr::V4(group), IpAddr::V4(interface)) => Join::V4 { group, interface },
        (IpAddr::V6(group6), _) => Join::V6 { group6, index: 0 },
        (IpAddr::V4(_), IpAddr::V6(_)) => Join::Mismatch,
    };
    SocketPlan { bind: SocketAddr { ip: any, port }, join }
}

/// A group can be joined except where it is IPv4 and the interface is IPv6.
/// What is joined is the configured group, an IPv4 one on the configured
/// interface and an IPv6 one on an interface of the system's choice.  The socket
/// is bound to the port asked for, at the address of the group's family that
/// stands for all.
pub proof fn law_plan_follows_the_group(group: IpAddr, local: IpAddr, port: u16)
    ensures
        ({
            let plan = planned(group, local, port);
            &&& plan.bind.port == port
            &&& plan.bind.ip == if group is V4 {
                IpAddr::V4(0)
            } else {
                IpAddr::V6(0)
            }
            &&& plan.join is Mismatch <==> group is V4 && local is V6
            &&& plan.join is V4 <==> group is V4 && local is V4
            &&& plan.join is V6 <==> group is V6
            &&& plan.join matches Join::V4 { group: joined, interface } ==> group == IpAddr::V4(
                joined,
            ) && local == IpAddr::V4(interface)
            &&& plan.join matches Join::V6 { group6: joined, index } ==> group == IpAddr::V6(joined)
                && index == 0
        }),
{
}

/// The valid bytes of a datagram are the first `len` ones of its data.
pub proof fn law_valid_bytes_come_first(packet: ReceivedPacket, i: int)
    requires
        packet.len <= packet.data@.len(),
    ensures
        packet.wf(),
        packet.content().len() == packet.len,
        0 <= i < packet.len ==> packet.content()[i] == packet.data@[i],
{
}

/// Counts datagrams that had to be dropped because the packet channel was full.
#[derive(Debug)]
pub struct DropCounter {
    pub dropped: u64,
}

impl DropCounter {
    /// Nothing dropped yet.
    pub fn new() -> (r: DropCounter)
        ensures
            r.dropped == 0,
    {
        DropCounter { dropped: 0 }
    }

    /// Counts one more datagram, and tells whether to report the count: at
    /// every power of two.
    pub fn record(&mut self) -> (r: bool)
        requires
            old(self).dropped < u64::MAX,
        ensures
            final(self).dropped == old(self).dropped + 1,
            r == vstd::arithmetic::power2::is_pow2(final(self).dropped as int),
    {
        self.dropped = self.dropped + 1;
        is_power_of_two(self.dropped)
    }
}

/// Whether `n` is a power of two.
fn is_power_of_two(n: u64) -> (r: bool)
    ensures
        r == vstd::arithmetic::power2::is_pow2(n as int),
{
    let mut m: u64 = n;
    while m > 1 && m % 2 == 0
        invariant
            vstd::arithmetic::power2::is_pow2(m as int) == vstd::arithmetic::power2::is_pow2(
                n as int,
            ),
        decreases m,
    {
        proof {
            reveal(vstd::arithmetic::power2::is_pow2);
        }
        m = m / 2;
    }
    proof {
        reveal(vstd::arithmetic::power2::is_pow2);
    }
    m == 1
}

} // verus!
