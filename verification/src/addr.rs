//! Network addresses as plain values, and the integer keys under which maps file them.
use vstd::prelude::*;

verus! {

/// An IP address, as the big-endian number that its bytes spell.
#[derive(Clone, Copy, Debug, PartialEq, Eq, Structural)]
pub enum IpAddr {
    V4(u32),
    V6(u128),
}

/// The address and port that a packet stream can be told apart by, as integers:
/// whether the address is IPv6, the address as a number, and the port.
pub type SourceKey = (bool, u128, u16);

/// A winner and a loser, in that order.
pub type PairKey = (SourceKey, SourceKey);

impl IpAddr {
    /// The IPv4 address `a.b.c.d`.
    pub open spec fn dotted(a: u8, b: u8, c: u8, d: u8) -> IpAddr {
        IpAddr::V4((a * 0x100_0000 + b * 0x1_0000 + c * 0x100 + d) as u32)
    }

    /// The IPv4 address `a.b.c.d`.
    pub fn v4(a: u8, b: u8, c: u8, d: u8) -> (addr: IpAddr)
        ensures
            addr == IpAddr::dotted(a, b, c, d),
            addr == IpAddr::V4((a * 0x100_0000 + b * 0x1_0000 + c * 0x100 + d) as u32),
    {
        IpAddr::V4(a as u32 * 0x100_0000 + b as u32 * 0x1_0000 + c as u32 * 0x100 + d as u32)
    }
}

/// The four numbers of a dotted address are its bytes, the most significant first.
pub proof fn dots_separate_bytes(a: u8, b: u8, c: u8, d: u8)
    ensures
        IpAddr::dotted(a, b, c, d) matches IpAddr::V4(bits) && bits / 0x100_0000 == a && bits
            / 0x1_0000 % 0x100 == b && bits / 0x100 % 0x100 == c && bits % 0x100 == d,
{
}

/// The key of packets that `addr` sent to the local port `port`.
pub open spec fn source_key_of(addr: IpAddr, port: u16) -> SourceKey {
    match addr {
        IpAddr::V4(bits) => (false, bits as u128, port),
        IpAddr::V6(bits) => (true, bits, port),
    }
}

/// The address that a key was made from.
pub open spec fn key_addr(key: SourceKey) -> IpAddr {
    if key.0 {
        IpAddr::V6(key.1)
    } else {
        IpAddr::V4(key.1 as u32)
    }
}

/// The key of the histogram in which a duplicate from the second source is filed when the first
/// source was the faster one.
pub open spec fn pair_key_of(
    winner_addr: IpAddr,
    winner_port: u16,
    loser_addr: IpAddr,
    loser_port: u16,
) -> PairKey {
    (source_key_of(winner_addr, winner_port), source_key_of(loser_addr, loser_port))
}

pub fn source_key(addr: IpAddr, port: u16) -> (key: SourceKey)
    ensures
        key == source_key_of(addr, port),
        key_addr(key) == addr && key.2 == port,
{
    match addr {
        IpAddr::V4(bits) => (false, bits as u128, port),
        IpAddr::V6(bits) => (true, bits, port),
    }
}

pub fn pair_key(winner_addr: IpAddr, winner_port: u16, loser_addr: IpAddr, loser_port: u16) -> (key:
    PairKey)
    ensures
        key == pair_key_of(winner_addr, winner_port, loser_addr, loser_port),
        key_addr(key.0) == winner_addr && key.0.2 == winner_port,
        key_addr(key.1) == loser_addr && key.1.2 == loser_port,
{
    (source_key(winner_addr, winner_port), source_key(loser_addr, loser_port))
}

/// The address in a key.
pub fn addr_of_key(key: SourceKey) -> (addr: IpAddr)
    ensures
        addr == key_addr(key),
{
    if key.0 {
        IpAddr::V6(key.1)
    } else {
        IpAddr::V4(#[verifier::truncate] (key.1 as u32))
    }
}

/// A key gives back the address and the port that it was made from, so no two sources share one.
pub proof fn source_key_round_trip(addr: IpAddr, port: u16)
    ensures
        key_addr(source_key_of(addr, port)) == addr,
        source_key_of(addr, port).2 == port,
        source_key_of(addr, port).0 <==> addr is V6,
        addr matches IpAddr::V4(bits) ==> source_key_of(addr, port).1 == bits,
        addr matches IpAddr::V6(bits) ==> source_key_of(addr, port).1 == bits,
{
}

/// The first half of a pair's key leads back to the winner's address and port, the second half to
/// the loser's.
pub proof fn pair_key_names_the_winner_first(
    winner_addr: IpAddr,
    winner_port: u16,
    loser_addr: IpAddr,
    loser_port: u16,
)
    ensures
        ({
            let (winner, loser) = pair_key_of(winner_addr, winner_port, loser_addr, loser_port);
            &&& key_addr(winner) == winner_addr
            &&& winner.2 == winner_port
            &&& key_addr(loser) == loser_addr
            &&& loser.2 == loser_port
        }),
{
}

/// A socket address. An IPv6 one carries the flow label and the scope that tell it apart from
/// others with the same address and port.
#[derive(Clone, Copy, Debug, PartialEq, Eq, Structural)]
pub enum SocketAddr {
    V4 { ip: u32, port: u16 },
    V6 { ip6: u128, port: u16, flowinfo: u32, scope_id: u32 },
}

/// A socket address as integers, by which two of them are compared.
pub type SocketKey = (bool, u128, u16, u32, u32);

impl SocketAddr {
    /// The socket address of `ip` at `port`, with no flow label and no scope.
    pub open spec fn at(ip: IpAddr, port: u16) -> SocketAddr {
        match ip {
            IpAddr::V4(bits) => SocketAddr::V4 { ip: bits, port },
            IpAddr::V6(bits) => SocketAddr::V6 { ip6: bits, port, flowinfo: 0, scope_id: 0 },
        }
    }

    pub open spec fn key_of(self) -> SocketKey {
        match self {
            SocketAddr::V4 { ip, port } => (false, ip as u128, port, 0, 0),
            SocketAddr::V6 { ip6, port, flowinfo, scope_id } => (true, ip6, port, flowinfo, scope_id),
        }
    }

    pub open spec fn of_key(key: SocketKey) -> SocketAddr {
        if key.0 {
            SocketAddr::V6 { ip6: key.1, port: key.2, flowinfo: key.3, scope_id: key.4 }
        } else {
            SocketAddr::V4 { ip: key.1 as u32, port: key.2 }
        }
    }

    pub fn new(ip: IpAddr, port: u16) -> (addr: SocketAddr)
        ensures
            addr == SocketAddr::at(ip, port),
            ip matches IpAddr::V4(bits) ==> addr matches SocketAddr::V4 { ip: at_ip, port: at_port }
                && at_ip == bits && at_port == port,
            ip matches IpAddr::V6(bits) ==> addr matches SocketAddr::V6 { ip6, port: at_port, .. }
                && ip6 == bits && at_port == port,
    {
        match ip {
            IpAddr::V4(bits) => SocketAddr::V4 { ip: bits, port },
            IpAddr::V6(bits) => SocketAddr::V6 { ip6: bits, port, flowinfo: 0, scope_id: 0 },
        }
    }

    pub fn key(&self) -> (key: SocketKey)
        ensures
            key == self.key_of(),
    {
        match *self {
            SocketAddr::V4 { ip, port } => (false, ip as u128, port, 0, 0),
            SocketAddr::V6 { ip6, port, flowinfo, scope_id } => (true, ip6, port, flowinfo, scope_id),
        }
    }

    pub fn from_key(key: SocketKey) -> (addr: SocketAddr)
        ensures
            addr == SocketAddr::of_key(key),
    {
        if key.0 {
            SocketAddr::V6 { ip6: key.1, port: key.2, flowinfo: key.3, scope_id: key.4 }
        } else {
            SocketAddr::V4 { ip: #[verifier::truncate] (key.1 as u32), port: key.2 }
        }
    }
}

/// A socket address has the address and the port that it was made of, and nothing else: another
/// address or port gives another socket address.
pub proof fn sockets_keep_their_address(ip: IpAddr, port: u16)
    ensures
        match (ip, SocketAddr::at(ip, port)) {
            (IpAddr::V4(bits), SocketAddr::V4 { ip: at_ip, port: at_port }) => at_ip == bits
                && at_port == port,
            (IpAddr::V6(bits), SocketAddr::V6 { ip6, port: at_port, flowinfo, scope_id }) => ip6
                == bits && at_port == port && flowinfo == 0 && scope_id == 0,
            _ => false,
        },
{
}

/// A socket key gives back the socket address that it was made from.
pub proof fn socket_key_round_trip(addr: SocketAddr)
    ensures
        SocketAddr::of_key(addr.key_of()) == addr,
{
}

} // verus!
