//! IPv4 addresses and the subnets on which devices look for each other.

use vstd::prelude::*;

verus! {

/// An IPv4 address.
#[derive(Clone, Copy, Debug, PartialEq, Eq, Structural)]
pub struct Ipv4Addr {
    /// The four octets as one number, the first octet the most significant.
    pub bits: u32,
}

/// The limited broadcast address, 255.255.255.255.
pub open spec fn limited_broadcast() -> Ipv4Addr {
    Ipv4Addr { bits: u32::MAX }
}

impl Ipv4Addr {
    /// The address `a.b.c.d`.
    pub fn new(a: u8, b: u8, c: u8, d: u8) -> (res: Ipv4Addr)
        ensures
            res.bits == a * 16777216 + b * 65536 + c * 256 + d,
    {
        Ipv4Addr {
            bits: a as u32 * 16777216 + b as u32 * 65536 + c as u32 * 256 + d as u32,
        }
    }

    /// The first octet.
    pub open spec fn first_octet(self) -> int {
        self.bits as int / 16777216
    }

    /// Whether the address is in 127.0.0.0/8.
    pub fn is_loopback(&self) -> (res: bool)
        ensures
            res == (self.first_octet() == 127),
    {
        self.bits / 16777216 == 127
    }

    /// Whether the address is 0.0.0.0.
    pub fn is_unspecified(&self) -> (res: bool)
        ensures
            res == (self.bits == 0),
    {
        self.bits == 0
    }

    /// Whether the address can belong to a network with other devices: it is
    /// neither a loopback address nor 0.0.0.0.
    pub open spec fn reaches_others(self) -> bool {
        self.first_octet() != 127 && self.bits != 0
    }
}

/// The directed broadcast address of a subnet: the bits of the network as in
/// the address of a host, and all bits of the host set.
pub open spec fn broadcast_of(ip: Ipv4Addr, netmask: Ipv4Addr) -> Ipv4Addr {
    Ipv4Addr { bits: ip.bits | !netmask.bits }
}

/// The directed broadcast address of the subnet of a host.
pub fn subnet_broadcast(ip: Ipv4Addr, netmask: Ipv4Addr) -> (res: Ipv4Addr)
    ensures
        res == broadcast_of(ip, netmask),
{
    Ipv4Addr { bits: ip.bits | !netmask.bits }
}

/// The directed broadcast address is in the network of the host, and no
/// address of that network has a bit that it lacks.
pub proof fn broadcast_tops_its_subnet(ip: Ipv4Addr, netmask: Ipv4Addr, other: Ipv4Addr)
    requires
        other.bits & netmask.bits == ip.bits & netmask.bits,
    ensures
        broadcast_of(ip, netmask).bits & netmask.bits == ip.bits & netmask.bits,
        other.bits | broadcast_of(ip, netmask).bits == broadcast_of(ip, netmask).bits,
        other.bits <= broadcast_of(ip, netmask).bits,
        broadcast_of(other, netmask) == broadcast_of(ip, netmask),
{
    let a = ip.bits;
    let m = netmask.bits;
    let o = other.bits;
    assert((a | !m) & m == a & m) by (bit_vector);
    assert(o & m == a & m ==> o | (a | !m) == a | !m) by (bit_vector);
    assert(o & m == a & m ==> o <= a | !m) by (bit_vector);
    assert(o & m == a & m ==> o | !m == a | !m) by (bit_vector);
}

/// An address of a network interface.
#[derive(Clone, Copy, Debug, PartialEq, Eq, Structural)]
pub enum InterfaceAddress {
    V4 { ip: Ipv4Addr, netmask: Ipv4Addr, broadcast: Option<Ipv4Addr> },
    V6,
}

/// Where a datagram for the other devices of an interface's subnet goes: to
/// the broadcast address that the interface states, else to the one of its
/// subnet. Nowhere, where the interface or the broadcast address reaches no
/// others, or where the interface has no IPv4 address.
pub open spec fn target_of(address: InterfaceAddress) -> Option<Ipv4Addr> {
    match address {
        InterfaceAddress::V4 { ip, netmask, broadcast } => {
            let target = match broadcast {
                Some(stated) => stated,
                None => broadcast_of(ip, netmask),
            };
            if ip.reaches_others() && target.reaches_others() {
                Some(target)
            } else {
                None
            }
        },
        InterfaceAddress::V6 => None,
    }
}

/// Where the interfaces' datagrams go, in the order of the interfaces.
pub open spec fn targets_of(addresses: Seq<InterfaceAddress>) -> Seq<Ipv4Addr>
    decreases addresses.len(),
{
    if addresses.len() == 0 {
        Seq::empty()
    } else {
        let before = targets_of(addresses.drop_last());
        match target_of(addresses.last()) {
            Some(target) => before.push(target),
            None => before,
        }
    }
}

/// Where a datagram for the other devices of an interface's subnet goes.
pub fn interface_target(address: &InterfaceAddress) -> (res: Option<Ipv4Addr>)
    ensures
        res == target_of(*address),
{
    match address {
        InterfaceAddress::V4 { ip, netmask, broadcast } => {
            if ip.is_loopback() || ip.is_unspecified() {
                return None;
            }
            let target = match broadcast {
                Some(stated) => *stated,
                None => subnet_broadcast(*ip, *netmask),
            };
            if target.is_loopback() || target.is_unspecified() {
                None
            } else {
                Some(target)
            }
        },
        InterfaceAddress::V6 => None,
    }
}

/// Where the interfaces' datagrams go, in the order of the interfaces.
pub fn local_broadcast_targets(addresses: &[InterfaceAddress]) -> (res: Vec<Ipv4Addr>)
    ensures
        res@ == targets_of(addresses@),
{
    let mut res: Vec<Ipv4Addr> = Vec::new();
    let mut i: usize = 0;
    while i < addresses.len()
        invariant
            i <= addresses.len(),
            res@ == targets_of(addresses@.take(i as int)),
        decreases addresses.len() - i,
    {
        assert(addresses@.take(i + 1).drop_last() =~= addresses@.take(i as int));
        match interface_target(&addresses[i]) {
            Some(target) => res.push(target),
            None => {},
        }
        i += 1;
    }
    assert(addresses@.take(i as int) =~= addresses@);
    res
}

/// Whether the addresses rise from each to the next, so that none occurs
/// twice.
pub open spec fn rising(addresses: Seq<Ipv4Addr>) -> bool {
    forall|i: int, j: int|
        0 <= i < j < addresses.len() ==> #[trigger] addresses[i].bits < #[trigger] addresses[j].bits
}

/// Puts an address into its place among rising addresses, unless it is there.
fn place(addresses: &mut Vec<Ipv4Addr>, address: Ipv4Addr)
    requires
        rising(old(addresses)@),
    ensures
        rising(final(addresses)@),
        forall|other: Ipv4Addr|
            #[trigger] final(addresses)@.contains(other) <==> (other == address || old(
                addresses,
            )@.contains(other)),
{
    let ghost before = addresses@;
    let mut at: usize = 0;
    while at < addresses.len() && addresses[at].bits < address.bits
        invariant
            addresses@ == before,
            rising(before),
            at <= before.len(),
            forall|i: int| 0 <= i < at ==> (#[trigger] before[i]).bits < address.bits,
        decreases before.len() - at,
    {
        at += 1;
    }
    if at < addresses.len() && addresses[at].bits == address.bits {
        assert(before[at as int] == address);
        return ;
    }
    addresses.insert(at, address);
    let ghost after = addresses@;
    assert(after == before.insert(at as int, address));
    assert forall|i: int, j: int| 0 <= i < j < after.len() implies #[trigger] after[i].bits
        < #[trigger] after[j].bits by {
        if i == at {
            assert(after[j] == before[j - 1]);
            if j - 1 > at {
                assert(before[at as int].bits < before[j - 1].bits);
            }
        } else if j == at {
            assert(after[i] == before[i]);
        } else {
            let a = if i < at {
                i
            } else {
                i - 1
            };
            let b = if j < at {
                j
            } else {
                j - 1
            };
            assert(after[i] == before[a] && after[j] == before[b]);
        }
    }
    assert forall|other: Ipv4Addr| #[trigger] after.contains(other) <==> (other == address
        || before.contains(other)) by {
        if before.contains(other) {
            let k = choose|k: int| 0 <= k < before.len() && before[k] == other;
            assert(after[if k < at {
                k
            } else {
                k + 1
            }] == other);
        }
        if after.contains(other) {
            let k = choose|k: int| 0 <= k < after.len() && after[k] == other;
            if k != at {
                assert(before[if k < at {
                    k
                } else {
                    k - 1
                }] == other);
            }
        }
        assert(after[at as int] == address);
    }
}

/// All addresses to which a datagram for the devices of the local networks is
/// sent: one for each subnet, and the limited broadcast address, each once, in
/// rising order. One packet to the limited broadcast address alone can leave
/// through the wrong adapter.
pub fn network_targets(addresses: &[InterfaceAddress]) -> (res: Vec<Ipv4Addr>)
    ensures
        rising(res@),
        forall|target: Ipv4Addr|
            #[trigger] res@.contains(target) <==> (target == limited_broadcast() || targets_of(
                addresses@,
            ).contains(target)),
{
    let locals = local_broadcast_targets(addresses);
    let mut res: Vec<Ipv4Addr> = Vec::new();
    place(&mut res, Ipv4Addr { bits: u32::MAX });
    let mut i: usize = 0;
    while i < locals.len()
        invariant
            i <= locals.len(),
            rising(res@),
            forall|target: Ipv4Addr|
                #[trigger] res@.contains(target) <==> (target == limited_broadcast() || locals@.take(
                    i as int,
                ).contains(target)),
        decreases locals.len() - i,
    {
        let ghost before = res@;
        let ghost some = locals@.take(i as int);
        place(&mut res, locals[i]);
        assert(locals@.take(i + 1) =~= some.push(locals@[i as int]));
        assert forall|target: Ipv4Addr| #[trigger] res@.contains(target) <==> (target == limited_broadcast()
            || some.push(locals@[i as int]).contains(target)) by {
            let more = some.push(locals@[i as int]);
            assert(before.contains(target) <==> (target == limited_broadcast() || some.contains(target)));
            assert(more[some.len() as int] == locals@[i as int]);
            if some.contains(target) {
                let k = choose|k: int| 0 <= k < some.len() && some[k] == target;
                assert(more[k] == target);
            }
            if more.contains(target) {
                let k = choose|k: int| 0 <= k < more.len() && more[k] == target;
                if k < some.len() {
                    assert(some[k] == target);
                }
            }
        }
        i += 1;
    }
    assert(locals@.take(i as int) =~= locals@);
    res
}

/// What is said of a datagram that could be sent to none of no targets.
pub const NO_TARGET: &'static str = "no IPv4 broadcast target found";

/// Whether any of the attempts succeeded.
pub open spec fn any_sent<E>(attempts: Seq<Result<(), E>>) -> bool {
    exists|i: int| 0 <= i < attempts.len() && #[trigger] attempts[i] is Ok
}

/// What sending a datagram to each of several targets comes to: it succeeds
/// where one attempt did; else it fails as the last attempt did, or with
/// `otherwise` where there was no attempt.
pub fn sending_outcome<E>(attempts: Vec<Result<(), E>>, otherwise: E) -> (res: Result<(), E>)
    ensures
        res is Ok <==> any_sent(attempts@),
        !any_sent(attempts@) ==> res == (if attempts@.len() == 0 {
            Err(otherwise)
        } else {
            attempts@.last()
        }),
{
    let mut rest = attempts;
    let ghost all = attempts@;
    let mut last_error: Option<E> = None;
    while rest.len() > 0
        invariant
            all == attempts@,
            rest@ == all.take(rest@.len() as int),
            rest@.len() <= all.len(),
            forall|i: int| rest@.len() <= i < all.len() ==> #[trigger] all[i] is Err,
            last_error is None ==> rest@.len() == all.len(),
            last_error matches Some(error) ==> all.len() > 0 && all.last() == Err::<(), E>(error),
        decreases rest@.len(),
    {
        let ghost held = rest@;
        match rest.pop() {
            Some(Ok(_)) => {
                assert(all[held.len() - 1] is Ok);
                return Ok(());
            },
            Some(Err(error)) => {
                assert(all[held.len() - 1] == Err::<(), E>(error));
                if last_error.is_none() {
                    last_error = Some(error);
                }
            },
            None => {},
        }
        assert(rest@ =~= all.take(rest@.len() as int));
    }
    match last_error {
        Some(error) => Err(error),
        None => Err(otherwise),
    }
}

/// Where the datagrams of an interface go: to the broadcast address that it
/// states, else to the highest address of its subnet; to none of a loopback
/// interface, of one without an address, or of IPv6, and never to a loopback
/// address or to 0.0.0.0.
pub proof fn interface_is_reached_by_broadcast(
    ip: Ipv4Addr,
    netmask: Ipv4Addr,
    stated: Ipv4Addr,
)
    ensures
        target_of(InterfaceAddress::V6) is None,
        ip.bits / 16777216 == 127 || ip.bits == 0 ==> {
            &&& target_of(InterfaceAddress::V4 { ip, netmask, broadcast: Some(stated) }) is None
            &&& target_of(InterfaceAddress::V4 { ip, netmask, broadcast: None }) is None
        },
        stated.bits / 16777216 == 127 || stated.bits == 0 ==> target_of(
            InterfaceAddress::V4 { ip, netmask, broadcast: Some(stated) },
        ) is None,
        ip.bits / 16777216 != 127 && ip.bits != 0 && stated.bits / 16777216 != 127 && stated.bits
            != 0 ==> target_of(InterfaceAddress::V4 { ip, netmask, broadcast: Some(stated) })
            == Some(stated),
        ({
            let top = Ipv4Addr { bits: ip.bits | !netmask.bits };
            ip.bits / 16777216 != 127 && ip.bits != 0 && top.bits / 16777216 != 127 && top.bits != 0
                ==> target_of(InterfaceAddress::V4 { ip, netmask, broadcast: None }) == Some(top)
        }),
{
}

/// Every interface counts: the addresses for two lists of interfaces are those
/// for the first and then those for the second.
pub proof fn every_interface_counts(left: Seq<InterfaceAddress>, right: Seq<InterfaceAddress>)
    ensures
        targets_of(left + right) == targets_of(left) + targets_of(right),
        targets_of(Seq::empty()) == Seq::<Ipv4Addr>::empty(),
        forall|one: InterfaceAddress|
            targets_of(#[trigger] seq![one]) == match target_of(one) {
                Some(target) => seq![target],
                None => Seq::<Ipv4Addr>::empty(),
            },
    decreases right.len(),
{
    if right.len() == 0 {
        assert(left + right =~= left);
        assert(targets_of(left) + targets_of(right) =~= targets_of(left));
    } else {
        every_interface_counts(left, right.drop_last());
        assert((left + right).drop_last() =~= left + right.drop_last());
        assert((left + right).last() == right.last());
        assert(targets_of(left + right) =~= targets_of(left) + targets_of(right));
    }
    assert forall|one: InterfaceAddress|
        targets_of(#[trigger] seq![one]) == match target_of(one) {
            Some(target) => seq![target],
            None => Seq::<Ipv4Addr>::empty(),
        } by {
        assert(seq![one].drop_last() =~= Seq::empty());
        assert(targets_of(Seq::empty()) =~= Seq::empty());
        match target_of(one) {
            Some(target) => {
                assert(targets_of(seq![one]) =~= seq![target]);
            },
            None => {},
        }
    }
}

/// The limited broadcast address has every bit set.
pub proof fn limited_broadcast_has_all_bits(bits: u32)
    ensures
        limited_broadcast().bits == 0xffff_ffff,
        bits <= limited_broadcast().bits,
{
}

} // verus!
