//! Where shreds are sent: discovered endpoints and configured ones, each once.
use vstd::prelude::*;

use crate::addr::{
    socket_key_round_trip, sockets_keep_their_address, IpAddr, SocketAddr, SocketKey,
};
use crate::bindings::{json_ip_list, parse_ip_list, unique_keys};

verus! {

/// Why a reply of the discovery service cannot be used.
#[derive(Debug)]
pub enum DiscoveryError {
    /// It is not a JSON array of IP addresses.
    Json(serde_json::Error),
}

/// The items of a sequence without those that occurred before, in order.
pub open spec fn first_occurrences<A>(items: Seq<A>) -> Seq<A>
    decreases items.len(),
{
    if items.len() == 0 {
        Seq::empty()
    } else {
        let earlier = first_occurrences(items.drop_last());
        if earlier.contains(items.last()) {
            earlier
        } else {
            earlier.push(items.last())
        }
    }
}

/// Whether `item` occurs at a place that no `other` comes before.
pub open spec fn comes_before<A>(items: Seq<A>, item: A, other: A) -> bool {
    exists|k: int|
        0 <= k < items.len() && #[trigger] items[k] == item && !items.take(k).contains(other)
}

/// The destinations in the order in which they are named: the discovered addresses at the given
/// port, then the configured ones that could be resolved.
pub open spec fn named_destinations(
    discovered: Seq<IpAddr>,
    port: u16,
    configured: Seq<Option<SocketAddr>>,
) -> Seq<SocketAddr> {
    discovered.map_values(|ip: IpAddr| SocketAddr::at(ip, port)) + configured.filter_map(
        |resolved: Option<SocketAddr>| resolved,
    )
}

/// What keeping first occurrences does: nothing is left twice, nothing is lost or added, and what
/// is left keeps the order in which it first came.
pub proof fn first_occurrences_are_unique<A>(items: Seq<A>)
    ensures
        first_occurrences(items).no_duplicates(),
        forall|item: A| #[trigger]
            first_occurrences(items).contains(item) <==> items.contains(item),
        forall|i: int, j: int|
            0 <= i < j < first_occurrences(items).len() ==> comes_before(
                items,
                #[trigger] first_occurrences(items)[i],
                #[trigger] first_occurrences(items)[j],
            ),
    decreases items.len(),
{
    if items.len() > 0 {
        let rest = items.drop_last();
        let earlier = first_occurrences(rest);
        let all = first_occurrences(items);
        first_occurrences_are_unique(rest);
        assert forall|item: A| all.contains(item) <==> items.contains(item) by {
            if items.contains(item) {
                let k = choose|k: int| 0 <= k < items.len() && items[k] == item;
                if k < rest.len() {
                    assert(rest[k] == item);
                    assert(rest.contains(item));
                    assert(earlier.contains(item));
                    let i = choose|i: int| 0 <= i < earlier.len() && earlier[i] == item;
                    assert(all[i] == item);
                } else if !earlier.contains(item) {
                    assert(all[all.len() - 1] == item);
                }
            }
            if all.contains(item) {
                let i = choose|i: int| 0 <= i < all.len() && all[i] == item;
                if i < earlier.len() {
                    assert(earlier.contains(item));
                    assert(rest.contains(item));
                    let k = choose|k: int| 0 <= k < rest.len() && rest[k] == item;
                    assert(items[k] == item);
                } else {
                    assert(items[items.len() - 1] == item);
                }
            }
        }
        assert forall|i: int, j: int| 0 <= i < j < all.len() implies comes_before(
            items,
            #[trigger] all[i],
            #[trigger] all[j],
        ) by {
            if j < earlier.len() {
                assert(comes_before(rest, earlier[i], earlier[j]));
                let k = choose|k: int|
                    0 <= k < rest.len() && #[trigger] rest[k] == earlier[i] && !rest.take(
                        k,
                    ).contains(earlier[j]);
                assert(items.take(k) =~= rest.take(k));
                assert(items[k] == all[i]);
            } else {
                assert(earlier.contains(earlier[i]));
                assert(rest.contains(earlier[i]));
                let k = choose|k: int| 0 <= k < rest.len() && rest[k] == earlier[i];
                assert(items[k] == all[i]);
                assert(!rest.contains(all[j]));
                assert forall|m: int| 0 <= m < k implies items.take(k)[m] != all[j] by {
                    assert(rest[m] == items.take(k)[m]);
                }
            }
        }
    }
}

/// Taking first occurrences and replacing every item by its key come to the same in either order.
proof fn first_occurrences_of_keys(addrs: Seq<SocketAddr>)
    ensures
        first_occurrences(addrs.map_values(|addr: SocketAddr| addr.key_of())) == first_occurrences(
            addrs,
        ).map_values(|addr: SocketAddr| addr.key_of()),
    decreases addrs.len(),
{
    let key = |addr: SocketAddr| addr.key_of();
    let keys = addrs.map_values(key);
    if addrs.len() == 0 {
        assert(first_occurrences(keys) =~= first_occurrences(addrs).map_values(key));
    } else {
        let rest = addrs.drop_last();
        first_occurrences_of_keys(rest);
        assert(keys.drop_last() =~= rest.map_values(key));
        let earlier = first_occurrences(rest);
        let last = addrs.last();
        assert(earlier.contains(last) <==> earlier.map_values(key).contains(key(last))) by {
            if earlier.contains(last) {
                let i = choose|i: int| 0 <= i < earlier.len() && earlier[i] == last;
                assert(earlier.map_values(key)[i] == key(last));
            }
            if earlier.map_values(key).contains(key(last)) {
                let i = choose|i: int|
                    0 <= i < earlier.len() && earlier.map_values(key)[i] == key(last);
                socket_key_round_trip(earlier[i]);
                socket_key_round_trip(last);
                assert(earlier[i] == last);
            }
        }
        assert(first_occurrences(keys) =~= first_occurrences(addrs).map_values(key));
    }
}

/// No destination is named twice; every discovered address is one, at the given port, and so is
/// every configured address that could be resolved; and there are no others.
pub proof fn destinations_are_the_union(
    discovered: Seq<IpAddr>,
    port: u16,
    configured: Seq<Option<SocketAddr>>,
)
    ensures
        ({
            let union = first_occurrences(named_destinations(discovered, port, configured));
            &&& union.no_duplicates()
            &&& forall|addr: SocketAddr|
                union.contains(addr) <==> (exists|ip: IpAddr| #[trigger]
                    discovered.contains(ip) && addr == SocketAddr::at(ip, port))
                    || configured.contains(Some(addr))
        }),
{
    let named = named_destinations(discovered, port, configured);
    let at_port = |ip: IpAddr| SocketAddr::at(ip, port);
    let resolved = |entry: Option<SocketAddr>| entry;
    let union = first_occurrences(named);
    first_occurrences_are_unique(named);
    assert forall|addr: SocketAddr|
        union.contains(addr) <==> (exists|ip: IpAddr| #[trigger]
            discovered.contains(ip) && addr == SocketAddr::at(ip, port)) || configured.contains(
            Some(addr),
        ) by {
        resolved_are_kept(configured, addr);
        let left = discovered.map_values(at_port);
        let right = configured.filter_map(resolved);
        if named.contains(addr) {
            let k = choose|k: int| 0 <= k < named.len() && named[k] == addr;
            if k < left.len() {
                assert(discovered.contains(discovered[k]));
            } else {
                assert(right[k - left.len()] == addr);
                assert(right.contains(addr));
            }
        }
        if exists|ip: IpAddr| #[trigger]
            discovered.contains(ip) && addr == SocketAddr::at(ip, port) {
            let ip = choose|ip: IpAddr| #[trigger]
                discovered.contains(ip) && addr == SocketAddr::at(ip, port);
            let k = choose|k: int| 0 <= k < discovered.len() && discovered[k] == ip;
            assert(named[k] == addr);
        }
        if right.contains(addr) {
            let k = choose|k: int| 0 <= k < right.len() && right[k] == addr;
            assert(named[left.len() + k] == addr);
        }
    }
}

/// A discovered IPv4 address is a destination under its own number and the given port; so is an IPv6
/// one, with neither flow label nor scope. A configured address is one as it was resolved. Every
/// destination is one or the other.
pub proof fn destinations_keep_their_address(
    discovered: Seq<IpAddr>,
    port: u16,
    configured: Seq<Option<SocketAddr>>,
    addr: SocketAddr,
)
    ensures
        ({
            let union = first_occurrences(named_destinations(discovered, port, configured));
            union.contains(addr) <==> configured.contains(Some(addr)) || match addr {
                SocketAddr::V4 { ip, port: at } => at == port && discovered.contains(
                    IpAddr::V4(ip),
                ),
                SocketAddr::V6 { ip6, port: at, flowinfo, scope_id } => at == port && flowinfo == 0
                    && scope_id == 0 && discovered.contains(IpAddr::V6(ip6)),
            }
        }),
{
    destinations_are_the_union(discovered, port, configured);
    let ip = match addr {
        SocketAddr::V4 { ip, .. } => IpAddr::V4(ip),
        SocketAddr::V6 { ip6, .. } => IpAddr::V6(ip6),
    };
    sockets_keep_their_address(ip, port);
    assert forall|other: IpAddr| #[trigger]
        discovered.contains(other) && addr == SocketAddr::at(other, port) implies other == ip by {
        sockets_keep_their_address(other, port);
    }
}

/// Destinations are named in order: first the discovered addresses, each at the port, one by one;
/// then the configured ones, leaving out those that could not be resolved.
pub proof fn destinations_are_named_in_order(
    discovered: Seq<IpAddr>,
    port: u16,
    configured: Seq<Option<SocketAddr>>,
    more: Seq<Option<SocketAddr>>,
    i: int,
    addr: SocketAddr,
)
    ensures
        named_destinations(discovered, port, configured).len() >= discovered.len(),
        0 <= i < discovered.len() ==> match (
            discovered[i],
            named_destinations(discovered, port, configured)[i],
        ) {
            (IpAddr::V4(bits), SocketAddr::V4 { ip, port: at }) => ip == bits && at == port,
            (IpAddr::V6(bits), SocketAddr::V6 { ip6, port: at, flowinfo, scope_id }) => ip6 == bits
                && at == port && flowinfo == 0 && scope_id == 0,
            _ => false,
        },
        named_destinations(discovered, port, seq![]).len() == discovered.len(),
        named_destinations(discovered, port, configured + more) == named_destinations(
            discovered,
            port,
            configured,
        ) + named_destinations(seq![], port, more),
        named_destinations(seq![], port, seq![Some(addr)]) == seq![addr],
        named_destinations(seq![], port, seq![None]).len() == 0,
{
    let at_port = |ip: IpAddr| SocketAddr::at(ip, port);
    let none = Seq::<Option<SocketAddr>>::empty();
    if 0 <= i < discovered.len() {
        sockets_keep_their_address(discovered[i], port);
    }
    reveal_with_fuel(Seq::filter_map, 2);
    assert(seq![Some(addr)].drop_last() =~= none);
    assert(seq![None::<SocketAddr>].drop_last() =~= none);
    assert(named_destinations(seq![], port, seq![Some(addr)]) =~= seq![addr]);
    resolved_in_a_row(configured, more);
    assert(Seq::<IpAddr>::empty().map_values(at_port) =~= Seq::<SocketAddr>::empty());
    assert(named_destinations(discovered, port, configured + more) =~= named_destinations(
        discovered,
        port,
        configured,
    ) + named_destinations(seq![], port, more));
}

proof fn resolved_in_a_row(some: Seq<Option<SocketAddr>>, more: Seq<Option<SocketAddr>>)
    ensures
        ({
            let resolved = |resolved: Option<SocketAddr>| resolved;
            (some + more).filter_map(resolved) == some.filter_map(resolved) + more.filter_map(
                resolved,
            )
        }),
    decreases more.len(),
{
    if more.len() > 0 {
        resolved_in_a_row(some, more.drop_last());
        assert((some + more).drop_last() =~= some + more.drop_last());
    } else {
        assert(some + more =~= some);
    }
}

proof fn resolved_are_no_more(configured: Seq<Option<SocketAddr>>)
    ensures
        configured.filter_map(|resolved: Option<SocketAddr>| resolved).len() <= configured.len(),
    decreases configured.len(),
{
    if configured.len() > 0 {
        resolved_are_no_more(configured.drop_last());
    }
}

proof fn first_occurrences_are_no_more<A>(items: Seq<A>)
    ensures
        first_occurrences(items).len() <= items.len(),
    decreases items.len(),
{
    if items.len() > 0 {
        first_occurrences_are_no_more(items.drop_last());
    }
}

/// Items of which none occurs twice all stay, each at its place.
pub proof fn distinct_items_stay<A>(items: Seq<A>)
    requires
        items.no_duplicates(),
    ensures
        first_occurrences(items) == items,
    decreases items.len(),
{
    if items.len() > 0 {
        let rest = items.drop_last();
        assert(rest.no_duplicates());
        distinct_items_stay(rest);
        assert(!rest.contains(items.last()));
        assert(rest.push(items.last()) =~= items);
    }
}

/// An item that comes again changes nothing, and a new one comes last.
pub proof fn first_occurrences_grow_at_the_end<A>(items: Seq<A>, item: A)
    ensures
        items.contains(item) ==> first_occurrences(items.push(item)) == first_occurrences(items),
        !items.contains(item) ==> first_occurrences(items.push(item)) == first_occurrences(
            items,
        ).push(item),
{
    assert(items.push(item).drop_last() =~= items);
    first_occurrences_are_unique(items);
    assert(first_occurrences(items).contains(item) <==> items.contains(item));
}

proof fn resolved_are_kept(configured: Seq<Option<SocketAddr>>, addr: SocketAddr)
    ensures
        configured.filter_map(|entry: Option<SocketAddr>| entry).contains(addr)
            <==> configured.contains(Some(addr)),
    decreases configured.len(),
{
    let resolved = |entry: Option<SocketAddr>| entry;
    let kept = configured.filter_map(resolved);
    if configured.len() > 0 {
        let rest = configured.drop_last();
        resolved_are_kept(rest, addr);
        let earlier = rest.filter_map(resolved);
        if configured.contains(Some(addr)) {
            let k = choose|k: int| 0 <= k < configured.len() && configured[k] == Some(addr);
            if k < rest.len() {
                assert(rest[k] == Some(addr));
                let i = choose|i: int| 0 <= i < earlier.len() && earlier[i] == addr;
                assert(kept[i] == addr);
            } else {
                assert(kept[kept.len() - 1] == addr);
            }
        }
        if kept.contains(addr) {
            let i = choose|i: int| 0 <= i < kept.len() && kept[i] == addr;
            if i < earlier.len() {
                assert(earlier[i] == addr);
                let k = choose|k: int| 0 <= k < rest.len() && rest[k] == Some(addr);
                assert(configured[k] == Some(addr));
            } else {
                assert(configured[configured.len() - 1] == Some(addr));
            }
        }
    }
}

/// Reads the reply of the discovery service: a JSON array of IP addresses.
pub fn parse_discovered(reply: &[u8]) -> (parsed: Result<Vec<IpAddr>, DiscoveryError>)
    ensures
        match parsed {
            Ok(addrs) => json_ip_list(reply@) == Some(addrs@),
            Err(DiscoveryError::Json(_)) => json_ip_list(reply@) is None,
        },
{
    match parse_ip_list(reply) {
        Ok(addrs) => Ok(addrs),
        Err(error) => Err(DiscoveryError::Json(error)),
    }
}

/// The discovered addresses at the given port and the configured addresses that could be resolved
/// (`None` stands for one that could not), each once.
pub fn union_destinations(
    discovered: &Vec<IpAddr>,
    port: u16,
    configured: &Vec<Option<SocketAddr>>,
) -> (destinations: Vec<SocketAddr>)
    ensures
        destinations@ == first_occurrences(named_destinations(discovered@, port, configured@)),
        destinations@.no_duplicates(),
        forall|ip: u32|
            discovered@.contains(IpAddr::V4(ip)) ==> #[trigger] destinations@.contains(
                SocketAddr::V4 { ip, port },
            ),
        forall|ip6: u128|
            discovered@.contains(IpAddr::V6(ip6)) ==> #[trigger] destinations@.contains(
                SocketAddr::V6 { ip6, port, flowinfo: 0, scope_id: 0 },
            ),
        forall|addr: SocketAddr|
            configured@.contains(Some(addr)) ==> #[trigger] destinations@.contains(addr),
        destinations@.len() <= discovered@.len() + configured@.len(),
{
    let ghost key = |addr: SocketAddr| addr.key_of();
    let ghost at_port = |ip: IpAddr| SocketAddr::at(ip, port);
    let ghost resolved = |entry: Option<SocketAddr>| entry;
    let mut keys: Vec<SocketKey> = Vec::new();
    let mut i: usize = 0;
    while i < discovered.len()
        invariant
            i <= discovered.len(),
            key == (|addr: SocketAddr| addr.key_of()),
            at_port == (|ip: IpAddr| SocketAddr::at(ip, port)),
            keys@ == discovered@.take(i as int).map_values(at_port).map_values(key),
        decreases discovered.len() - i,
    {
        let ghost before = keys@;
        keys.push(SocketAddr::new(discovered[i], port).key());
        i = i + 1;
        assert(discovered@.take(i as int).map_values(at_port).map_values(key) =~= before.push(
            key(at_port(discovered@[i - 1])),
        ));
    }
    assert(discovered@.take(i as int) =~= discovered@);
    let ghost found = discovered@.map_values(at_port);
    let mut j: usize = 0;
    assert(configured@.take(0).filter_map(resolved) =~= Seq::empty());
    assert(keys@ =~= (found + configured@.take(0).filter_map(resolved)).map_values(key));
    while j < configured.len()
        invariant
            j <= configured.len(),
            key == (|addr: SocketAddr| addr.key_of()),
            resolved == (|entry: Option<SocketAddr>| entry),
            keys@ == (found + configured@.take(j as int).filter_map(resolved)).map_values(key),
        decreases configured.len() - j,
    {
        let ghost before = keys@;
        let ghost listed = found + configured@.take(j as int).filter_map(resolved);
        proof {
            configured@.lemma_filter_map_take_succ(resolved, j as int);
        }
        if let Some(addr) = &configured[j] {
            keys.push(addr.key());
            assert(found + configured@.take(j + 1).filter_map(resolved) =~= listed.push(*addr));
            assert(listed.push(*addr).map_values(key) =~= before.push(key(*addr)));
        } else {
            assert(found + configured@.take(j + 1).filter_map(resolved) =~= listed);
        }
        j = j + 1;
    }
    let ghost named = named_destinations(discovered@, port, configured@);
    assert(configured@.take(j as int) =~= configured@);
    assert(keys@ == named.map_values(key));
    let unique = unique_keys(keys);
    proof {
        first_occurrences_of_keys(named);
    }
    let ghost union = first_occurrences(named);
    let mut destinations: Vec<SocketAddr> = Vec::new();
    let mut k: usize = 0;
    while k < unique.len()
        invariant
            k <= unique.len(),
            key == (|addr: SocketAddr| addr.key_of()),
            unique@ == union.map_values(key),
            destinations@ == union.take(k as int),
        decreases unique.len() - k,
    {
        proof {
            socket_key_round_trip(union[k as int]);
        }
        destinations.push(SocketAddr::from_key(unique[k]));
        k = k + 1;
        assert(union.take(k as int) =~= union.take(k - 1).push(union[k - 1]));
    }
    assert(union.take(k as int) =~= union);
    proof {
        first_occurrences_are_unique(named);
        assert forall|ip: u32|
            discovered@.contains(IpAddr::V4(ip)) implies #[trigger] destinations@.contains(
            SocketAddr::V4 { ip, port },
        ) by {
            let addr = SocketAddr::V4 { ip, port };
            destinations_keep_their_address(discovered@, port, configured@, addr);
        }
        assert forall|ip6: u128|
            discovered@.contains(IpAddr::V6(ip6)) implies #[trigger] destinations@.contains(
            SocketAddr::V6 { ip6, port, flowinfo: 0, scope_id: 0 },
        ) by {
            let addr = SocketAddr::V6 { ip6, port, flowinfo: 0, scope_id: 0 };
            destinations_keep_their_address(discovered@, port, configured@, addr);
        }
        resolved_are_no_more(configured@);
        first_occurrences_are_no_more(named);
        assert forall|addr: SocketAddr|
            configured@.contains(Some(addr)) implies #[trigger] destinations@.contains(addr) by {
            destinations_keep_their_address(discovered@, port, configured@, addr);
        }
    }
    destinations
}

} // verus!
