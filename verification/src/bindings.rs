//! The outside crates: their types, what is believed of their functions, and the calls.
//!
//! The maps are `dashmap::DashMap`s, which lock inside and can change behind a shared reference.
//! The functions here that change one take it by `&mut`, so what a map holds changes only where a
//! contract says so.
use vstd::prelude::*;

use crate::addr::{IpAddr, PairKey, SocketKey, SourceKey};
use crate::destinations::first_occurrences;
use crate::histogram::DupLagHistogram;
use crate::packet::{discarded_of, filter_state, Packet};
use crate::tracker::FirstSeen;

verus! {

/// `dashmap::DashMap`, a hash map.
#[verifier::external_type_specification]
#[verifier::external_body]
#[verifier::reject_recursive_types(K)]
#[verifier::reject_recursive_types(V)]
#[verifier::reject_recursive_types(S)]
pub struct ExDashMap<K, V, S>(dashmap::DashMap<K, V, S>);

/// `ahash::RandomState`, the keys of a hash function.
#[verifier::external_type_specification]
#[verifier::external_body]
pub struct ExRandomState(ahash::RandomState);

/// `solana_perf::deduper::Deduper`, a Bloom filter over byte strings.
#[verifier::external_type_specification]
#[verifier::external_body]
#[verifier::reject_recursive_types(T)]
pub struct ExDeduper<const K: usize, T: ?Sized>(solana_perf::deduper::Deduper<K, T>);

/// `serde_json::Error`, why some bytes are not the JSON that was asked for.
#[verifier::external_type_specification]
#[verifier::external_body]
pub struct ExJsonError(serde_json::Error);

/// The IP addresses that a JSON array spells, or `None` if the bytes are not a JSON array of
/// strings that spell IP addresses.
pub uninterp spec fn json_ip_list(bytes: Seq<u8>) -> Option<Seq<IpAddr>>;

/// The 64-bit hash that `hasher` gives to `data`: a function of the two, since a hasher does not
/// leave the process that made it.
pub uninterp spec fn keyed_hash(hasher: ahash::RandomState, data: Seq<u8>) -> u64;

/// The seeds of a hasher: those which, given to `ahash::RandomState::with_seeds`, make its keys.
pub uninterp spec fn hasher_seeds(hasher: ahash::RandomState) -> (u64, u64, u64, u64);

/// Whether every hasher with the same seeds as `hasher` gives the hashes that `hasher` gives.
pub open spec fn hashes_by_seeds(hasher: ahash::RandomState) -> bool {
    forall|other: ahash::RandomState, data: Seq<u8>|
        hasher_seeds(other) == hasher_seeds(hasher) ==> #[trigger] keyed_hash(other, data)
            == keyed_hash(hasher, data)
}

/// What a map of first sightings holds.
pub uninterp spec fn first_seen_entries(map: dashmap::DashMap<u64, FirstSeen>) -> Map<u64, FirstSeen>;

/// What a map of lag histograms holds.
pub uninterp spec fn histogram_entries(map: dashmap::DashMap<PairKey, DupLagHistogram>) -> Map<PairKey, DupLagHistogram>;

/// What a map of packet counts holds.
pub uninterp spec fn packet_entries(map: dashmap::DashMap<SourceKey, (u64, u64)>) -> Map<SourceKey, (u64, u64)>;

/// The bits of a filter that are set, by their place.
pub uninterp spec fn set_bits(filter: solana_perf::deduper::Deduper<2, [u8]>) -> Set<u64>;

/// The bits of a filter that stand for a payload, by their place: one for each of the filter's keys,
/// and the same one if two keys agree on it. They change only with the keys.
pub uninterp spec fn payload_bits(filter: solana_perf::deduper::Deduper<2, [u8]>, payload: Seq<u8>) -> Set<u64>;

/// The number of bits that a filter was made with.
pub uninterp spec fn filter_bits(filter: solana_perf::deduper::Deduper<2, [u8]>) -> u64;

/// Whether `listed` holds each entry of `map` once and nothing else, in some order.
pub open spec fn lists_entries<K, V>(listed: Seq<(K, V)>, map: Map<K, V>) -> bool {
    &&& forall|i: int|
        0 <= i < listed.len() ==> map.contains_pair((#[trigger] listed[i]).0, listed[i].1)
    &&& forall|i: int, j: int|
        0 <= i < j < listed.len() ==> (#[trigger] listed[i]).0 != (#[trigger] listed[j]).0
    &&& forall|key: K| #[trigger]
        map.contains_key(key) ==> exists|i: int|
            0 <= i < listed.len() && (#[trigger] listed[i]).0 == key
}

/// `ahash::RandomState::new`: a hash function with keys of its own. Which keys is left to chance.
#[verifier::external_body]
pub(crate) fn random_hasher() -> (hasher: ahash::RandomState) {
    ahash::RandomState::new()
}

/// `ahash::RandomState::with_seeds`: a hash function whose keys are made of the given seeds, each
/// of the four by a constant of its own. The keys are all that a hasher is, so equal seeds give equal
/// hashes within the process. ahash gives other hashes on another computer: which hashes the seeds
/// lead to is left unsaid.
#[verifier::external_body]
pub(crate) fn seeded_hasher(k0: u64, k1: u64, k2: u64, k3: u64) -> (hasher: ahash::RandomState)
    ensures
        hasher_seeds(hasher) == (k0, k1, k2, k3),
        hashes_by_seeds(hasher),
{
    ahash::RandomState::with_seeds(k0, k1, k2, k3)
}

/// `ahash::RandomState::hash_one` on a byte slice: the hash is a function of the hasher's keys and
/// of the bytes.
#[verifier::external_body]
pub(crate) fn hash_bytes(hasher: &ahash::RandomState, data: &[u8]) -> (hash: u64)
    ensures
        hash == keyed_hash(*hasher, data@),
{
    hasher.hash_one(data)
}

/// `DashMap::new`: a map of first sightings that holds nothing.
#[verifier::external_body]
pub(crate) fn new_first_seen() -> (map: dashmap::DashMap<u64, FirstSeen>)
    ensures
        first_seen_entries(map) == (Map::<u64, FirstSeen>::empty()),
{
    dashmap::DashMap::new()
}

/// `DashMap::clear` on first sightings: nothing is left.
#[verifier::external_body]
pub(crate) fn clear_first_seen(map: &mut dashmap::DashMap<u64, FirstSeen>)
    ensures
        first_seen_entries(*final(map)) == (Map::<u64, FirstSeen>::empty()),
{
    map.clear()
}

/// `DashMap::get` on first sightings: the value under a key, or `None`.
#[verifier::external_body]
pub(crate) fn get_first_seen(map: &dashmap::DashMap<u64, FirstSeen>, key: u64) -> (found: Option<
    FirstSeen,
>)
    ensures
        match found {
            Some(first) => first_seen_entries(*map).contains_pair(key, first),
            None => !first_seen_entries(*map).contains_key(key),
        },
{
    map.get(&key).map(|entry| *entry.value())
}

/// `DashMap::entry` on first sightings: the value under a key if there is one, with the map as it
/// was; else the new value is put there.
#[verifier::external_body]
pub(crate) fn find_or_insert_first_seen(
    map: &mut dashmap::DashMap<u64, FirstSeen>,
    key: u64,
    first: FirstSeen,
) -> (found: Option<FirstSeen>)
    ensures
        match found {
            Some(earlier) => {
                &&& first_seen_entries(*old(map)).contains_pair(key, earlier)
                &&& first_seen_entries(*final(map)) == first_seen_entries(*old(map))
            },
            None => {
                &&& !first_seen_entries(*old(map)).contains_key(key)
                &&& first_seen_entries(*final(map)) == first_seen_entries(*old(map)).insert(key, first)
            },
        },
{
    match map.entry(key) {
        dashmap::mapref::entry::Entry::Occupied(entry) => Some(*entry.get()),
        dashmap::mapref::entry::Entry::Vacant(slot) => {
            slot.insert(first);
            None
        },
    }
}

/// `DashMap::insert` on first sightings: the value goes under the key, in place of any other.
#[verifier::external_body]
pub(crate) fn put_first_seen(
    map: &mut dashmap::DashMap<u64, FirstSeen>,
    key: u64,
    first: FirstSeen,
)
    ensures
        first_seen_entries(*final(map)) == first_seen_entries(*old(map)).insert(key, first),
{
    map.insert(key, first);
}

/// `DashMap::remove` on first sightings: nothing is left under the key; the rest stays.
#[verifier::external_body]
pub(crate) fn remove_first_seen(map: &mut dashmap::DashMap<u64, FirstSeen>, key: u64)
    ensures
        first_seen_entries(*final(map)) == first_seen_entries(*old(map)).remove(key),
{
    map.remove(&key);
}

/// `DashMap::len` on first sightings: how many there are.
#[verifier::external_body]
pub(crate) fn count_first_seen(map: &dashmap::DashMap<u64, FirstSeen>) -> (count: usize)
    ensures
        count == first_seen_entries(*map).len(),
{
    map.len()
}

/// `DashMap::new`: a map of histograms that holds nothing.
#[verifier::external_body]
pub(crate) fn new_histograms() -> (map: dashmap::DashMap<PairKey, DupLagHistogram>)
    ensures
        histogram_entries(map) == (Map::<PairKey, DupLagHistogram>::empty()),
{
    dashmap::DashMap::new()
}

/// `DashMap::get` on histograms: the value under a key, or `None`.
#[verifier::external_body]
pub(crate) fn get_histogram(
    map: &dashmap::DashMap<PairKey, DupLagHistogram>,
    key: PairKey,
) -> (found: Option<DupLagHistogram>)
    ensures
        match found {
            Some(hist) => histogram_entries(*map).contains_pair(key, hist),
            None => !histogram_entries(*map).contains_key(key),
        },
{
    map.get(&key).map(|entry| *entry.value())
}

/// `DashMap::insert` on histograms: the value goes under the key, in place of any other.
#[verifier::external_body]
pub(crate) fn put_histogram(
    map: &mut dashmap::DashMap<PairKey, DupLagHistogram>,
    key: PairKey,
    hist: DupLagHistogram,
)
    ensures
        histogram_entries(*final(map)) == histogram_entries(*old(map)).insert(key, hist),
{
    map.insert(key, hist);
}

/// `DashMap::iter` on histograms: every entry once, in an order that is not known.
#[verifier::external_body]
pub(crate) fn list_histograms(map: &dashmap::DashMap<PairKey, DupLagHistogram>) -> (listed: Vec<
    (PairKey, DupLagHistogram),
>)
    ensures
        lists_entries(listed@, histogram_entries(*map)),
{
    map.iter().map(|entry| (*entry.key(), *entry.value())).collect()
}

/// `DashMap::with_capacity`: a map of packet counts that holds nothing, with room for `capacity`
/// entries.
#[verifier::external_body]
pub(crate) fn new_packet_counts(capacity: usize) -> (map: dashmap::DashMap<SourceKey, (u64, u64)>)
    requires
        capacity <= 1024,
    ensures
        packet_entries(map) == (Map::<SourceKey, (u64, u64)>::empty()),
{
    dashmap::DashMap::with_capacity(capacity)
}

/// `DashMap::get` on packet counts: the value under a key, or `None`.
#[verifier::external_body]
pub(crate) fn get_packet_counts(
    map: &dashmap::DashMap<SourceKey, (u64, u64)>,
    key: SourceKey,
) -> (found: Option<(u64, u64)>)
    ensures
        match found {
            Some(counts) => packet_entries(*map).contains_pair(key, counts),
            None => !packet_entries(*map).contains_key(key),
        },
{
    map.get(&key).map(|entry| *entry.value())
}

/// `DashMap::insert` on packet counts: the value goes under the key, in place of any other.
#[verifier::external_body]
pub(crate) fn put_packet_counts(
    map: &mut dashmap::DashMap<SourceKey, (u64, u64)>,
    key: SourceKey,
    counts: (u64, u64),
)
    ensures
        packet_entries(*final(map)) == packet_entries(*old(map)).insert(key, counts),
{
    map.insert(key, counts);
}

/// `DashMap::iter` on packet counts: every entry once, in an order that is not known.
#[verifier::external_body]
pub(crate) fn list_packet_counts(map: &dashmap::DashMap<SourceKey, (u64, u64)>) -> (listed: Vec<
    (SourceKey, (u64, u64)),
>)
    ensures
        lists_entries(listed@, packet_entries(*map)),
{
    map.iter().map(|entry| (*entry.key(), *entry.value())).collect()
}

/// `DashMap::clear` on packet counts: nothing is left.
#[verifier::external_body]
pub(crate) fn clear_packet_counts(map: &mut dashmap::DashMap<SourceKey, (u64, u64)>)
    ensures
        packet_entries(*final(map)) == (Map::<SourceKey, (u64, u64)>::empty()),
{
    map.clear()
}

/// `solana_perf::deduper::Deduper::new`: a filter with no bit set, in which at least one bit stands
/// for each payload. Which bits is decided by keys that come from `rand::thread_rng`.
#[verifier::external_body]
pub(crate) fn new_filter(num_bits: u64) -> (filter: solana_perf::deduper::Deduper<2, [u8]>)
    requires
        0 < num_bits <= 0x1_0000_0000,
    ensures
        set_bits(filter) == (Set::<u64>::empty()),
        forall|payload: Seq<u8>| #[trigger] payload_bits(filter, payload) != (Set::<u64>::empty()),
        filter_bits(filter) == num_bits,
{
    solana_perf::deduper::Deduper::new(&mut rand::thread_rng(), num_bits)
}

/// `solana_perf::deduper::dedup_packets_and_count_discards` on one batch: packet by packet, one that
/// has a payload is shown to the filter, which sets the bits of the payload, and is discarded just
/// if they were all set before; one without a payload is discarded. The filter keeps its keys. The
/// result is the number of discarded packets.
#[verifier::external_body]
pub(crate) fn dedup_packets_and_count_discards(
    filter: &mut solana_perf::deduper::Deduper<2, [u8]>,
    packets: &mut Vec<Packet>,
) -> (num_discarded: u64)
    requires
        filter_bits(*old(filter)) > 0,
    ensures
        final(packets)@ == filter_state(*old(filter)).deduped(old(packets)@),
        set_bits(*final(filter)) == filter_state(*old(filter)).shown(old(packets)@).set,
        forall|payload: Seq<u8>| #[trigger]
            payload_bits(*final(filter), payload) == payload_bits(*old(filter), payload),
        num_discarded == discarded_of(final(packets)@),
        filter_bits(*final(filter)) == filter_bits(*old(filter)),
{
    let convert = |packet: &Packet| {
        let mut meta = solana_perf::packet::Meta::default();
        meta.size = packet.meta.size;
        meta.set_discard(packet.meta.discard);
        solana_perf::packet::Packet::new(packet.buffer, meta)
    };
    let mut batches = [solana_perf::packet::PacketBatch::new(packets.iter().map(convert).collect())];
    let count = solana_perf::deduper::dedup_packets_and_count_discards(filter, &mut batches);
    for (packet, seen) in packets.iter_mut().zip(batches[0].iter()) {
        packet.meta.discard = seen.meta().discard();
    }
    count
}

/// `serde_json::from_slice` into a list of IP addresses: what comes out, and whether it fails, is
/// a function of the bytes. Why it failed is not stated.
#[verifier::external_body]
pub(crate) fn parse_ip_list(bytes: &[u8]) -> (parsed: Result<Vec<IpAddr>, serde_json::Error>)
    ensures
        match parsed {
            Ok(addrs) => json_ip_list(bytes@) == Some(addrs@),
            Err(_) => json_ip_list(bytes@) is None,
        },
{
    let convert = |addr| match addr {
        core::net::IpAddr::V4(v4) => IpAddr::V4(u32::from(v4)),
        core::net::IpAddr::V6(v6) => IpAddr::V6(u128::from(v6)),
    };
    let addrs: Vec<core::net::IpAddr> = serde_json::from_slice(bytes)?;
    Ok(addrs.into_iter().map(convert).collect())
}

/// `itertools::Itertools::unique`: the items without those that occurred before, in order.
#[verifier::external_body]
pub(crate) fn unique_keys(keys: Vec<SocketKey>) -> (unique: Vec<SocketKey>)
    ensures
        unique@ == first_occurrences(keys@),
{
    itertools::Itertools::unique(keys.into_iter()).collect()
}

} // verus!
