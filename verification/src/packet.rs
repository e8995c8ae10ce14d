//! Packets and their deduplication.
use vstd::prelude::*;

use crate::addr::IpAddr;
use crate::bindings::{
    dedup_packets_and_count_discards, filter_bits, new_filter, payload_bits, set_bits,
};

verus! {

/// The most bytes that a packet carries.
pub const PACKET_DATA_SIZE: usize = 1232;

/// Number of bits in the filter that recognises duplicates (76MB).
pub const DEDUPER_NUM_BITS: u64 = 637_534_199;

/// Seconds after which the filter forgets everything.
pub const DEDUPER_RESET_CYCLE_SECS: u64 = 300;

/// The filter that recognises duplicate payloads.
pub type ShredDeduper = solana_perf::deduper::Deduper<2, [u8]>;

/// What is known of a packet besides its bytes.
#[derive(Clone, Copy, Debug)]
pub struct Meta {
    /// How many bytes of the buffer were received.
    pub size: usize,
    /// Where the packet came from.
    pub addr: IpAddr,
    pub port: u16,
    /// Whether the packet is to be ignored.
    pub discard: bool,
}

#[derive(Clone, Copy)]
pub struct Packet {
    pub buffer: [u8; PACKET_DATA_SIZE],
    pub meta: Meta,
}

impl Packet {
    /// The received bytes. A discarded packet, or one whose size is beyond the buffer, has none.
    pub open spec fn payload(self) -> Option<Seq<u8>> {
        if self.meta.discard || self.meta.size > PACKET_DATA_SIZE {
            None
        } else {
            Some(self.buffer@.subrange(0, self.meta.size as int))
        }
    }

    /// The packet with its discard flag set or cleared.
    pub open spec fn marked(self, discard: bool) -> Packet {
        Packet { meta: Meta { discard, ..self.meta }, ..self }
    }

    pub fn new(buffer: [u8; PACKET_DATA_SIZE], meta: Meta) -> (packet: Packet)
        ensures
            packet == (Packet { buffer, meta }),
    {
        Packet { buffer, meta }
    }

    /// The received bytes.
    pub fn data(&self) -> (data: Option<&[u8]>)
        ensures
            match data {
                Some(bytes) => self.payload() == Some(bytes@),
                None => self.payload() is None,
            },
            match data {
                Some(bytes) => !self.meta.discard && bytes@.len() == self.meta.size && forall|i: int|
                    0 <= i < bytes@.len() ==> #[trigger] bytes@[i] == self.buffer@[i],
                None => self.meta.discard || self.meta.size > PACKET_DATA_SIZE,
            },
    {
        if self.meta.discard || self.meta.size > PACKET_DATA_SIZE {
            None
        } else {
            Some(&self.buffer[0..self.meta.size])
        }
    }
}

/// The payloads that are sent on: those of the packets that are not discarded, in order.
pub open spec fn payloads_of(packets: Seq<Packet>) -> Seq<Seq<u8>> {
    packets.filter_map(|packet: Packet| packet.payload())
}

/// The payload of a packet is the first `size` bytes of its buffer, byte for byte. A packet has one
/// unless it is discarded or says that it is larger than the buffer.
pub proof fn payload_is_what_was_received(packet: Packet)
    ensures
        packet.payload() is None <==> packet.meta.discard || packet.meta.size > PACKET_DATA_SIZE,
        packet.payload() matches Some(bytes) ==> bytes.len() == packet.meta.size && forall|i: int|
            0 <= i < packet.meta.size ==> #[trigger] bytes[i] == packet.buffer@[i],
        PACKET_DATA_SIZE == 1232,
{
}

/// Marking a packet changes its discard flag and nothing else.
pub proof fn marking_keeps_the_packet(packet: Packet, discard: bool)
    ensures
        packet.marked(discard).meta.discard == discard,
        packet.marked(discard).buffer == packet.buffer,
        packet.marked(discard).meta.size == packet.meta.size,
        packet.marked(discard).meta.addr == packet.meta.addr,
        packet.marked(discard).meta.port == packet.meta.port,
{
}

/// What is sent of two batches in a row is what is sent of the first and then what is sent of the
/// second; of a single packet it is its payload, if it has one.
pub proof fn payloads_go_packet_by_packet(some: Seq<Packet>, more: Seq<Packet>, packet: Packet)
    ensures
        payloads_of(some + more) == payloads_of(some) + payloads_of(more),
        payloads_of(seq![packet]) == match packet.payload() {
            Some(payload) => seq![payload],
            None => seq![],
        },
    decreases more.len(),
{
    assert(seq![packet].drop_last() =~= Seq::<Packet>::empty());
    reveal_with_fuel(Seq::filter_map, 2);
    if more.len() == 0 {
        assert(some + more =~= some);
    } else {
        payloads_go_packet_by_packet(some, more.drop_last(), packet);
        assert((some + more).drop_last() =~= some + more.drop_last());
    }
}

/// How many packets are discarded.
pub open spec fn discarded_of(packets: Seq<Packet>) -> nat {
    packets.filter(|packet: Packet| packet.meta.discard).len()
}

/// How many packets have no payload.
pub open spec fn without_payload(packets: Seq<Packet>) -> nat {
    packets.filter(|packet: Packet| packet.payload() is None).len()
}

/// How many packets are duplicates: those that had a payload when they `arrived` and are discarded
/// now that they are `deduped`.
pub open spec fn duplicates_of(arrived: Seq<Packet>, deduped: Seq<Packet>) -> nat {
    arrived.zip_with(deduped).filter(
        |pair: (Packet, Packet)| pair.0.payload() is Some && pair.1.meta.discard,
    ).len()
}

/// The packets of two batches are counted one by one: those that are discarded, those without a
/// payload, and those that had one and lost it.
pub proof fn packets_are_counted_one_by_one(
    arrived: Seq<Packet>,
    deduped: Seq<Packet>,
    packet: Packet,
    marked: Packet,
)
    requires
        arrived.len() == deduped.len(),
    ensures
        discarded_of(seq![]) == 0 && without_payload(seq![]) == 0,
        duplicates_of(seq![], seq![]) == 0,
        discarded_of(deduped.push(marked)) == discarded_of(deduped) + if marked.meta.discard {
            1int
        } else {
            0
        },
        without_payload(arrived.push(packet)) == without_payload(arrived)
            + if packet.meta.discard || packet.meta.size > PACKET_DATA_SIZE {
            1int
        } else {
            0
        },
        duplicates_of(arrived.push(packet), deduped.push(marked)) == duplicates_of(arrived, deduped)
            + if !packet.meta.discard && packet.meta.size <= PACKET_DATA_SIZE
            && marked.meta.discard {
            1int
        } else {
            0
        },
{
    reveal(Seq::filter);
    assert(deduped.push(marked).drop_last() =~= deduped);
    assert(arrived.push(packet).drop_last() =~= arrived);
    let pairs = arrived.push(packet).zip_with(deduped.push(marked));
    assert(pairs.drop_last() =~= arrived.zip_with(deduped));
    assert(pairs.last() == (packet, marked));
}

/// The duplicates of two batches in a row are those of the first and those of the second.
pub proof fn duplicates_add_up(
    arrived: Seq<Packet>,
    deduped: Seq<Packet>,
    more_arrived: Seq<Packet>,
    more_deduped: Seq<Packet>,
)
    requires
        arrived.len() == deduped.len(),
        more_arrived.len() == more_deduped.len(),
    ensures
        duplicates_of(arrived + more_arrived, deduped + more_deduped) == duplicates_of(
            arrived,
            deduped,
        ) + duplicates_of(more_arrived, more_deduped),
        duplicates_of(arrived, deduped) <= arrived.len(),
    decreases more_arrived.len(), arrived.len(),
{
    if more_arrived.len() > 0 {
        let (packet, marked) = (more_arrived.last(), more_deduped.last());
        let (some, others) = (more_arrived.drop_last(), more_deduped.drop_last());
        duplicates_add_up(arrived, deduped, some, others);
        packets_are_counted_one_by_one(some, others, packet, marked);
        packets_are_counted_one_by_one(arrived + some, deduped + others, packet, marked);
        assert(some.push(packet) =~= more_arrived && others.push(marked) =~= more_deduped);
        assert((arrived + some).push(packet) =~= arrived + more_arrived);
        assert((deduped + others).push(marked) =~= deduped + more_deduped);
    } else {
        assert(arrived + more_arrived =~= arrived && deduped + more_deduped =~= deduped);
        assert(more_arrived =~= Seq::empty() && more_deduped =~= Seq::empty());
        packets_are_counted_one_by_one(arrived, deduped, arrived[0], arrived[0]);
        if arrived.len() > 0 {
            let (packet, marked) = (arrived.last(), deduped.last());
            let (some, others) = (arrived.drop_last(), deduped.drop_last());
            duplicates_add_up(some, others, more_arrived, more_deduped);
            packets_are_counted_one_by_one(some, others, packet, marked);
            assert(some.push(packet) =~= arrived && others.push(marked) =~= deduped);
        }
    }
}

/// What a filter goes by.
#[verifier::ext_equal]
pub struct FilterState {
    /// The bits that are set.
    pub set: Set<u64>,
    /// The bits that stand for a payload.
    pub bits_of: spec_fn(Seq<u8>) -> Set<u64>,
}

/// The state of a filter.
pub open spec fn filter_state(filter: ShredDeduper) -> FilterState {
    FilterState {
        set: set_bits(filter),
        bits_of: |payload: Seq<u8>| payload_bits(filter, payload),
    }
}

impl FilterState {
    /// Whether the filter takes a payload for a duplicate: if all its bits are set.
    pub open spec fn knows(self, payload: Seq<u8>) -> bool {
        (self.bits_of)(payload).subset_of(self.set)
    }

    /// The state after the filter was shown the payloads of some packets, in order: their bits are
    /// set.
    pub open spec fn shown(self, packets: Seq<Packet>) -> FilterState
        decreases packets.len(),
    {
        if packets.len() == 0 {
            self
        } else {
            let before = self.shown(packets.drop_last());
            match packets.last().payload() {
                Some(payload) => FilterState {
                    set: before.set.union((self.bits_of)(payload)),
                    ..before
                },
                None => before,
            }
        }
    }

    /// Whether the filter discards a packet that it comes to in this state: if it has no payload, or
    /// one that is taken for a duplicate.
    pub open spec fn discards(self, packet: Packet) -> bool {
        match packet.payload() {
            Some(payload) => self.knows(payload),
            None => true,
        }
    }

    /// What the filter makes of a batch: each packet is discarded or not by what the filter was shown
    /// up to there; nothing else changes.
    pub open spec fn deduped(self, packets: Seq<Packet>) -> Seq<Packet> {
        Seq::new(
            packets.len(),
            |i: int| packets[i].marked(self.shown(packets.take(i)).discards(packets[i])),
        )
    }

    /// The payloads of a batch, in order, that the filter does not take for duplicates when it comes
    /// to them.
    pub open spec fn new_payloads(self, packets: Seq<Packet>) -> Seq<Seq<u8>>
        decreases packets.len(),
    {
        if packets.len() == 0 {
            Seq::empty()
        } else {
            let rest = packets.drop_last();
            match packets.last().payload() {
                Some(payload) => if self.shown(rest).knows(payload) {
                    self.new_payloads(rest)
                } else {
                    self.new_payloads(rest).push(payload)
                },
                None => self.new_payloads(rest),
            }
        }
    }
}

/// What a filter was shown before a series of packets and during it comes to what it was shown in
/// both together.
proof fn shown_both(filter: FilterState, some: Seq<Packet>, more: Seq<Packet>)
    ensures
        filter.shown(some + more) == filter.shown(some).shown(more),
        filter.shown(some).bits_of == filter.bits_of,
    decreases more.len(), some.len(),
{
    if more.len() > 0 {
        assert((some + more).drop_last() =~= some + more.drop_last());
        shown_both(filter, some, more.drop_last());
    } else {
        assert(some + more =~= some);
        if some.len() > 0 {
            shown_both(filter, some.drop_last(), more);
        }
    }
}

/// A bit is set after a batch if it was set before or stands for a payload of the batch. Which bits
/// stand for a payload does not change.
pub proof fn batches_set_their_bits(filter: FilterState, packets: Seq<Packet>, bit: u64)
    ensures
        filter.shown(packets).set.contains(bit) <==> filter.set.contains(bit) || exists|j: int|
            0 <= j < packets.len() && (#[trigger] packets[j]).payload() is Some && (filter.bits_of)(
                packets[j].payload()->0,
            ).contains(bit),
        filter.shown(packets).bits_of == filter.bits_of,
    decreases packets.len(),
{
    if packets.len() > 0 {
        let rest = packets.drop_last();
        batches_set_their_bits(filter, rest, bit);
        assert(packets.last() == packets[packets.len() - 1]);
        assert forall|j: int| 0 <= j < rest.len() implies #[trigger] rest[j] == packets[j] by {}
        if filter.shown(rest).set.contains(bit) && !filter.set.contains(bit) {
            let j = choose|j: int|
                0 <= j < rest.len() && (#[trigger] rest[j]).payload() is Some && (filter.bits_of)(
                    rest[j].payload()->0,
                ).contains(bit);
            assert(packets[j].payload() is Some);
        }
        if exists|j: int|
            0 <= j < packets.len() && (#[trigger] packets[j]).payload() is Some && (filter.bits_of)(
                packets[j].payload()->0,
            ).contains(bit) {
            let j = choose|j: int|
                0 <= j < packets.len() && (#[trigger] packets[j]).payload() is Some
                    && (filter.bits_of)(packets[j].payload()->0).contains(bit);
            if j < rest.len() {
                assert(rest[j].payload() is Some);
            }
        }
    }
}

/// A packet of a batch is discarded if it has no payload, or if each bit of its payload was set
/// before the batch or stands for the payload of an earlier packet in it. Its bytes, its size and
/// where it came from stay as they were.
pub proof fn packets_are_discarded_by_their_bits(filter: FilterState, packets: Seq<Packet>, i: int)
    requires
        0 <= i < packets.len(),
    ensures
        ({
            let before = packets[i];
            let after = filter.deduped(packets)[i];
            &&& filter.deduped(packets).len() == packets.len()
            &&& after.buffer == before.buffer
            &&& after.meta.size == before.meta.size
            &&& after.meta.addr == before.meta.addr
            &&& after.meta.port == before.meta.port
            &&& before.payload() is None ==> after.meta.discard
            &&& before.payload() matches Some(payload) ==> (after.meta.discard <==> forall|bit: u64|
                #[trigger]
                (filter.bits_of)(payload).contains(bit) ==> filter.set.contains(bit) || exists|
                    j: int,
                |
                    0 <= j < i && (#[trigger] packets[j]).payload() is Some && (filter.bits_of)(
                        packets[j].payload()->0,
                    ).contains(bit))
        }),
{
    let earlier = packets.take(i);
    let state = filter.shown(earlier);
    batches_set_their_bits(filter, earlier, 0);
    assert forall|bit: u64|
        state.set.contains(bit) <==> filter.set.contains(bit) || exists|j: int|
            0 <= j < i && (#[trigger] packets[j]).payload() is Some && (filter.bits_of)(
                packets[j].payload()->0,
            ).contains(bit) by {
        batches_set_their_bits(filter, earlier, bit);
        if exists|j: int|
            0 <= j < earlier.len() && (#[trigger] earlier[j]).payload() is Some && (filter.bits_of)(
                earlier[j].payload()->0,
            ).contains(bit) {
            let j = choose|j: int|
                0 <= j < earlier.len() && (#[trigger] earlier[j]).payload() is Some
                    && (filter.bits_of)(earlier[j].payload()->0).contains(bit);
            assert(packets[j].payload() is Some);
        }
        if exists|j: int|
            0 <= j < i && (#[trigger] packets[j]).payload() is Some && (filter.bits_of)(
                packets[j].payload()->0,
            ).contains(bit) {
            let j = choose|j: int|
                0 <= j < i && (#[trigger] packets[j]).payload() is Some && (filter.bits_of)(
                    packets[j].payload()->0,
                ).contains(bit);
            assert(earlier[j].payload() is Some);
        }
    }
}

/// The state of a filter is what the filter itself goes by: its set bits, and the bits that it has
/// for each payload.
pub proof fn filter_state_is_the_filter(filter: ShredDeduper, payload: Seq<u8>)
    ensures
        filter_state(filter).set == set_bits(filter),
        (filter_state(filter).bits_of)(payload) == payload_bits(filter, payload),
{
}

/// What a filter was shown it takes for a duplicate from then on, and what it took for one before
/// stays one.
pub proof fn shown_payloads_stay_known(filter: FilterState, packets: Seq<Packet>, payload: Seq<u8>)
    requires
        filter.knows(payload) || payloads_of(packets).contains(payload),
    ensures
        filter.shown(packets).knows(payload),
    decreases packets.len(),
{
    shown_both(filter, packets, Seq::empty());
    if packets.len() > 0 {
        let rest = packets.drop_last();
        shown_both(filter, rest, Seq::empty());
        let seen = payloads_of(packets);
        if filter.knows(payload) || payloads_of(rest).contains(payload) {
            shown_payloads_stay_known(filter, rest, payload);
        } else {
            let k = choose|k: int| 0 <= k < seen.len() && seen[k] == payload;
            if k < payloads_of(rest).len() {
                assert(payloads_of(rest)[k] == payload);
            }
        }
    }
}

/// What the filter does not take for a duplicate is sent on, and nothing else: the payloads of a
/// batch that go out are the new ones, unchanged and in order.
pub proof fn new_payloads_are_sent(filter: FilterState, packets: Seq<Packet>)
    ensures
        payloads_of(filter.deduped(packets)) == filter.new_payloads(packets),
    decreases packets.len(),
{
    if packets.len() > 0 {
        let rest = packets.drop_last();
        new_payloads_are_sent(filter, rest);
        let after = filter.deduped(packets);
        assert forall|i: int| 0 <= i < rest.len() implies after[i] == filter.deduped(rest)[i] by {
            assert(rest.take(i) =~= packets.take(i));
        }
        assert(after.drop_last() =~= filter.deduped(rest));
        assert(packets.take(packets.len() - 1) =~= rest);
    }
}

/// No payload is sent on twice, and none that the filter had been shown before; all that are sent
/// on are known to it afterwards.
pub proof fn payloads_are_sent_once(filter: FilterState, packets: Seq<Packet>)
    ensures
        payloads_of(filter.deduped(packets)).no_duplicates(),
        forall|payload: Seq<u8>| #[trigger]
            payloads_of(filter.deduped(packets)).contains(payload) ==> !filter.knows(payload)
                && filter.shown(packets).knows(payload) && payloads_of(packets).contains(payload),
    decreases packets.len(),
{
    new_payloads_are_sent(filter, packets);
    if packets.len() > 0 {
        let rest = packets.drop_last();
        payloads_are_sent_once(filter, rest);
        new_payloads_are_sent(filter, rest);
        let earlier = filter.new_payloads(rest);
        let now = filter.new_payloads(packets);
        let arrived = payloads_of(packets);
        assert forall|payload: Seq<u8>| #[trigger] now.contains(payload) implies !filter.knows(
            payload,
        ) && filter.shown(packets).knows(payload) && arrived.contains(payload) by {
            let k = choose|k: int| 0 <= k < now.len() && now[k] == payload;
            if k < earlier.len() {
                assert(earlier[k] == payload);
                assert(earlier.contains(payload));
                let i = choose|i: int|
                    0 <= i < payloads_of(rest).len() && payloads_of(rest)[i] == payload;
                assert(arrived[i] == payload);
            } else {
                if filter.knows(payload) {
                    shown_payloads_stay_known(filter, rest, payload);
                }
                assert(arrived.last() == payload);
            }
            shown_payloads_stay_known(filter, packets, payload);
        }
        assert forall|i: int, j: int| 0 <= i < j < now.len() implies now[i] != now[j] by {
            if j < earlier.len() {
                assert(earlier[i] != earlier[j]);
            } else {
                assert(earlier.contains(earlier[i]));
            }
        }
    }
}

/// As long as the filter keeps its keys and its bits, a payload that it was shown, whether it was
/// sent on or not, is not sent on with a later batch, whatever came in between.
pub proof fn later_batches_repeat_nothing(
    filter: FilterState,
    first: Seq<Packet>,
    between: Seq<Packet>,
    later: Seq<Packet>,
    payload: Seq<u8>,
)
    requires
        payloads_of(first).contains(payload),
    ensures
        !payloads_of(filter.shown(first).shown(between).deduped(later)).contains(payload),
{
    shown_payloads_stay_known(filter, first, payload);
    shown_payloads_stay_known(filter.shown(first), between, payload);
    payloads_are_sent_once(filter.shown(first).shown(between), later);
}

/// Deduplication only ever discards: it changes nothing else of a packet, and no discarded packet
/// comes back.
pub proof fn dedup_only_discards(filter: FilterState, packets: Seq<Packet>, i: int)
    requires
        0 <= i < packets.len(),
    ensures
        filter.deduped(packets).len() == packets.len(),
        filter.deduped(packets)[i] == packets[i].marked(filter.deduped(packets)[i].meta.discard),
        packets[i].meta.discard ==> filter.deduped(packets)[i].meta.discard,
{
}

proof fn discards_counted(arrived: Seq<Packet>, deduped: Seq<Packet>)
    requires
        arrived.len() == deduped.len(),
        forall|i: int|
            0 <= i < arrived.len() ==> (#[trigger] deduped[i]) == arrived[i].marked(
                deduped[i].meta.discard,
            ) && (arrived[i].payload() is None ==> deduped[i].meta.discard),
    ensures
        discarded_of(deduped) == without_payload(arrived) + duplicates_of(arrived, deduped),
        payloads_of(arrived).len() == payloads_of(deduped).len() + duplicates_of(arrived, deduped),
    decreases arrived.len(),
{
    reveal(Seq::filter);
    if arrived.len() > 0 {
        let earlier = arrived.drop_last();
        let marked = deduped.drop_last();
        assert forall|i: int| 0 <= i < earlier.len() implies (#[trigger] marked[i])
            == earlier[i].marked(marked[i].meta.discard) && (earlier[i].payload() is None
            ==> marked[i].meta.discard) by {
            assert(marked[i] == deduped[i]);
        }
        discards_counted(earlier, marked);
        assert(arrived.zip_with(deduped).drop_last() =~= earlier.zip_with(marked));
        assert(deduped.last() == deduped[deduped.len() - 1]);
    }
}

/// Every payload that arrives is either sent on or counted as a duplicate. The packets that end up
/// discarded are the duplicates and those that had no payload to begin with.
pub proof fn payloads_are_sent_or_duplicates(filter: FilterState, packets: Seq<Packet>)
    ensures
        ({
            let after = filter.deduped(packets);
            &&& payloads_of(packets).len() == payloads_of(after).len() + duplicates_of(
                packets,
                after,
            )
            &&& discarded_of(after) == without_payload(packets) + duplicates_of(packets, after)
        }),
{
    discards_counted(packets, filter.deduped(packets));
}

/// The filter takes up 76 megabytes in words of 64 bits, and is due for a reset after five minutes.
pub proof fn filter_size_and_age()
    ensures
        (DEDUPER_NUM_BITS + 63) / 64 * 8 == 76 * 1024 * 1024,
        DEDUPER_NUM_BITS + 9 == 76 * 1024 * 1024 * 8,
        DEDUPER_RESET_CYCLE_SECS == 5 * 60,
{
}

/// A filter of the standard size that has been shown nothing and takes nothing for a duplicate.
pub fn new_deduper() -> (deduper: ShredDeduper)
    ensures
        filter_state(deduper).set == (Set::<u64>::empty()),
        forall|payload: Seq<u8>| !(#[trigger] filter_state(deduper).knows(payload)),
        filter_bits(deduper) == DEDUPER_NUM_BITS,
{
    let deduper = new_filter(DEDUPER_NUM_BITS);
    proof {
        let state = filter_state(deduper);
        assert forall|payload: Seq<u8>| !(#[trigger] state.knows(payload)) by {
            if state.knows(payload) {
                assert(payload_bits(deduper, payload) =~= Set::<u64>::empty());
            }
        }
    }
    deduper
}

/// Discards the packets whose payload the filter takes for a duplicate, and those without a
/// payload. Returns how many packets of the batch are then discarded.
pub fn dedup_batch(deduper: &mut ShredDeduper, packets: &mut Vec<Packet>) -> (num_discarded: u64)
    requires
        filter_bits(*old(deduper)) > 0,
    ensures
        final(packets)@ == filter_state(*old(deduper)).deduped(old(packets)@),
        filter_state(*final(deduper)) == filter_state(*old(deduper)).shown(old(packets)@),
        num_discarded == discarded_of(final(packets)@),
        filter_bits(*final(deduper)) == filter_bits(*old(deduper)),
{
    let num_discarded: u64 = dedup_packets_and_count_discards(deduper, packets);
    proof {
        shown_both(filter_state(*old(deduper)), old(packets)@, Seq::empty());
        assert(filter_state(*deduper).bits_of =~= filter_state(*old(deduper)).bits_of);
    }
    num_discarded
}

/// Counts the packets that have no payload.
pub fn count_without_payload(packets: &Vec<Packet>) -> (count: usize)
    ensures
        count == without_payload(packets@),
{
    let mut count: usize = 0;
    let mut i: usize = 0;
    while i < packets.len()
        invariant
            i <= packets.len(),
            count <= i,
            count == without_payload(packets@.take(i as int)),
        decreases packets.len() - i,
    {
        if packets[i].data().is_none() {
            count = count + 1;
        }
        proof {
            reveal(Seq::filter);
            assert(packets@.take(i + 1).drop_last() =~= packets@.take(i as int));
        }
        i = i + 1;
    }
    assert(packets@.take(i as int) =~= packets@);
    count
}

/// The payloads to send on.
pub fn payloads(packets: &Vec<Packet>) -> (sent: Vec<&[u8]>)
    ensures
        sent@.map_values(|data: &[u8]| data@) == payloads_of(packets@),
        sent@.len() + without_payload(packets@) == packets@.len(),
{
    let mut sent: Vec<&[u8]> = Vec::new();
    let ghost view = |data: &[u8]| data@;
    let ghost payload = |packet: Packet| packet.payload();
    let mut i: usize = 0;
    while i < packets.len()
        invariant
            i <= packets.len(),
            view == (|data: &[u8]| data@),
            payload == (|packet: Packet| packet.payload()),
            sent@.map_values(view) == packets@.take(i as int).filter_map(payload),
        decreases packets.len() - i,
    {
        let ghost before = sent@;
        if let Some(data) = packets[i].data() {
            sent.push(data);
            assert(sent@.map_values(view) =~= before.map_values(view).push(data@));
        }
        proof {
            packets@.lemma_filter_map_take_succ(payload, i as int);
        }
        i = i + 1;
    }
    assert(packets@.take(i as int) =~= packets@);
    proof {
        payloads_or_none(packets@);
    }
    sent
}

proof fn payloads_or_none(packets: Seq<Packet>)
    ensures
        payloads_of(packets).len() + without_payload(packets) == packets.len(),
    decreases packets.len(),
{
    reveal(Seq::filter);
    if packets.len() > 0 {
        payloads_or_none(packets.drop_last());
    }
}

} // verus!
