//! Points on the monotonic clock.
use vstd::prelude::*;

verus! {

/// One more than the largest value of a 64-bit counter.
pub const TWO_POW_64: u128 = 0x1_0000_0000_0000_0000;

/// A reading of the monotonic clock, in nanoseconds since an origin that all readings share.
#[derive(Clone, Copy, Debug, PartialEq, Eq, Structural)]
pub struct Timestamp {
    pub nanos: u128,
}

impl Timestamp {
    /// Whole microseconds from `earlier` to `self`, and zero if `earlier` is the later of the two.
    /// Spans of more than 64 bits keep their low 64 bits.
    pub open spec fn micros_after(self, earlier: Timestamp) -> u64 {
        if self.nanos >= earlier.nanos {
            (((self.nanos - earlier.nanos) / 1000) % (TWO_POW_64 as int)) as u64
        } else {
            0
        }
    }

    /// Whether `later` is not before `self`, and 64 bits of microseconds reach it from there.
    pub open spec fn within_reach(self, later: Timestamp) -> bool {
        0 <= (later.nanos - self.nanos) / 1000 < TWO_POW_64
    }

    pub fn micros_since(self, earlier: Timestamp) -> (micros: u64)
        ensures
            micros == self.micros_after(earlier),
    {
        if self.nanos >= earlier.nanos {
            let span: u128 = (self.nanos - earlier.nanos) / 1000;
            assert(span as u64 == span % 0x1_0000_0000_0000_0000) by (bit_vector);
            #[verifier::truncate]
            (span as u64)
        } else {
            0
        }
    }
}

/// A span counts its whole microseconds, as far as 64 bits go: no more than have passed, and not one
/// less. Nothing has passed between a reading and an earlier one.
pub proof fn spans_are_whole_microseconds(earlier: Timestamp, later: Timestamp)
    ensures
        later.nanos < earlier.nanos ==> later.micros_after(earlier) == 0,
        0 <= later.nanos - earlier.nanos < 1000 * (u64::MAX + 1) ==> {
            &&& 1000 * later.micros_after(earlier) <= later.nanos - earlier.nanos
            &&& later.nanos - earlier.nanos < 1000 * (later.micros_after(earlier) + 1)
        },
{
}

/// Beyond 64 bits spans start over: those that are 2^64 microseconds apart count the same.
pub proof fn long_spans_start_over(earlier: Timestamp, later: Timestamp, much_later: Timestamp)
    requires
        earlier.nanos <= later.nanos,
        much_later.nanos == later.nanos + 1000 * (u64::MAX + 1),
    ensures
        much_later.micros_after(earlier) == later.micros_after(earlier),
{
}

/// A reading reaches those that follow it by less than 2^64 microseconds.
pub proof fn reach_is_what_64_bits_count(earlier: Timestamp, later: Timestamp)
    ensures
        earlier.within_reach(later) <==> 0 <= later.nanos - earlier.nanos < 1000 * (u64::MAX + 1),
        TWO_POW_64 == u64::MAX + 1,
{
}

} // verus!
