//! Timestamps that order commits, and the clock that hands them out.

use core::cmp::Ordering;

use vstd::prelude::*;

use crate::bytes::append_bytes;
use crate::codec;
use crate::codec::encode_u32;
use crate::codec::encode_u64;
use crate::codec::take_u32;
use crate::codec::take_u64;

verus! {

/// A point in time: milliseconds since the Unix epoch, and a counter that orders
/// what falls into one millisecond.
#[derive(Debug, Clone, Copy, PartialEq, Eq, Ord, Structural)]
pub struct HybridTimestamp {
    pub physical_ms: u64,
    pub logical: u32,
}

/// Whether one timestamp comes before another.
pub open spec fn before(left: HybridTimestamp, right: HybridTimestamp) -> bool {
    left.physical_ms < right.physical_ms || (left.physical_ms == right.physical_ms && left.logical
        < right.logical)
}

/// The later of two timestamps.
pub open spec fn later_of(
    last: HybridTimestamp,
    observed: Option<HybridTimestamp>,
) -> HybridTimestamp {
    match observed {
        Some(timestamp) if before(last, timestamp) => timestamp,
        _ => last,
    }
}

/// The timestamp that follows `base` when the clock on the wall shows `physical_ms`.
/// The counter of a millisecond can run out.
pub open spec fn following(base: HybridTimestamp, physical_ms: u64) -> Option<HybridTimestamp> {
    if physical_ms > base.physical_ms {
        Some(HybridTimestamp { physical_ms, logical: 0 })
    } else if base.logical < u32::MAX {
        Some(
            HybridTimestamp { physical_ms: base.physical_ms, logical: (base.logical + 1) as u32 },
        )
    } else {
        None
    }
}

/// Whether `next` follows `base` for some reading of the clock on the wall.
pub open spec fn follows(base: HybridTimestamp, next: HybridTimestamp) -> bool {
    exists|physical_ms: u64| #[trigger] following(base, physical_ms) == Some(next)
}

impl PartialOrd for HybridTimestamp {
    fn partial_cmp(&self, other: &Self) -> (order: Option<Ordering>) {
        if self.physical_ms < other.physical_ms {
            Some(Ordering::Less)
        } else if self.physical_ms > other.physical_ms {
            Some(Ordering::Greater)
        } else if self.logical < other.logical {
            Some(Ordering::Less)
        } else if self.logical > other.logical {
            Some(Ordering::Greater)
        } else {
            Some(Ordering::Equal)
        }
    }
}

impl vstd::std_specs::cmp::PartialOrdSpecImpl for HybridTimestamp {
    open spec fn obeys_partial_cmp_spec() -> bool {
        true
    }

    open spec fn partial_cmp_spec(&self, other: &Self) -> Option<Ordering> {
        if before(*self, *other) {
            Some(Ordering::Less)
        } else if before(*other, *self) {
            Some(Ordering::Greater)
        } else {
            Some(Ordering::Equal)
        }
    }
}

impl Default for HybridTimestamp {
    fn default() -> (timestamp: HybridTimestamp)
        ensures
            timestamp.physical_ms == 0,
            timestamp.logical == 0,
    {
        HybridTimestamp { physical_ms: 0, logical: 0 }
    }
}

/// Wraps `std::time::SystemTime::elapsed` on the Unix epoch: the milliseconds since
/// then. Nothing is claimed of the reading, which is the machine's; a clock that is
/// set before the epoch reads as zero.
#[verifier::external_body]
fn elapsed_since_epoch() -> (millis: u128) {
    std::time::UNIX_EPOCH.elapsed().unwrap_or_default().as_millis()
}

/// A number of milliseconds as far as 64 bits reach.
pub fn clamp_millis(millis: u128) -> (clamped: u64)
    ensures
        clamped as int == if millis <= u64::MAX as u128 {
            millis as int
        } else {
            u64::MAX as int
        },
{
    if millis > u64::MAX as u128 {
        u64::MAX
    } else {
        millis as u64
    }
}

/// The milliseconds since the Unix epoch that the machine's clock shows.
pub fn current_time_millis() -> (millis: u64) {
    clamp_millis(elapsed_since_epoch())
}

impl HybridTimestamp {
    /// The time of the machine's clock, with a fresh counter.
    pub fn now() -> (timestamp: HybridTimestamp)
        ensures
            timestamp.logical == 0,
    {
        HybridTimestamp { physical_ms: current_time_millis(), logical: 0 }
    }
}

/// A clock whose timestamps only ever grow.
#[derive(Debug)]
pub struct HybridClock {
    last: HybridTimestamp,
}

impl View for HybridClock {
    type V = HybridTimestamp;

    closed spec fn view(&self) -> HybridTimestamp {
        self.last
    }
}

impl Default for HybridClock {
    fn default() -> (clock: HybridClock)
        ensures
            clock@.physical_ms == 0,
            clock@.logical == 0,
    {
        HybridClock { last: HybridTimestamp { physical_ms: 0, logical: 0 } }
    }
}

impl HybridClock {
    /// Hands out the timestamp that follows the last one and `observed`, given what
    /// the clock on the wall shows. `None` when the counter has run out.
    pub fn advance(&mut self, observed: Option<HybridTimestamp>, physical_ms: u64) -> (next: Option<
        HybridTimestamp,
    >)
        ensures
            next == following(later_of(old(self)@, observed), physical_ms),
            final(self)@ == match next {
                Some(timestamp) => timestamp,
                None => old(self)@,
            },
    {
        let mut base = self.last;
        if let Some(timestamp) = observed {
            if timestamp > base {
                base = timestamp;
            }
        }
        if physical_ms > base.physical_ms {
            base = HybridTimestamp { physical_ms, logical: 0 };
        } else if base.logical < u32::MAX {
            base = HybridTimestamp { physical_ms: base.physical_ms, logical: base.logical + 1 };
        } else {
            return None;
        }
        self.last = base;
        Some(base)
    }

    /// Hands out the next timestamp.
    pub fn next(&mut self) -> (next: HybridTimestamp)
        requires
            old(self)@.logical < u32::MAX,
        ensures
            follows(old(self)@, next),
            before(old(self)@, next),
            final(self)@ == next,
    {
        self.next_after(None)
    }

    /// Hands out the next timestamp, past one that was seen elsewhere.
    pub fn next_after(&mut self, observed: Option<HybridTimestamp>) -> (next: HybridTimestamp)
        requires
            later_of(old(self)@, observed).logical < u32::MAX,
        ensures
            follows(later_of(old(self)@, observed), next),
            before(later_of(old(self)@, observed), next),
            final(self)@ == next,
    {
        let physical_ms: u64 = current_time_millis();
        let ghost base = later_of(self@, observed);
        match self.advance(observed, physical_ms) {
            Some(next) => {
                assert(following(base, physical_ms) == Some(next));
                next
            },
            None => self.last,
        }
    }

    /// Moves the clock up to a timestamp that was seen elsewhere.
    pub fn observe(&mut self, timestamp: HybridTimestamp)
        ensures
            final(self)@ == later_of(old(self)@, Some(timestamp)),
    {
        if timestamp > self.last {
            self.last = timestamp;
        }
    }
}

/// The stored form of a timestamp: its two numbers, one after the other.
pub open spec fn encoded_timestamp(timestamp: HybridTimestamp) -> Seq<u8> {
    codec::varint(timestamp.physical_ms as nat) + codec::varint(timestamp.logical as nat)
}

/// The two numbers of the timestamp that bytes stand for, or why they stand for none.
pub open spec fn timestamp_decoding(bytes: Seq<u8>) -> Result<(u64, u32), Seq<char>> {
    match codec::u64_reading(bytes) {
        Err(text) => Err(text),
        Ok((physical_ms, rest)) => match codec::u32_reading(rest) {
            Err(text) => Err(text),
            Ok((logical, _)) => Ok((physical_ms, logical)),
        },
    }
}

/// Writes a timestamp in its stored form, which reads back as the timestamp.
pub fn encode_timestamp(timestamp: HybridTimestamp) -> (bytes: Vec<u8>)
    ensures
        bytes@ == encoded_timestamp(timestamp),
        timestamp_decoding(bytes@) == Ok::<(u64, u32), Seq<char>>(
            (timestamp.physical_ms, timestamp.logical),
        ),
{
    let mut bytes: Vec<u8> = encode_u64(timestamp.physical_ms);
    let logical: Vec<u8> = encode_u32(timestamp.logical);
    append_bytes(&mut bytes, logical.as_slice());
    proof {
        assert(logical@ + Seq::<u8>::empty() =~= logical@);
        codec::law_u64_reads_back(timestamp.physical_ms, logical@);
        codec::law_u32_reads_back(timestamp.logical, Seq::empty());
    }
    bytes
}

/// Reads a timestamp from its stored form.
pub fn decode_timestamp(bytes: &[u8]) -> (timestamp: Result<HybridTimestamp, String>)
    ensures
        match timestamp {
            Ok(read) => timestamp_decoding(bytes@) == Ok::<(u64, u32), Seq<char>>(
                (read.physical_ms, read.logical),
            ),
            Err(text) => timestamp_decoding(bytes@) == Err::<(u64, u32), Seq<char>>(text@),
        },
{
    let (physical_ms, rest) = match take_u64(bytes) {
        Ok(read) => read,
        Err(text) => return Err(text),
    };
    match take_u32(rest.as_slice()) {
        Ok((logical, _)) => Ok(HybridTimestamp { physical_ms, logical }),
        Err(text) => Err(text),
    }
}

/// Timestamps are totally ordered: of two, one is the other or comes before it, and
/// the order has no cycles.
pub proof fn law_timestamps_are_ordered(a: HybridTimestamp, b: HybridTimestamp, c: HybridTimestamp)
    ensures
        before(a, b) || before(b, a) || a == b,
        !(before(a, b) && before(b, a)),
        !before(a, a),
        before(a, b) && before(b, c) ==> before(a, c),
{
}

/// Whatever the clock on the wall shows, and however it jumps, a timestamp that is
/// handed out comes after the one that was handed out before it and after what was
/// observed.
pub proof fn law_clock_only_moves_forward(
    last: HybridTimestamp,
    observed: Option<HybridTimestamp>,
    physical_ms: u64,
    next: HybridTimestamp,
)
    requires
        following(later_of(last, observed), physical_ms) == Some(next),
    ensures
        before(last, next),
        observed matches Some(timestamp) ==> before(timestamp, next),
        next.physical_ms >= physical_ms,
{
}

/// Observing a timestamp never moves the clock back, and what is handed out next
/// comes after it.
pub proof fn law_observing_never_moves_back(
    last: HybridTimestamp,
    timestamp: HybridTimestamp,
    physical_ms: u64,
    next: HybridTimestamp,
)
    requires
        following(later_of(later_of(last, Some(timestamp)), None), physical_ms) == Some(next),
    ensures
        !before(later_of(last, Some(timestamp)), last),
        before(last, next),
        before(timestamp, next),
{
}

} // verus!
