//! Points in time as plain numbers.
use vstd::prelude::*;

verus! {

/// A point in time: whole seconds since the Unix epoch and the nanoseconds into that
/// second. Points compare by seconds first, then by nanoseconds.
#[derive(Clone, Copy, PartialEq, Eq, Structural, Debug)]
pub struct Stamp {
    pub secs: i64,
    pub nanos: u32,
}

impl Stamp {
    /// The order of points in time.
    pub open spec fn before_or_at(self, other: Stamp) -> bool {
        self.secs < other.secs || (self.secs == other.secs && self.nanos <= other.nanos)
    }

    /// Whether `self` is no later than `other`.
    pub fn is_before_or_at(self, other: Stamp) -> (r: bool)
        ensures
            r == self.before_or_at(other),
    {
        self.secs < other.secs || (self.secs == other.secs && self.nanos <= other.nanos)
    }
}

/// The point in time that an RFC 3339 text denotes, as seconds and nanoseconds; `None`
/// for a text that is not one.
pub uninterp spec fn rfc3339_instant(text: Seq<char>) -> Option<(i64, u32)>;

/// `chrono::DateTime::parse_from_rfc3339`, with the result taken apart by `timestamp`
/// and `timestamp_subsec_nanos`: both depend on the text alone and are known under the
/// name [`rfc3339_instant`].
#[verifier::external_body]
fn rfc3339_parts(text: &str) -> (r: Option<(i64, u32)>)
    ensures
        r == rfc3339_instant(text@),
{
    let parsed = chrono::DateTime::parse_from_rfc3339(text).ok()?;
    Some((parsed.timestamp(), parsed.timestamp_subsec_nanos()))
}

/// The point in time that `text` denotes.
pub open spec fn stamp_of_text(text: Seq<char>) -> Option<Stamp> {
    match rfc3339_instant(text) {
        Some(parts) => Some(Stamp { secs: parts.0, nanos: parts.1 }),
        None => None,
    }
}

/// Reads an RFC 3339 timestamp.
pub fn parse_rfc3339(text: &str) -> (r: Option<Stamp>)
    ensures
        r == stamp_of_text(text@),
{
    match rfc3339_parts(text) {
        Some((secs, nanos)) => Some(Stamp { secs, nanos }),
        None => None,
    }
}

// ---------------------------------------------------------------------------
// Differences
// ---------------------------------------------------------------------------

/// The nanoseconds in a second.
pub const NANOS_PER_SECOND: u32 = 1_000_000_000;

impl Stamp {
    /// The second of the day.
    pub open spec fn day_second(self) -> int {
        self.secs as int % 86_400
    }

    /// The point lies in a leap second, which counts on past the full second.
    pub open spec fn in_leap_second(self) -> bool {
        self.nanos >= NANOS_PER_SECOND
    }

    /// The leap second, if any, that lies between the seconds of two points and that
    /// the difference of the seconds does not count.
    pub open spec fn leap_between(self, earlier: Stamp) -> int {
        if self.day_second() > earlier.day_second() && earlier.in_leap_second() {
            1
        } else if self.day_second() < earlier.day_second() && self.in_leap_second() {
            -1
        } else {
            0
        }
    }

    /// The time from `earlier` to this point, in nanoseconds.
    pub open spec fn nanos_since(self, earlier: Stamp) -> int {
        (self.secs - earlier.secs + self.leap_between(earlier)) * NANOS_PER_SECOND + (self.nanos
            - earlier.nanos)
    }

    /// The time between two points in whole seconds, without its sign.
    pub open spec fn seconds_apart(self, other: Stamp) -> int {
        let n = self.nanos_since(other);
        (if n < 0 {
            -n
        } else {
            n
        }) / NANOS_PER_SECOND as int
    }

    /// A number by which points in time are ordered.
    pub open spec fn rank(self) -> int {
        self.secs * 0x1_0000_0000 + self.nanos
    }

    fn second_of_day(self) -> (r: i128)
        ensures
            r == self.day_second(),
    {
        let shifted: i128 = self.secs as i128 + 9_223_372_036_854_806_400;
        proof {
            vstd::arithmetic::div_mod::lemma_mod_multiples_vanish(
                106_751_991_167_301,
                self.secs as int,
                86_400,
            );
            assert(86_400 * 106_751_991_167_301int + self.secs as int == shifted);
        }
        shifted % 86_400
    }

    /// The time from `earlier` to this point, in nanoseconds.
    pub fn nanos_from(self, earlier: Stamp) -> (r: i128)
        ensures
            r == self.nanos_since(earlier),
    {
        let mut secs: i128 = self.secs as i128 - earlier.secs as i128;
        let here: i128 = self.second_of_day();
        let there: i128 = earlier.second_of_day();
        if here > there && earlier.nanos >= NANOS_PER_SECOND {
            secs = secs + 1;
        } else if here < there && self.nanos >= NANOS_PER_SECOND {
            secs = secs - 1;
        }
        secs * 1_000_000_000 + (self.nanos as i128 - earlier.nanos as i128)
    }

    /// The time between two points in whole seconds, without its sign.
    pub fn seconds_from(self, other: Stamp) -> (r: i128)
        ensures
            r == self.seconds_apart(other),
    {
        let n: i128 = self.nanos_from(other);
        if n < 0 {
            (-n) / 1_000_000_000
        } else {
            n / 1_000_000_000
        }
    }

    /// A number by which points in time are ordered.
    pub fn order_key(self) -> (r: i128)
        ensures
            r == self.rank(),
    {
        self.secs as i128 * 0x1_0000_0000 + self.nanos as i128
    }
}

/// The number orders points in time as they follow each other.
pub proof fn law_rank_orders_stamps(a: Stamp, b: Stamp)
    ensures
        a.before_or_at(b) <==> a.rank() <= b.rank(),
        a.rank() == b.rank() ==> a == b,
{
}

/// One point is before another if it lies in an earlier second, or earlier in the same.
pub proof fn law_order_of_stamps(a: Stamp, b: Stamp)
    ensures
        a.secs < b.secs ==> a.before_or_at(b) && !b.before_or_at(a),
        a.secs == b.secs ==> (a.before_or_at(b) <==> a.nanos <= b.nanos),
{
}

/// The time between two points is the difference of their nanoseconds since the epoch,
/// unless one of them lies in a leap second; then it is off by a second at most. It
/// changes its sign with the order of the points, and the seconds between them do not.
pub proof fn law_time_between_stamps(a: Stamp, b: Stamp)
    ensures
        a.nanos < 1_000_000_000 && b.nanos < 1_000_000_000 ==> a.nanos_since(b) == (a.secs
            * 1_000_000_000 + a.nanos) - (b.secs * 1_000_000_000 + b.nanos),
        -1_000_000_000 <= a.nanos_since(b) - ((a.secs * 1_000_000_000 + a.nanos) - (b.secs
            * 1_000_000_000 + b.nanos)) <= 1_000_000_000,
        a.nanos_since(b) == -b.nanos_since(a),
        a.seconds_apart(b) == b.seconds_apart(a),
        a.nanos_since(b) >= 0 ==> a.seconds_apart(b) * 1_000_000_000 <= a.nanos_since(b) < (
        a.seconds_apart(b) + 1) * 1_000_000_000,
{
}

/// A text denotes the point that its seconds and nanoseconds give.
pub proof fn law_stamp_of_text(text: Seq<char>)
    ensures
        stamp_of_text(text) is Some <==> rfc3339_instant(text) is Some,
        stamp_of_text(text) matches Some(s) ==> (s.secs, s.nanos) == rfc3339_instant(text)->0,
{
}


/// A leap second between two points of the day counts: the time from a point inside one to
/// a later second of the day is longer by a second than the difference of their numbers,
/// and that from a later second back is shorter by one.
pub proof fn law_leap_second_counts(a: Stamp, b: Stamp)
    ensures
        ({
            let plain = (a.secs * 1_000_000_000 + a.nanos) - (b.secs * 1_000_000_000 + b.nanos);
            &&& a.secs as int % 86_400 > b.secs as int % 86_400 && b.nanos >= 1_000_000_000
                ==> a.nanos_since(b) == plain + 1_000_000_000
            &&& a.secs as int % 86_400 < b.secs as int % 86_400 && a.nanos >= 1_000_000_000
                ==> a.nanos_since(b) == plain - 1_000_000_000
            &&& a.secs as int % 86_400 == b.secs as int % 86_400 ==> a.nanos_since(b) == plain
            &&& a.secs as int % 86_400 > b.secs as int % 86_400 && b.nanos < 1_000_000_000
                ==> a.nanos_since(b) == plain
            &&& a.secs as int % 86_400 < b.secs as int % 86_400 && a.nanos < 1_000_000_000
                ==> a.nanos_since(b) == plain
        }),
{
}


} // verus!
