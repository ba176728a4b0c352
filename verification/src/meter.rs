//! Bounded resource counters: a current value tracked against a maximum,
//! parsed from and rendered as a compact `current/maximum` fraction.

use crate::text::{
    append_i32, append_u64, parse_i32, parse_u32, spec_i32_text, spec_parse_i32, spec_parse_u32,
    spec_split_slash, spec_u64_digits, split_slash,
};
use vstd::prelude::*;

verus! {

/// Why a meter failed to parse: a field that is not an integer of the
/// expected range, or a count of `/`-separated fields other than two.
#[derive(Debug, Clone, Copy, PartialEq, Eq, Structural)]
pub enum ParseMeterError {
    Int,
    NumArgs,
}

/// A counter holding a current value out of a maximum.
///
/// The invariant `current <= maximum` is enforced only by the increasing
/// operation; decreasing is deliberately unclamped at the top (see
/// [`Meter::<i32>::decrease`]).
#[derive(Debug, Clone, Copy, PartialEq, Eq, Structural)]
pub struct Meter<T> {
    pub current: T,
    pub maximum: T,
}

impl<T: Copy> Meter<T> {
    /// Make a meter with the given current and maximum values.
    pub fn new(current: T, maximum: T) -> (r: Self)
        ensures
            r == (Meter { current, maximum }),
    {
        Meter { current, maximum }
    }

    /// The current value.
    pub fn curr(&self) -> (r: T)
        ensures
            r == self.current,
    {
        self.current
    }

    /// The maximum value.
    pub fn max(&self) -> (r: T)
        ensures
            r == self.maximum,
    {
        self.maximum
    }
}

/// The current value after a clamped increase: `min(maximum, current + amount)`,
/// held to the `i32` range from below.
pub open spec fn spec_increase_i32(current: int, maximum: int, amount: int) -> int {
    let ideal = if current + amount <= maximum {
        current + amount
    } else {
        maximum
    };
    if ideal < i32::MIN as int {
        i32::MIN as int
    } else {
        ideal
    }
}

/// The current value after an unclamped decrease, saturated at the `i32` range.
pub open spec fn spec_decrease_i32(current: int, amount: int) -> int {
    let ideal = current - amount;
    if ideal < i32::MIN as int {
        i32::MIN as int
    } else if ideal > i32::MAX as int {
        i32::MAX as int
    } else {
        ideal
    }
}

impl Meter<i32> {
    /// Raise the current value by `amount`, clamped to the maximum.
    ///
    /// The result never exceeds the maximum, whatever the inputs.
    pub fn increase(&mut self, amount: i32)
        ensures
            final (self).maximum == old(self).maximum,
            final (self).current as int == spec_increase_i32(
                old(self).current as int,
                old(self).maximum as int,
                amount as int,
            ),
            final (self).current <= final (self).maximum,
    {
        let sum: i64 = self.current as i64 + amount as i64;
        let cap: i64 = self.maximum as i64;
        let ideal: i64 = if sum <= cap {
            sum
        } else {
            cap
        };
        self.current = if ideal < i32::MIN as i64 {
            i32::MIN
        } else {
            ideal as i32
        };
    }

    /// Lower the current value by `amount` with no floor at zero: callers that
    /// need a floor must guard themselves. The value saturates only at the
    /// bounds of the representation, so it never wraps silently.
    pub fn decrease(&mut self, amount: i32)
        ensures
            final (self).maximum == old(self).maximum,
            final (self).current as int == spec_decrease_i32(
                old(self).current as int,
                amount as int,
            ),
    {
        let diff: i64 = self.current as i64 - amount as i64;
        self.current = if diff < i32::MIN as i64 {
            i32::MIN
        } else if diff > i32::MAX as i64 {
            i32::MAX
        } else {
            diff as i32
        };
    }
}

/// The current value after a clamped increase of an unsigned meter.
pub open spec fn spec_increase_u32(current: int, maximum: int, amount: int) -> int {
    if current + amount <= maximum {
        current + amount
    } else {
        maximum
    }
}

impl Meter<u32> {
    /// Raise the current value by `amount`, clamped to the maximum.
    ///
    /// The result never exceeds the maximum, whatever the inputs.
    pub fn increase(&mut self, amount: u32)
        ensures
            final (self).maximum == old(self).maximum,
            final (self).current as int == spec_increase_u32(
                old(self).current as int,
                old(self).maximum as int,
                amount as int,
            ),
            final (self).current <= final (self).maximum,
    {
        let sum: u64 = self.current as u64 + amount as u64;
        self.current = if sum <= self.maximum as u64 {
            sum as u32
        } else {
            self.maximum
        };
    }

    /// Lower the current value by `amount`. The counter is unsigned, so the
    /// caller must ensure `amount` does not exceed the current value.
    pub fn decrease(&mut self, amount: u32)
        requires
            amount <= old(self).current,
        ensures
            final (self).maximum == old(self).maximum,
            final (self).current == old(self).current - amount,
    {
        self.current = self.current - amount;
    }
}

/// The meter denoted by a fraction of two signed integers, or the reason it
/// denotes none.
pub open spec fn spec_parse_meter_i32(s: Seq<char>) -> Result<Meter<i32>, ParseMeterError> {
    let segs = spec_split_slash(s);
    if segs.len() != 2 {
        Err(ParseMeterError::NumArgs)
    } else {
        match (spec_parse_i32(segs[0]), spec_parse_i32(segs[1])) {
            (Some(c), Some(m)) => Ok(Meter { current: c as i32, maximum: m as i32 }),
            _ => Err(ParseMeterError::Int),
        }
    }
}

/// The meter denoted by a fraction of two unsigned integers, or the reason it
/// denotes none.
pub open spec fn spec_parse_meter_u32(s: Seq<char>) -> Result<Meter<u32>, ParseMeterError> {
    let segs = spec_split_slash(s);
    if segs.len() != 2 {
        Err(ParseMeterError::NumArgs)
    } else {
        match (spec_parse_u32(segs[0]), spec_parse_u32(segs[1])) {
            (Some(c), Some(m)) => Ok(Meter { current: c as u32, maximum: m as u32 }),
            _ => Err(ParseMeterError::Int),
        }
    }
}

/// The rendering of a signed meter: current, `/`, maximum.
pub open spec fn spec_meter_text_i32(m: Meter<i32>) -> Seq<char> {
    spec_i32_text(m.current as int) + seq!['/'] + spec_i32_text(m.maximum as int)
}

/// The rendering of an unsigned meter: current, `/`, maximum.
pub open spec fn spec_meter_text_u32(m: Meter<u32>) -> Seq<char> {
    spec_u64_digits(m.current as int) + seq!['/'] + spec_u64_digits(m.maximum as int)
}

impl Meter<i32> {
    /// Parse a fraction `current/maximum` of signed integers.
    pub fn from_str(s: &str) -> (r: Result<Self, ParseMeterError>)
        ensures
            r == spec_parse_meter_i32(s@),
    {
        let segs = split_slash(s);
        if segs.len() != 2 {
            return Err(ParseMeterError::NumArgs);
        }
        assert(segs[0]@ == spec_split_slash(s@)[0]);
        assert(segs[1]@ == spec_split_slash(s@)[1]);
        let current = match parse_i32(segs[0].as_str()) {
            Some(c) => c,
            None => {
                return Err(ParseMeterError::Int);
            },
        };
        let maximum = match parse_i32(segs[1].as_str()) {
            Some(m) => m,
            None => {
                return Err(ParseMeterError::Int);
            },
        };
        Ok(Meter { current, maximum })
    }

    /// Render the meter as `current/maximum`.
    pub fn to_text(&self) -> (r: String)
        ensures
            r@ == spec_meter_text_i32(*self),
    {
        let mut out = String::new();
        append_i32(&mut out, self.current);
        out.append("/");
        append_i32(&mut out, self.maximum);
        proof {
            reveal_strlit("/");
            assert(out@ =~= spec_meter_text_i32(*self));
        }
        out
    }
}

impl Meter<u32> {
    /// Parse a fraction `current/maximum` of unsigned integers.
    pub fn from_str(s: &str) -> (r: Result<Self, ParseMeterError>)
        ensures
            r == spec_parse_meter_u32(s@),
    {
        let segs = split_slash(s);
        if segs.len() != 2 {
            return Err(ParseMeterError::NumArgs);
        }
        assert(segs[0]@ == spec_split_slash(s@)[0]);
        assert(segs[1]@ == spec_split_slash(s@)[1]);
        let current = match parse_u32(segs[0].as_str()) {
            Some(c) => c,
            None => {
                return Err(ParseMeterError::Int);
            },
        };
        let maximum = match parse_u32(segs[1].as_str()) {
            Some(m) => m,
            None => {
                return Err(ParseMeterError::Int);
            },
        };
        Ok(Meter { current, maximum })
    }

    /// Render the meter as `current/maximum`.
    pub fn to_text(&self) -> (r: String)
        ensures
            r@ == spec_meter_text_u32(*self),
    {
        let mut out = String::new();
        append_u64(&mut out, self.current as u64);
        out.append("/");
        append_u64(&mut out, self.maximum as u64);
        proof {
            reveal_strlit("/");
            assert(out@ =~= spec_meter_text_u32(*self));
        }
        out
    }
}

/// The rendering of a meter with non-negative fields parses back to the very
/// same meter: for all non-negative `c <= m` (indeed for all non-negative
/// values at all), formatting and parsing round-trip.
pub proof fn lemma_meter_round_trip_i32(m: Meter<i32>)
    requires
        m.current >= 0,
        m.maximum >= 0,
    ensures
        spec_parse_meter_i32(spec_meter_text_i32(m)) == Ok::<Meter<i32>, ParseMeterError>(m),
{
    let dc = spec_u64_digits(m.current as int);
    let dm = spec_u64_digits(m.maximum as int);
    let s = spec_meter_text_i32(m);
    crate::text::lemma_u64_digits_val(m.current as int);
    crate::text::lemma_u64_digits_val(m.maximum as int);
    assert(s =~= dc + seq!['/'] + dm);
    let i = dc.len() as int;
    assert(s[i] == '/');
    assert(forall|j: int| 0 <= j < i ==> s[j] == dc[j] && crate::text::is_digit(#[trigger] s[j]));
    assert(forall|j: int| 0 <= j < i ==> s[j] != '/');
    crate::text::lemma_split_slash_at(s, i);
    assert(s.take(i) =~= dc);
    assert(s.skip(i + 1) =~= dm);
    assert(forall|j: int| 0 <= j < dm.len() ==> crate::text::is_digit(#[trigger] dm[j]) && dm[j]
        != '/');
    crate::text::lemma_split_slash_none(dm);
    let segs = spec_split_slash(s);
    assert(segs =~~= seq![dc] + seq![dm]);
    assert(segs.len() == 2);
    assert(segs[0] == dc);
    assert(segs[1] == dm);
    assert(crate::text::is_digit(dc[0]) && dc[0] != '-');
    assert(crate::text::is_digit(dm[0]) && dm[0] != '-');
    assert(spec_parse_i32(dc) == Some(m.current as int));
    assert(spec_parse_i32(dm) == Some(m.maximum as int));
}

/// The same round trip for the unsigned meter: every rendering parses back
/// to the very meter it came from.
pub proof fn lemma_meter_round_trip_u32(m: Meter<u32>)
    ensures
        spec_parse_meter_u32(spec_meter_text_u32(m)) == Ok::<Meter<u32>, ParseMeterError>(m),
{
    let dc = spec_u64_digits(m.current as int);
    let dm = spec_u64_digits(m.maximum as int);
    let s = spec_meter_text_u32(m);
    crate::text::lemma_u64_digits_val(m.current as int);
    crate::text::lemma_u64_digits_val(m.maximum as int);
    assert(s =~= dc + seq!['/'] + dm);
    let i = dc.len() as int;
    assert(s[i] == '/');
    assert(forall|j: int| 0 <= j < i ==> s[j] == dc[j] && crate::text::is_digit(#[trigger] s[j]));
    assert(forall|j: int| 0 <= j < i ==> s[j] != '/');
    crate::text::lemma_split_slash_at(s, i);
    assert(s.take(i) =~= dc);
    assert(s.skip(i + 1) =~= dm);
    assert(forall|j: int| 0 <= j < dm.len() ==> crate::text::is_digit(#[trigger] dm[j]) && dm[j]
        != '/');
    crate::text::lemma_split_slash_none(dm);
    let segs = spec_split_slash(s);
    assert(segs =~~= seq![dc] + seq![dm]);
    assert(segs.len() == 2);
    assert(segs[0] == dc);
    assert(segs[1] == dm);
    assert(spec_parse_u32(dc) == Some(m.current as int));
    assert(spec_parse_u32(dm) == Some(m.maximum as int));
}

} // verus!
