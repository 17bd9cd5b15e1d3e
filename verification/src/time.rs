//! Picosecond-precise durations, timestamps and the clock that produces them.

use vstd::prelude::*;
use vstd::string::StringExecFns;

verus! {

/// Picoseconds in a nanosecond.
pub const PICOS_PER_NANO: u128 = 1_000;

/// Picoseconds in a microsecond.
pub const PICOS_PER_MICRO: u128 = 1_000_000;

/// Picoseconds in a millisecond.
pub const PICOS_PER_MILLI: u128 = 1_000_000_000;

/// Picoseconds in a second.
pub const PICOS_PER_SEC: u128 = 1_000_000_000_000;

/// Picosecond-precise duration.
#[derive(Clone, Copy, Debug, PartialEq, Eq, Structural, PartialOrd, Ord, Hash)]
pub struct FineDuration {
    pub picos: u128,
}

/// A point in time read from a [`Clock`], as picoseconds since the origin of
/// that clock.
#[derive(Clone, Copy, Debug, PartialEq, Eq, Structural, PartialOrd, Ord, Hash)]
pub struct Timestamp {
    pub picos: u128,
}

/// A monotonic time source.
///
/// `start` and `end` may read the same counter. They are separate so that an
/// implementation can put a memory barrier in front of the reading that
/// opens a timed section, and one behind the reading that closes it.
///
/// Nothing is assumed of what an implementation returns: whatever is proved of
/// the code that reads a clock holds for every sequence of readings.
pub trait Clock {
    /// Reads the time at the start of a timed section.
    fn start(&self) -> Timestamp;

    /// Reads the time at the end of a timed section.
    fn end(&self) -> Timestamp;

    /// The smallest nonzero interval that two consecutive readings of this
    /// clock can differ by.
    fn precision(&self) -> FineDuration;
}

/// The moment at which an [`OsClock`] was made. Nothing is known of it but
/// that time can be measured from it.
#[verifier::external_type_specification]
#[verifier::external_body]
pub struct ExInstant(std::time::Instant);

/// The clock of the operating system.
///
/// It measures its precision when it is made.
pub struct OsClock {
    /// When the clock was made. Its timestamps count from here.
    origin: std::time::Instant,
    /// The smallest step that the clock was seen to make.
    precision: FineDuration,
}

/// The number of pairs of readings from which an [`OsClock`] takes its
/// precision.
pub const PRECISION_ATTEMPTS: u32 = 10_000;

/// The precision that a clock is taken to have on which no two readings in
/// a row were seen to differ.
pub const DEFAULT_PRECISION_PICOS: u128 = 1_000;

/// The present moment.
///
/// Calls `std::time::Instant::now`. Nothing is claimed of what it returns.
#[verifier::external_body]
fn instant_now() -> std::time::Instant {
    std::time::Instant::now()
}

/// The time that has passed since `origin`.
///
/// Calls `std::time::Instant::elapsed`. Nothing is claimed of what it
/// returns.
#[verifier::external_body]
fn instant_elapsed(origin: &std::time::Instant) -> std::time::Duration {
    origin.elapsed()
}

/// The whole nanoseconds in `duration`.
///
/// Calls `std::time::Duration::as_nanos`. Nothing is claimed of what it
/// returns.
#[verifier::external_body]
fn duration_as_nanos(duration: &std::time::Duration) -> u128 {
    duration.as_nanos()
}

/// The smaller of the steps `smallest` and `step` of a clock, where a step
/// of zero is no step.
pub open spec fn smaller_step(smallest: u128, step: u128) -> u128 {
    if step != 0 && (smallest == 0 || step < smallest) {
        step
    } else {
        smallest
    }
}

/// The smallest of `steps` that is not zero, or zero if there is none.
pub open spec fn smallest_step(steps: Seq<u128>) -> u128
    decreases steps.len(),
{
    if steps.len() == 0 {
        0
    } else {
        smaller_step(smallest_step(steps.drop_last()), steps.last())
    }
}

/// The precision of a clock that was seen to make the steps `steps`: the
/// smallest of them that is not zero, or [`DEFAULT_PRECISION_PICOS`] if the
/// clock was not seen to move.
pub open spec fn precision_from(steps: Seq<u128>) -> u128 {
    if smallest_step(steps) == 0 {
        DEFAULT_PRECISION_PICOS
    } else {
        smallest_step(steps)
    }
}

/// Whether `precision` is what `steps`, which are as many as `attempts`,
/// make the precision of a clock.
pub open spec fn is_precision_from(
    precision: FineDuration,
    steps: Seq<u128>,
    attempts: u32,
) -> bool {
    steps.len() == attempts && precision.picos == precision_from(steps)
}

/// Returns the smaller of the steps `smallest` and `step` of a clock, where
/// a step of zero is no step.
pub fn take_smaller_step(smallest: u128, step: FineDuration) -> (smaller: u128)
    ensures
        smaller == smaller_step(smallest, step.picos),
{
    if step.picos != 0 && (smallest == 0 || step.picos < smallest) {
        step.picos
    } else {
        smallest
    }
}

/// Whether `start` and `end` are readings that `clock` has given: `start`
/// one that opens a timed section, and `end` one that closes it.
pub open spec fn is_span_of<C: Clock>(clock: &C, start: Timestamp, end: Timestamp) -> bool {
    &&& call_ensures(C::start, (clock,), start)
    &&& call_ensures(C::end, (clock,), end)
}

/// Whether `step` is the time between two readings that `clock` has given.
pub open spec fn is_step_of<C: Clock>(clock: &C, step: u128) -> bool {
    exists|start: Timestamp, end: Timestamp| #[trigger]
        is_span_of(clock, start, end) && step == end.duration_since(start).picos
}

/// Whether each of `steps` is the time between two readings that `clock` has
/// given.
pub open spec fn are_steps_of<C: Clock>(clock: &C, steps: Seq<u128>) -> bool {
    forall|k: int| 0 <= k < steps.len() ==> is_step_of(clock, #[trigger] steps[k])
}

/// Measures the precision of `clock`: the smallest step, other than none,
/// between two readings in a row, out of `attempts` pairs of readings. If
/// no two readings differ, the precision is taken to be
/// [`DEFAULT_PRECISION_PICOS`].
pub fn measure_precision<C: Clock>(clock: &C, attempts: u32) -> (precision: FineDuration)
    ensures
        precision.picos > 0,
        exists|steps: Seq<u128>|
            {
                &&& #[trigger] is_precision_from(precision, steps, attempts)
                &&& are_steps_of(clock, steps)
            },
{
    let mut smallest: u128 = 0;
    let mut attempt: u32 = 0;
    let ghost mut steps: Seq<u128> = Seq::empty();
    while attempt < attempts
        invariant
            attempt <= attempts,
            steps.len() == attempt,
            smallest == smallest_step(steps),
            are_steps_of(clock, steps),
        decreases attempts - attempt,
    {
        let start = clock.start();
        let end = clock.end();
        let step = end.duration_since(start);
        smallest = take_smaller_step(smallest, step);
        proof {
            assert(is_span_of(clock, start, end));
            assert(is_step_of(clock, step.picos));
            assert(steps.push(step.picos).drop_last() == steps);
            steps = steps.push(step.picos);
        }
        attempt = attempt + 1;
    }
    let precision = if smallest == 0 {
        FineDuration { picos: DEFAULT_PRECISION_PICOS }
    } else {
        FineDuration { picos: smallest }
    };
    assert(is_precision_from(precision, steps, attempts));
    precision
}

impl OsClock {
    /// The smallest step that the clock was seen to make.
    pub closed spec fn spec_precision(&self) -> FineDuration {
        self.precision
    }

    /// This clock as it was before it measured its precision.
    pub closed spec fn unmeasured(&self) -> OsClock {
        OsClock {
            origin: self.origin,
            precision: FineDuration { picos: DEFAULT_PRECISION_PICOS },
        }
    }

    /// A clock that counts from now. Its precision is what
    /// [`measure_precision`] makes of [`PRECISION_ATTEMPTS`] steps that the
    /// clock took before it knew its precision.
    pub fn new() -> (clock: Self)
        ensures
            clock.spec_precision().picos > 0,
            exists|steps: Seq<u128>|
                {
                    &&& #[trigger] is_precision_from(
                        clock.spec_precision(),
                        steps,
                        PRECISION_ATTEMPTS,
                    )
                    &&& are_steps_of(&clock.unmeasured(), steps)
                },
    {
        let unmeasured = OsClock {
            origin: instant_now(),
            precision: FineDuration { picos: DEFAULT_PRECISION_PICOS },
        };
        let precision = measure_precision(&unmeasured, PRECISION_ATTEMPTS);
        OsClock { origin: unmeasured.origin, precision }
    }

    /// The time since the clock was made: the whole nanoseconds that the
    /// operating system says have passed, as a timestamp.
    fn read(&self) -> (now: Timestamp)
        ensures
            is_whole_nanos(now),
    {
        let nanos = duration_as_nanos(&instant_elapsed(&self.origin));
        Timestamp::from_nanos(nanos)
    }
}

impl Clock for OsClock {
    fn start(&self) -> (now: Timestamp)
        ensures
            is_whole_nanos(now),
    {
        // Nothing from before the timed section is to be moved into it.
        full_fence();
        self.read()
    }

    fn end(&self) -> (now: Timestamp)
        ensures
            is_whole_nanos(now),
    {
        let now = self.read();
        // Nothing from behind the timed section is to be moved into it.
        full_fence();
        now
    }

    fn precision(&self) -> (precision: FineDuration)
        ensures
            precision == self.spec_precision(),
    {
        self.precision
    }
}

/// Keeps the reads and writes before it from being moved behind those that
/// follow it, and the other way round.
///
/// Calls `std::sync::atomic::fence` for sequential consistency. It returns
/// nothing, and nothing is claimed of it.
#[verifier::external_body]
fn full_fence() {
    std::sync::atomic::fence(std::sync::atomic::Ordering::SeqCst);
}

impl Default for FineDuration {
    fn default() -> (d: Self)
        ensures
            d.picos == 0,
    {
        FineDuration { picos: 0 }
    }
}

impl FineDuration {
    /// The longest duration that can be represented.
    pub open spec fn spec_max() -> Self {
        FineDuration { picos: u128::MAX }
    }

    /// The longest duration that can be represented.
    #[verifier::when_used_as_spec(spec_max)]
    pub fn max() -> (d: Self)
        ensures
            d == Self::spec_max(),
    {
        FineDuration { picos: u128::MAX }
    }

    /// A duration of `nanos` nanoseconds.
    pub fn from_nanos(nanos: u64) -> (d: Self)
        ensures
            d.picos == nanos * 1_000,
    {
        FineDuration { picos: nanos as u128 * PICOS_PER_NANO }
    }

    /// Whether this duration is exactly zero.
    pub fn is_zero(&self) -> (zero: bool)
        ensures
            zero == (self.picos == 0),
    {
        self.picos == 0
    }

    /// The sum of two durations, or the longest duration if the sum cannot be
    /// represented.
    pub fn saturating_add(self, other: FineDuration) -> (sum: Self)
        ensures
            sum.picos == if self.picos + other.picos > u128::MAX {
                u128::MAX as int
            } else {
                self.picos + other.picos
            },
    {
        FineDuration { picos: self.picos.saturating_add(other.picos) }
    }

    /// What is left of this duration after `other` is taken away, or zero if
    /// `other` is the longer one.
    pub fn saturating_sub(self, other: FineDuration) -> (difference: Self)
        ensures
            difference.picos == if self.picos >= other.picos {
                self.picos - other.picos
            } else {
                0
            },
    {
        FineDuration { picos: self.picos.saturating_sub(other.picos) }
    }

    /// This duration divided evenly over `count` parts, rounded down.
    pub fn div_count(self, count: u32) -> (part: Self)
        requires
            count > 0,
        ensures
            part.picos == self.picos / (count as u128),
    {
        FineDuration { picos: self.picos / (count as u128) }
    }

    /// This duration, or `floor` in its place if it is zero.
    pub fn or_if_zero(self, floor: FineDuration) -> (d: Self)
        ensures
            d == if self.picos == 0 { floor } else { self },
    {
        if self.picos == 0 {
            floor
        } else {
            self
        }
    }
}

/// Whether `timestamp` is a whole number of nanoseconds after the origin of
/// its clock, as every reading of an [`OsClock`] is.
pub open spec fn is_whole_nanos(timestamp: Timestamp) -> bool {
    exists|nanos: u128| timestamp == #[trigger] Timestamp::spec_from_nanos(nanos)
}

impl Timestamp {
    /// The timestamp `nanos` nanoseconds after the origin of a clock, or the
    /// last timestamp there is if that one cannot be represented.
    pub open spec fn spec_from_nanos(nanos: u128) -> Timestamp {
        Timestamp {
            picos: if nanos * PICOS_PER_NANO > u128::MAX {
                u128::MAX
            } else {
                (nanos * PICOS_PER_NANO) as u128
            },
        }
    }

    /// The timestamp `nanos` nanoseconds after the origin of a clock, or the
    /// last timestamp there is if that one cannot be represented.
    #[verifier::when_used_as_spec(spec_from_nanos)]
    pub fn from_nanos(nanos: u128) -> (timestamp: Timestamp)
        ensures
            timestamp == Self::spec_from_nanos(nanos),
    {
        Timestamp {
            picos: match nanos.checked_mul(PICOS_PER_NANO) {
                Some(picos) => picos,
                None => u128::MAX,
            },
        }
    }

    /// The time that passed from `earlier` to this timestamp, or zero if
    /// `earlier` is in fact the later one.
    pub open spec fn spec_duration_since(self, earlier: Timestamp) -> FineDuration {
        FineDuration {
            picos: if self.picos >= earlier.picos {
                (self.picos - earlier.picos) as u128
            } else {
                0
            },
        }
    }

    /// The time that passed from `earlier` to this timestamp, or zero if
    /// `earlier` is in fact the later one.
    #[verifier::when_used_as_spec(spec_duration_since)]
    pub fn duration_since(self, earlier: Timestamp) -> (elapsed: FineDuration)
        ensures
            elapsed == self.spec_duration_since(earlier),
    {
        FineDuration { picos: self.picos.saturating_sub(earlier.picos) }
    }
}

/// The character that stands for the decimal digit `d`.
pub open spec fn digit_char(d: nat) -> char {
    if d == 0 {
        '0'
    } else if d == 1 {
        '1'
    } else if d == 2 {
        '2'
    } else if d == 3 {
        '3'
    } else if d == 4 {
        '4'
    } else if d == 5 {
        '5'
    } else if d == 6 {
        '6'
    } else if d == 7 {
        '7'
    } else if d == 8 {
        '8'
    } else {
        '9'
    }
}

/// The decimal digits of `n`, most significant first, without leading zeros.
pub open spec fn decimal_text(n: nat) -> Seq<char>
    decreases n,
{
    if n < 10 {
        seq![digit_char(n)]
    } else {
        decimal_text(n / 10).push(digit_char(n % 10))
    }
}

/// The number of decimal digits of `n`.
pub fn decimal_width(n: u32) -> (width: usize)
    ensures
        width == decimal_text(n as nat).len(),
        1 <= width <= 10,
{
    proof {
        reveal_with_fuel(decimal_text, 11);
    }
    if n < 10 {
        1
    } else if n < 100 {
        2
    } else if n < 1_000 {
        3
    } else if n < 10_000 {
        4
    } else if n < 100_000 {
        5
    } else if n < 1_000_000 {
        6
    } else if n < 10_000_000 {
        7
    } else if n < 100_000_000 {
        8
    } else if n < 1_000_000_000 {
        9
    } else {
        10
    }
}

/// The digits of `frac` behind a decimal point, without trailing zeros.
///
/// `place` is the weight that the first digit has in `frac`: 100 for three
/// digits, 10 for two, 1 for one and 0 for none.
pub open spec fn fraction_text(frac: nat, place: nat) -> Seq<char>
    decreases place,
{
    if place == 0 || frac == 0 {
        Seq::empty()
    } else {
        seq![digit_char(frac / place)] + fraction_text(frac % place, place / 10)
    }
}

/// The number of picoseconds in the largest unit of time in which `picos` is
/// at least one.
pub open spec fn unit_picos(picos: nat) -> nat {
    if picos >= PICOS_PER_SEC {
        PICOS_PER_SEC as nat
    } else if picos >= PICOS_PER_MILLI {
        PICOS_PER_MILLI as nat
    } else if picos >= PICOS_PER_MICRO {
        PICOS_PER_MICRO as nat
    } else if picos >= PICOS_PER_NANO {
        PICOS_PER_NANO as nat
    } else {
        1
    }
}

/// The abbreviation of the unit of time that is `unit` picoseconds long.
pub open spec fn unit_suffix(unit: nat) -> Seq<char> {
    if unit == PICOS_PER_SEC {
        seq!['s']
    } else if unit == PICOS_PER_MILLI {
        seq!['m', 's']
    } else if unit == PICOS_PER_MICRO {
        seq!['\u{b5}', 's']
    } else if unit == PICOS_PER_NANO {
        seq!['n', 's']
    } else {
        seq!['p', 's']
    }
}

/// The weight of the first digit of the fraction that is shown behind a whole
/// part of `whole`, so that whole part and fraction together have at most four
/// significant figures.
pub open spec fn fraction_place(whole: nat) -> nat {
    if whole >= 1000 {
        0
    } else if whole >= 100 {
        1
    } else if whole >= 10 {
        10
    } else {
        100
    }
}

/// How a duration of `picos` picoseconds is written out.
///
/// Zero is `0ns`. Any other duration is given in the largest unit in which it
/// is at least one, cut off (not rounded) after four significant figures, and
/// without trailing zeros in the fraction.
pub open spec fn duration_text(picos: nat) -> Seq<char> {
    if picos == 0 {
        seq!['0', 'n', 's']
    } else {
        let unit = unit_picos(picos);
        let whole = picos / unit;
        let place = fraction_place(whole);
        let fraction = fraction_text((picos % unit) * (place * 10) / unit, place);
        let point = if fraction.len() > 0 {
            seq!['.']
        } else {
            Seq::empty()
        };
        decimal_text(whole) + point + fraction + unit_suffix(unit)
    }
}

/// The text of a single decimal digit.
fn digit_str(d: u128) -> (text: &'static str)
    requires
        d < 10,
    ensures
        text@ == seq![digit_char(d as nat)],
{
    proof {
        reveal_strlit("0");
        reveal_strlit("1");
        reveal_strlit("2");
        reveal_strlit("3");
        reveal_strlit("4");
        reveal_strlit("5");
        reveal_strlit("6");
        reveal_strlit("7");
        reveal_strlit("8");
        reveal_strlit("9");
    }
    if d == 0 {
        "0"
    } else if d == 1 {
        "1"
    } else if d == 2 {
        "2"
    } else if d == 3 {
        "3"
    } else if d == 4 {
        "4"
    } else if d == 5 {
        "5"
    } else if d == 6 {
        "6"
    } else if d == 7 {
        "7"
    } else if d == 8 {
        "8"
    } else {
        "9"
    }
}

/// Appends the decimal digits of `n` to `out`.
fn push_decimal(out: &mut String, n: u128)
    ensures
        final(out)@ == old(out)@ + decimal_text(n as nat),
    decreases n,
{
    if n >= 10 {
        push_decimal(out, n / 10);
    }
    out.append(digit_str(n % 10));
}

/// Appends the digits of the fraction `frac` to `out`.
fn push_fraction(out: &mut String, frac: u128, place: u128)
    requires
        place == 0 || place == 1 || place == 10 || place == 100,
        place == 0 ==> frac == 0,
        frac < place * 10 || frac == 0,
    ensures
        final(out)@ == old(out)@ + fraction_text(frac as nat, place as nat),
    decreases place,
{
    if place != 0 && frac != 0 {
        assert(frac / place < 10 && frac % place < place) by {
            if place == 1 {
                assert(frac / 1 < 10 && frac % 1 < 1);
            } else if place == 10 {
                assert(frac / 10 < 10 && frac % 10 < 10);
            } else {
                assert(frac / 100 < 10 && frac % 100 < 100);
            }
        }
        out.append(digit_str(frac / place));
        push_fraction(out, frac % place, place / 10);
    }
}

impl FineDuration {
    /// Writes this duration out for a reader: `1.5\u{b5}s`, `2ms`, `0ns`.
    pub fn format(&self) -> (text: String)
        ensures
            text@ == duration_text(self.picos as nat),
    {
        let picos = self.picos;
        if picos == 0 {
            proof {
                reveal_strlit("0ns");
            }
            return String::from_str("0ns");
        }
        let unit: u128 = if picos >= PICOS_PER_SEC {
            PICOS_PER_SEC
        } else if picos >= PICOS_PER_MILLI {
            PICOS_PER_MILLI
        } else if picos >= PICOS_PER_MICRO {
            PICOS_PER_MICRO
        } else if picos >= PICOS_PER_NANO {
            PICOS_PER_NANO
        } else {
            1
        };
        let whole: u128 = picos / unit;
        let place: u128 = if whole >= 1000 {
            0
        } else if whole >= 100 {
            1
        } else if whole >= 10 {
            10
        } else {
            100
        };
        let rest: u128 = picos % unit;
        let steps: u128 = place * 10;
        assert(rest * steps <= 1_000_000_000_000 * 1_000) by (nonlinear_arith)
            requires
                rest <= 1_000_000_000_000,
                steps <= 1_000,
        ;
        let frac: u128 = rest * steps / unit;
        proof {
            if steps > 0 {
                assert(rest * steps < unit * steps) by (nonlinear_arith)
                    requires
                        rest < unit,
                        steps > 0,
                ;
                vstd::arithmetic::div_mod::lemma_multiply_divide_lt(
                    rest * steps,
                    unit as int,
                    steps as int,
                );
            } else {
                assert(rest * steps == 0) by (nonlinear_arith)
                    requires
                        steps == 0,
                ;
            }
        }
        let mut text = String::new();
        push_decimal(&mut text, whole);
        if frac != 0 {
            proof {
                reveal_strlit(".");
            }
            text.append(".");
            push_fraction(&mut text, frac, place);
        }
        proof {
            reveal_strlit("s");
            reveal_strlit("ms");
            reveal_strlit("\u{b5}s");
            reveal_strlit("ns");
            reveal_strlit("ps");
        }
        let suffix = if unit == PICOS_PER_SEC {
            "s"
        } else if unit == PICOS_PER_MILLI {
            "ms"
        } else if unit == PICOS_PER_MICRO {
            "\u{b5}s"
        } else if unit == PICOS_PER_NANO {
            "ns"
        } else {
            "ps"
        };
        text.append(suffix);
        text
    }
}

} // verus!
