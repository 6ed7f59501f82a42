//! Latency samples, kept in an HDR histogram.
//!
//! The histogram groups values that differ by less than its precision into one level, and counts
//! how often each level occurred. Everything it reports is a function of those counts.
use vstd::arithmetic::power::pow;
use vstd::multiset::Multiset;
use vstd::prelude::*;

verus! {

/// An auto-resizing `hdrhistogram::Histogram<u64>`: made by `Histogram::new`, filled by `record`
/// and `add`, and by nothing else.
#[verifier::external_body]
#[derive(Debug)]
pub struct LatencyHistogram {
    inner: hdrhistogram::Histogram<u64>,
}

/// The levels that a histogram has counted, each as often as it was counted. A level stands for
/// all the values that the histogram does not tell apart, and is named by the lowest of them.
pub uninterp spec fn recorded_levels(h: LatencyHistogram) -> Multiset<u64>;

/// The significant decimal digits that a histogram was made with.
pub uninterp spec fn histogram_digits(h: LatencyHistogram) -> u8;

/// What `Histogram::value_at_percentile` returns for a histogram of `digits` significant digits
/// that has counted `levels`.
pub uninterp spec fn value_at_percentile(digits: u8, levels: Multiset<u64>, percent: u32) -> u64;

/// The first of `power`, twice `power`, four times `power` and so on that reaches a bound.
pub open spec fn least_power(bound: int, power: int) -> int
    decreases
            if bound > power {
                bound - power
            } else {
                0
            },
{
    if power <= 0 || power >= bound {
        power
    } else {
        least_power(bound, 2 * power)
    }
}

/// The values below this bound have a level of their own in a histogram of `digits` significant
/// digits: the least power of two that is no less than twice ten to the number of digits.
pub open spec fn unit_resolution(digits: u8) -> int {
    least_power(2 * pow(10, digits as nat), 1)
}

/// The lowest value that is not told apart from a value, where those below `unit` all are: above
/// that, each doubling of the values halves the precision.
pub open spec fn level_from(unit: int, value: int) -> int
    decreases value,
{
    if value < unit || value <= 0 {
        value
    } else {
        2 * level_from(unit, value / 2)
    }
}

/// The highest value that is not told apart from a value, where those below `unit` all are.
pub open spec fn top_from(unit: int, value: int) -> int
    decreases value,
{
    if value < unit || value <= 0 {
        value
    } else {
        2 * top_from(unit, value / 2) + 1
    }
}

/// The level of a value in a histogram of `digits` significant digits, as
/// `Histogram::lowest_equivalent` computes it.
pub open spec fn level_of(digits: u8, value: u64) -> u64 {
    level_from(unit_resolution(digits), value as int) as u64
}

/// The highest value of the level of a value in a histogram of `digits` significant digits, as
/// `Histogram::highest_equivalent` computes it for values in the tracked range.
pub open spec fn level_top(digits: u8, value: u64) -> u64 {
    top_from(unit_resolution(digits), value as int) as u64
}

/// The highest value that an auto-resizing histogram is documented to track.
pub const MAX_TRACKABLE: u64 = 0x3fff_ffff_ffff_ffff;

/// Whether `level` is the highest of the levels counted.
pub open spec fn is_highest_level(levels: Multiset<u64>, level: u64) -> bool {
    levels.contains(level) && forall|l: u64| #[trigger] levels.contains(l) ==> l <= level
}

/// The highest of the levels counted.
pub open spec fn highest_level(levels: Multiset<u64>) -> u64 {
    choose|level: u64| is_highest_level(levels, level)
}

/// How many samples lie at or below a level.
pub open spec fn count_up_to(levels: Multiset<u64>, level: u64) -> nat {
    levels.filter(|l: u64| l <= level).len()
}

/// How many samples lie below a level.
pub open spec fn count_below(levels: Multiset<u64>, level: u64) -> nat {
    levels.filter(|l: u64| l < level).len()
}

/// Whether a level is where a percentile lies: it was counted, at least `percent` of the samples
/// lie at or below it, and at most `percent` of them below it.
pub open spec fn is_percentile(levels: Multiset<u64>, percent: u32, level: u64) -> bool {
    &&& levels.contains(level)
    &&& 100 * count_up_to(levels, level) >= percent * levels.len()
    &&& 100 * count_below(levels, level) <= percent * levels.len()
}

/// `Histogram::new`: an empty histogram that resizes itself, for up to five significant digits;
/// no histogram for more.
#[verifier::external_body]
fn histogram_new(digits: u8) -> (r: Option<LatencyHistogram>)
    ensures
        r is Some <==> digits <= 5,
        r matches Some(h) ==> {
            &&& histogram_digits(h) == digits
            &&& recorded_levels(h) == Multiset::<u64>::empty()
        },
{
    hdrhistogram::Histogram::new(digits).ok().map(|inner| LatencyHistogram { inner })
}

/// `Histogram::record`: counts the level of the value once more. A histogram that resizes itself
/// takes every value in the tracked range. Counts saturate, hence the bound on how many there may
/// be.
#[verifier::external_body]
fn histogram_record(h: &mut LatencyHistogram, value: u64) -> (ok: bool)
    requires
        recorded_levels(*old(h)).len() < u64::MAX,
        value <= MAX_TRACKABLE,
    ensures
        ok,
        histogram_digits(*final(h)) == histogram_digits(*old(h)),
        recorded_levels(*final(h)) == recorded_levels(*old(h)).insert(
            level_of(histogram_digits(*old(h)), value),
        ),
{
    h.inner.record(value).is_ok()
}

/// `Histogram::add`: counts every level of the other histogram as often as that one has. Between
/// histograms of equal precision levels are the same; one that resizes itself takes all of them.
#[verifier::external_body]
fn histogram_add(h: &mut LatencyHistogram, other: &LatencyHistogram) -> (ok: bool)
    requires
        histogram_digits(*old(h)) == histogram_digits(*other),
        recorded_levels(*old(h)).len() + recorded_levels(*other).len() <= u64::MAX,
    ensures
        ok,
        histogram_digits(*final(h)) == histogram_digits(*old(h)),
        recorded_levels(*final(h)) == recorded_levels(*old(h)).add(recorded_levels(*other)),
{
    h.inner.add(&other.inner).is_ok()
}

/// `Histogram::max`: the highest value of the highest level counted, 0 where nothing was.
#[verifier::external_body]
fn histogram_max(h: &LatencyHistogram) -> (r: u64)
    ensures
        r == if recorded_levels(*h).len() == 0 {
            0
        } else {
            level_top(histogram_digits(*h), highest_level(recorded_levels(*h)))
        },
{
    h.inner.max()
}

/// `Histogram::value_at_percentile`: a function of the levels counted. It is 0 where nothing was
/// counted, and otherwise, below the hundredth percentile, a value of a level that was: the
/// highest, unless the percentile is the zeroth. With no more samples than 32 bits can count that
/// level is where the percentile lies; with more, the floating-point arithmetic on the counts may
/// round past it. A lower percentile is never higher, however many samples there are: the count
/// that it has to reach is no higher.
#[verifier::external_body]
fn histogram_value_at_percentile(h: &LatencyHistogram, percent: u32) -> (r: u64)
    ensures
        r == value_at_percentile(histogram_digits(*h), recorded_levels(*h), percent),
        forall|p: u32|
            p <= percent < 100 ==> #[trigger] value_at_percentile(
                histogram_digits(*h),
                recorded_levels(*h),
                p,
            ) <= r,
        recorded_levels(*h).len() == 0 ==> r == 0,
        recorded_levels(*h).len() > 0 && percent < 100 ==> recorded_levels(*h).contains(
            level_of(histogram_digits(*h), r),
        ),
        recorded_levels(*h).len() > 0 && 0 < percent < 100 ==> r == level_top(
            histogram_digits(*h),
            level_of(histogram_digits(*h), r),
        ),
        0 < recorded_levels(*h).len() <= u32::MAX && percent < 100 ==> is_percentile(
            recorded_levels(*h),
            percent,
            level_of(histogram_digits(*h), r),
        ),
{
    h.inner.value_at_percentile(percent.into())
}

proof fn lemma_least_power(bound: int, power: int)
    requires
        power > 0,
    ensures
        least_power(bound, power) >= bound,
        least_power(bound, power) >= power,
        power < bound ==> least_power(bound, power) % 2 == 0,
    decreases
            if bound > power {
                bound - power
            } else {
                0
            },
{
    if power < bound {
        lemma_least_power(bound, 2 * power);
    }
}

proof fn lemma_unit(digits: u8)
    ensures
        unit_resolution(digits) >= 2 * pow(10, digits as nat),
        unit_resolution(digits) >= 2,
        unit_resolution(digits) % 2 == 0,
        pow(10, digits as nat) >= 1,
{
    vstd::arithmetic::power::lemma_pow_positive(10, digits as nat);
    lemma_least_power(2 * pow(10, digits as nat), 1);
}

proof fn lemma_level(unit: int, value: int)
    requires
        unit >= 2,
        unit % 2 == 0,
        value >= 0,
    ensures
        0 <= level_from(unit, value) <= value <= top_from(unit, value),
        value >= unit ==> level_from(unit, value) >= unit,
        level_from(unit, level_from(unit, value)) == level_from(unit, value),
        top_from(unit, level_from(unit, value)) == top_from(unit, value),
        level_from(unit, top_from(unit, value)) == level_from(unit, value),
        value < unit ==> top_from(unit, value) == level_from(unit, value),
        value >= unit ==> (top_from(unit, value) - level_from(unit, value) + 1) * (unit / 2)
            <= level_from(unit, value),
    decreases value,
{
    if value >= unit {
        let half = value / 2;
        lemma_level(unit, half);
        let (l, t, h) = (level_from(unit, half), top_from(unit, half), unit / 2);
        assert((2 * l) / 2 == l);
        assert((2 * t + 1) / 2 == t);
        assert((2 * t + 1 - 2 * l + 1) * h == 2 * ((t - l + 1) * h)) by (nonlinear_arith);
        if half < unit {
            assert((t - l + 1) * h == h) by (nonlinear_arith)
                requires
                    t == l,
            ;
        }
    }
}

proof fn lemma_level_order(unit: int, a: int, b: int)
    requires
        unit >= 2,
        unit % 2 == 0,
        0 <= a <= b,
    ensures
        level_from(unit, a) <= level_from(unit, b),
        top_from(unit, a) <= top_from(unit, b),
    decreases b,
{
    lemma_level(unit, a);
    lemma_level(unit, b);
    if a >= unit {
        lemma_level_order(unit, a / 2, b / 2);
    }
}

proof fn lemma_top_fits(unit: int, value: int, bits: nat)
    requires
        0 <= value < pow(2, bits),
    ensures
        top_from(unit, value) < pow(2, bits),
    decreases bits,
{
    reveal(pow);
    if bits > 0 && !(value < unit || value <= 0) {
        lemma_top_fits(unit, value / 2, (bits - 1) as nat);
    }
}

proof fn lemma_level_of(digits: u8, value: u64)
    ensures
        level_of(digits, value) == level_from(unit_resolution(digits), value as int),
        level_top(digits, value) == top_from(unit_resolution(digits), value as int),
{
    lemma_unit(digits);
    lemma_level(unit_resolution(digits), value as int);
    assert(pow(2, 64) == 0x1_0000_0000_0000_0000) by {
        reveal(pow);
        reveal_with_fuel(pow, 65);
    }
    lemma_top_fits(unit_resolution(digits), value as int, 64);
}

/// A level lies close to its values: it runs from no more than the value to no less, and is no
/// wider than the value divided by ten to the number of digits. Below the unit resolution, which is
/// at least twice ten to that number, it is the value alone.
pub proof fn law_levels_are_close(digits: u8, value: u64)
    ensures
        level_of(digits, value) <= value <= level_top(digits, level_of(digits, value)),
        (level_top(digits, level_of(digits, value)) - level_of(digits, value)) * pow(
            10,
            digits as nat,
        ) <= value,
        value < unit_resolution(digits) ==> level_of(digits, value) == value && level_top(
            digits,
            value,
        ) == value,
        unit_resolution(digits) >= 2 * pow(10, digits as nat),
{
    let unit = unit_resolution(digits);
    lemma_unit(digits);
    lemma_level(unit, value as int);
    lemma_level_of(digits, value);
    let level = level_of(digits, value);
    lemma_level_of(digits, level);
    let (w, p) = (level_top(digits, level) - level, pow(10, digits as nat));
    if value >= unit {
        assert(w * p <= (w + 1) * (unit / 2)) by (nonlinear_arith)
            requires
                w >= 0,
                1 <= p <= unit / 2,
        ;
    } else {
        assert(w * p == 0) by (nonlinear_arith)
            requires
                w == 0,
        ;
    }
}

/// All values of a level have the same level and the same highest value.
pub proof fn law_values_of_a_level(digits: u8, value: u64)
    ensures
        level_of(digits, level_of(digits, value)) == level_of(digits, value),
        level_of(digits, level_top(digits, value)) == level_of(digits, value),
        level_top(digits, level_of(digits, value)) == level_top(digits, value),
{
    lemma_unit(digits);
    lemma_level(unit_resolution(digits), value as int);
    lemma_level_of(digits, value);
    lemma_level_of(digits, level_of(digits, value));
    lemma_level_of(digits, level_top(digits, value));
}

/// Levels keep the order of their values.
pub proof fn law_levels_keep_order(digits: u8, a: u64, b: u64)
    requires
        a <= b,
    ensures
        level_of(digits, a) <= level_of(digits, b),
        level_top(digits, a) <= level_top(digits, b),
{
    lemma_unit(digits);
    lemma_level_order(unit_resolution(digits), a as int, b as int);
    lemma_level_of(digits, a);
    lemma_level_of(digits, b);
}

/// A higher percentile lies no lower.
pub proof fn law_percentiles_keep_order(
    levels: Multiset<u64>,
    percent_a: u32,
    a: u64,
    percent_b: u32,
    b: u64,
)
    requires
        percent_a < percent_b,
        is_percentile(levels, percent_a, a),
        is_percentile(levels, percent_b, b),
    ensures
        a <= b,
{
    if b < a {
        let (up, below) = (
            levels.filter(|l: u64| l <= b),
            levels.filter(|l: u64| l < a),
        );
        assert(up.subset_of(below));
        let n = levels.len();
        assert(below.sub(up).len() == below.len() - up.len());
        assert(0 < levels.count(a) <= n);
        assert(percent_b * n > percent_a * n) by (nonlinear_arith)
            requires
                percent_a < percent_b,
                n > 0,
        ;
    }
}

/// Where anything was counted, one of the levels counted is the highest.
pub proof fn law_highest_level(levels: Multiset<u64>)
    requires
        levels.len() > 0,
    ensures
        is_highest_level(levels, highest_level(levels)),
{
    lemma_some_highest_level(levels);
}

proof fn lemma_some_highest_level(levels: Multiset<u64>)
    requires
        levels.len() > 0,
    ensures
        exists|level: u64| is_highest_level(levels, level),
    decreases levels.len(),
{
    let one = levels.choose();
    let rest = levels.remove(one);
    assert forall|l: u64| #[trigger] levels.contains(l) implies l == one || rest.contains(l) by {}
    if rest.len() == 0 {
        assert(is_highest_level(levels, one));
    } else {
        lemma_some_highest_level(rest);
        let top = choose|level: u64| is_highest_level(rest, level);
        if one <= top {
            assert(levels.contains(top));
            assert(is_highest_level(levels, top));
        } else {
            assert(is_highest_level(levels, one));
        }
    }
}

impl LatencyHistogram {
    /// A histogram without samples, of `digits` significant digits.
    pub fn new(digits: u8) -> (h: LatencyHistogram)
        requires
            digits <= 5,
        ensures
            histogram_digits(h) == digits,
            recorded_levels(h) == Multiset::<u64>::empty(),
    {
        histogram_new(digits).unwrap()
    }

    /// Adds one sample.
    pub fn record(&mut self, value: u64)
        requires
            recorded_levels(*old(self)).len() < u64::MAX,
            value <= MAX_TRACKABLE,
        ensures
            histogram_digits(*final(self)) == histogram_digits(*old(self)),
            recorded_levels(*final(self)) == recorded_levels(*old(self)).insert(
                level_of(histogram_digits(*old(self)), value),
            ),
    {
        let _ = histogram_record(self, value);
    }

    /// Adds every sample of another histogram.
    pub fn merge(&mut self, other: &LatencyHistogram)
        requires
            histogram_digits(*old(self)) == histogram_digits(*other),
            recorded_levels(*old(self)).len() + recorded_levels(*other).len() <= u64::MAX,
        ensures
            histogram_digits(*final(self)) == histogram_digits(*old(self)),
            recorded_levels(*final(self)) == recorded_levels(*old(self)).add(
                recorded_levels(*other),
            ),
    {
        let _ = histogram_add(self, other);
    }

    /// The highest latency seen, up to the precision of the histogram.
    pub fn max(&self) -> (r: u64)
        ensures
            r == if recorded_levels(*self).len() == 0 {
                0
            } else {
                level_top(histogram_digits(*self), highest_level(recorded_levels(*self)))
            },
    {
        histogram_max(self)
    }

    /// The latency that `percent` of the samples do not exceed, up to the precision of the
    /// histogram.
    pub fn percentile(&self, percent: u32) -> (r: u64)
        ensures
            r == value_at_percentile(histogram_digits(*self), recorded_levels(*self), percent),
            forall|p: u32|
                p <= percent < 100 ==> #[trigger] value_at_percentile(
                    histogram_digits(*self),
                    recorded_levels(*self),
                    p,
                ) <= r,
            recorded_levels(*self).len() == 0 ==> r == 0,
            recorded_levels(*self).len() > 0 && percent < 100 ==> recorded_levels(*self).contains(
                level_of(histogram_digits(*self), r),
            ),
            recorded_levels(*self).len() > 0 && 0 < percent < 100 ==> r == level_top(
                histogram_digits(*self),
                level_of(histogram_digits(*self), r),
            ),
            0 < recorded_levels(*self).len() <= u32::MAX && percent < 100 ==> is_percentile(
                recorded_levels(*self),
                percent,
                level_of(histogram_digits(*self), r),
            ),
    {
        histogram_value_at_percentile(self, percent)
    }
}

} // verus!
