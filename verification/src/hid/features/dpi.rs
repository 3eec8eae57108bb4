use vstd::prelude::*;

use vstd::arithmetic::div_mod::{lemma_fundamental_div_mod, lemma_mod_bound, lemma_mod_multiples_basic};
use vstd::arithmetic::mul::{lemma_mul_inequality, lemma_mul_is_commutative};

use crate::hid::hidpp::{
    self, all_zero_bytes, extends, lemma_extends_concat, lemma_extends_refl, lemma_read_then,
    new_calls, one_read, read_only_len, read_only_reply, read_only_step, sends, Call, Error,
    Exchange, Feature, Recorded,
};

use crate::strings::{push_decimal, push_str, spec_decimal, string_from};

verus! {

pub const FEATURE_IDS: [u16; 2] = [0x2201, 0x2202];

pub const MAX_SENSOR_COUNT: u8 = 16;

/// Largest explicit DPI value; words at or above `0xE000` are range markers.
pub const MAX_DPI: u16 = 0xdfff;

#[derive(Debug, PartialEq, Eq)]
pub enum DpiValues {
    List(Vec<u16>),
    Range { minimum: u16, maximum: u16, step: u16 },
}

pub enum DpiValuesView {
    List(Seq<u16>),
    Range { minimum: u16, maximum: u16, step: u16 },
}

impl View for DpiValues {
    type V = DpiValuesView;

    open spec fn view(&self) -> DpiValuesView {
        match self {
            DpiValues::List(values) => DpiValuesView::List(values@),
            DpiValues::Range { minimum, maximum, step } => DpiValuesView::Range {
                minimum: *minimum,
                maximum: *maximum,
                step: *step,
            },
        }
    }
}

impl Clone for DpiValues {
    fn clone(&self) -> (r: Self)
        ensures
            r@ == self@,
    {
        match self {
            DpiValues::List(values) => {
                let mut copy: Vec<u16> = Vec::new();
                let mut i: usize = 0;
                while i < values.len()
                    invariant
                        i <= values@.len(),
                        copy@ == values@.take(i as int),
                    decreases values@.len() - i,
                {
                    copy.push(values[i]);
                    i = i + 1;
                    assert(copy@ =~= values@.take(i as int));
                }
                assert(values@.take(values@.len() as int) =~= values@);
                DpiValues::List(copy)
            },
            DpiValues::Range { minimum, maximum, step } => DpiValues::Range {
                minimum: *minimum,
                maximum: *maximum,
                step: *step,
            },
        }
    }
}

#[derive(Debug, PartialEq, Eq)]
pub struct SensorDpi {
    pub sensor: u8,
    pub current: u16,
    pub default: Option<u16>,
    pub supported: DpiValues,
}

pub struct SensorDpiView {
    pub sensor: u8,
    pub current: u16,
    pub default: Option<u16>,
    pub supported: DpiValuesView,
}

impl View for SensorDpi {
    type V = SensorDpiView;

    open spec fn view(&self) -> SensorDpiView {
        SensorDpiView {
            sensor: self.sensor,
            current: self.current,
            default: self.default,
            supported: self.supported@,
        }
    }
}

impl Clone for SensorDpi {
    fn clone(&self) -> (r: Self)
        ensures
            r@ == self@,
    {
        SensorDpi {
            sensor: self.sensor,
            current: self.current,
            default: self.default,
            supported: self.supported.clone(),
        }
    }
}

#[derive(Debug, Clone, PartialEq, Eq)]
pub enum SetDpiOutcome {
    Verified { current: u16 },
    AcknowledgedMismatch { actual: u16 },
    AcknowledgedUnverified { error: Error },
    TimedOutConfirmed { current: u16 },
    TimedOutDifferent { actual: u16 },
    TimedOutUnverified { error: Error },
}

#[derive(Debug, Clone, PartialEq, Eq)]
pub enum SetDpiError {
    InvalidFeature,
    InvalidSensor,
    Unsupported { requested: u16, nearest: Option<u16> },
    Write(Error),
}

/// A value the device reports as writable: a listed value, or a step of a valid range.
pub open spec fn spec_supports_dpi(values: DpiValuesView, dpi: u16) -> bool {
    match values {
        DpiValuesView::List(list) => list.contains(dpi),
        DpiValuesView::Range { minimum, maximum, step } => {
            &&& step != 0
            &&& minimum <= maximum
            &&& minimum <= dpi <= maximum
            &&& (dpi - minimum) % (step as int) == 0
        },
    }
}

pub fn supports_dpi(values: &DpiValues, dpi: u16) -> (r: bool)
    ensures
        r == spec_supports_dpi(values@, dpi),
{
    match values {
        DpiValues::List(list) => {
            let mut i: usize = 0;
            while i < list.len()
                invariant
                    i <= list@.len(),
                    values@ == DpiValuesView::List(list@),
                    forall|j: int| 0 <= j < i ==> list@[j] != dpi,
                decreases list@.len() - i,
            {
                if list[i] == dpi {
                    assert(list@.contains(dpi)) by {
                        assert(list@[i as int] == dpi);
                    }
                    return true;
                }
                i = i + 1;
            }
            false
        },
        DpiValues::Range { minimum, maximum, step } => {
            *step != 0 && minimum <= maximum && dpi >= *minimum && dpi <= *maximum && (dpi
                - *minimum) % *step == 0
        },
    }
}

pub open spec fn distance(a: u16, b: u16) -> int {
    if a >= b {
        a - b
    } else {
        b - a
    }
}

/// `v` is at least as close to `requested` as `w`; on equal distance the higher value wins.
pub open spec fn no_farther(v: u16, w: u16, requested: u16) -> bool {
    distance(v, requested) < distance(w, requested) || (distance(v, requested) == distance(
        w,
        requested,
    ) && v >= w)
}

pub open spec fn is_nearest(values: DpiValuesView, requested: u16, v: u16) -> bool {
    &&& spec_supports_dpi(values, v)
    &&& forall|w: u16| #[trigger] spec_supports_dpi(values, w) ==> no_farther(v, w, requested)
}

/// The supported value nearest to `requested`, ties resolved upward; `None` when nothing is
/// supported.
pub open spec fn spec_nearest(values: DpiValuesView, requested: u16) -> Option<u16> {
    if exists|v: u16| is_nearest(values, requested, v) {
        Some(choose|v: u16| is_nearest(values, requested, v))
    } else {
        None
    }
}

/// No value is supported: an empty list, or a range without a step or with crossed bounds.
pub open spec fn supports_nothing(values: DpiValuesView) -> bool {
    match values {
        DpiValuesView::List(list) => list.len() == 0,
        DpiValuesView::Range { minimum, maximum, step } => step == 0 || minimum > maximum,
    }
}

pub proof fn lemma_nearest_unique(values: DpiValuesView, requested: u16, a: u16, b: u16)
    requires
        is_nearest(values, requested, a),
        is_nearest(values, requested, b),
    ensures
        a == b,
{
    assert(spec_supports_dpi(values, a));
    assert(spec_supports_dpi(values, b));
}

pub proof fn lemma_nearest_is_spec(values: DpiValuesView, requested: u16, v: u16)
    requires
        is_nearest(values, requested, v),
    ensures
        spec_nearest(values, requested) == Some(v),
{
    let c = choose|c: u16| is_nearest(values, requested, c);
    lemma_nearest_unique(values, requested, v, c);
}

/// Division facts about the grid `minimum + j * step`.
proof fn lemma_grid(minimum: int, step: int, x: int)
    requires
        step > 0,
        x >= minimum,
    ensures
        (x - minimum) / step >= 0,
        minimum + ((x - minimum) / step) * step <= x,
        x < minimum + ((x - minimum) / step + 1) * step,
        (((x - minimum) / step) * step) % step == 0,
        (x - minimum) % step == 0 ==> x == minimum + ((x - minimum) / step) * step,
{
    let q = (x - minimum) / step;
    lemma_fundamental_div_mod(x - minimum, step);
    lemma_mod_bound(x - minimum, step);
    lemma_mul_is_commutative(step, q);
    lemma_mod_multiples_basic(q, step);
    assert(q >= 0) by (nonlinear_arith)
        requires
            x - minimum == step * q + (x - minimum) % step,
            0 <= (x - minimum) % step < step,
            x - minimum >= 0,
    ;
    assert((q + 1) * step == q * step + step) by (nonlinear_arith);
}

/// A grid point lies at or below the `k`-th point or at or above the next one.
proof fn lemma_grid_sides(minimum: int, step: int, k: int, w: int)
    requires
        step > 0,
        w >= minimum,
        (w - minimum) % step == 0,
    ensures
        w <= minimum + k * step || w >= minimum + (k + 1) * step,
{
    lemma_grid(minimum, step, w);
    let j = (w - minimum) / step;
    if j <= k {
        lemma_mul_inequality(j, k, step);
    } else {
        lemma_mul_inequality(k + 1, j, step);
    }
}

/// The highest value a range supports: the last step at or below its maximum.
pub open spec fn range_top(minimum: u16, maximum: u16, step: u16) -> int {
    minimum + ((maximum - minimum) / (step as int)) * step
}

/// Every value of a valid range lies between its minimum and its last step, and both are
/// supported.
pub proof fn lemma_range_bounds(minimum: u16, maximum: u16, step: u16)
    requires
        step > 0,
        minimum <= maximum,
    ensures
        minimum <= range_top(minimum, maximum, step) <= maximum,
        spec_supports_dpi(DpiValuesView::Range { minimum, maximum, step }, minimum),
        spec_supports_dpi(
            DpiValuesView::Range { minimum, maximum, step },
            range_top(minimum, maximum, step) as u16,
        ),
        forall|w: u16|
            #[trigger] spec_supports_dpi(DpiValuesView::Range { minimum, maximum, step }, w) ==> minimum
                <= w <= range_top(minimum, maximum, step),
{
    let m = minimum as int;
    let s = step as int;
    lemma_grid(m, s, maximum as int);
    lemma_mod_multiples_basic(0, s);
    assert(0 * s == 0);
    let last = range_top(minimum, maximum, step);
    assert((last - m) % s == 0);
    assert forall|w: u16|
        #[trigger] spec_supports_dpi(DpiValuesView::Range { minimum, maximum, step }, w) implies minimum
            <= w <= last by {
        lemma_grid_sides(m, s, (maximum as int - m) / s, w as int);
    }
}

/// A valid range has a nearest value for every request.
pub proof fn lemma_range_nearest_exists(minimum: u16, maximum: u16, step: u16, requested: u16)
    requires
        step > 0,
        minimum <= maximum,
    ensures
        spec_nearest(DpiValuesView::Range { minimum, maximum, step }, requested) is Some,
{
    let values = DpiValuesView::Range { minimum, maximum, step };
    let m = minimum as int;
    let s = step as int;
    lemma_range_bounds(minimum, maximum, step);
    let last = range_top(minimum, maximum, step);
    if requested <= minimum {
        assert(is_nearest(values, requested, minimum));
        lemma_nearest_is_spec(values, requested, minimum);
    } else if requested >= last {
        assert(is_nearest(values, requested, last as u16));
        lemma_nearest_is_spec(values, requested, last as u16);
    } else {
        let offset = requested - m;
        lemma_grid(m, s, requested as int);
        lemma_grid(m, s, last);
        let k = offset / s;
        let q = (maximum as int - m) / s;
        if k >= q {
            lemma_mul_inequality(q, k, s);
        }
        lemma_mul_inequality(k + 1, q, s);
        lemma_mod_multiples_basic(k + 1, s);
        assert((k + 1) * s == k * s + s) by (nonlinear_arith);
        let lower = m + k * s;
        let upper = lower + s;
        assert(spec_supports_dpi(values, lower as u16));
        assert(spec_supports_dpi(values, upper as u16));
        assert forall|w: u16| #[trigger] spec_supports_dpi(values, w) implies w <= lower || w >= upper by {
            lemma_grid_sides(m, s, k, w as int);
        }
        let result: u16 = if requested - lower < upper - requested {
            lower as u16
        } else {
            upper as u16
        };
        assert(is_nearest(values, requested, result));
        lemma_nearest_is_spec(values, requested, result);
    }
}

/// The nearest value never decreases as the request grows.
pub proof fn lemma_nearest_monotone(values: DpiValuesView, low: u16, high: u16, a: u16, b: u16)
    requires
        low <= high,
        is_nearest(values, low, a),
        is_nearest(values, high, b),
    ensures
        a <= b,
{
    assert(spec_supports_dpi(values, a));
    assert(spec_supports_dpi(values, b));
    assert(no_farther(a, b, low));
    assert(no_farther(b, a, high));
}

/// The value `spec_nearest` picks is a nearest one.
pub proof fn lemma_nearest_choice(values: DpiValuesView, requested: u16)
    requires
        spec_nearest(values, requested) is Some,
    ensures
        is_nearest(values, requested, spec_nearest(values, requested)->0),
{
}

fn abs_diff(a: u16, b: u16) -> (r: u16)
    ensures
        r == distance(a, b),
{
    if a >= b {
        a - b
    } else {
        b - a
    }
}

/// Returns the closest value the device reports as writable. Equal-distance
/// ties select the higher DPI so the result is deterministic.
pub fn nearest_supported_dpi(values: &DpiValues, requested: u16) -> (r: Option<u16>)
    ensures
        r == spec_nearest(values@, requested),
        r is None <==> supports_nothing(values@),
        r matches Some(v) ==> is_nearest(values@, requested, v),
{
    match values {
        DpiValues::List(list) => {
            let mut best: Option<u16> = None;
            let mut i: usize = 0;
            while i < list.len()
                invariant
                    i <= list@.len(),
                    best is None <==> i == 0,
                    best matches Some(b) ==> (exists|j: int| 0 <= j < i && list@[j] == b) && (
                    forall|j: int| 0 <= j < i ==> no_farther(b, #[trigger] list@[j], requested)),
                decreases list@.len() - i,
            {
                let v = list[i];
                match best {
                    None => {
                        best = Some(v);
                    },
                    Some(b) => {
                        let dv = abs_diff(v, requested);
                        let db = abs_diff(b, requested);
                        if dv < db || (dv == db && v > b) {
                            best = Some(v);
                        }
                    },
                }
                i = i + 1;
            }
            match best {
                None => {
                    assert(!exists|v: u16| is_nearest(values@, requested, v)) by {
                        assert forall|v: u16| !is_nearest(values@, requested, v) by {
                            if list@.contains(v) {
                                let j = choose|j: int| 0 <= j < list@.len() && list@[j] == v;
                            }
                        }
                    }
                },
                Some(b) => {
                    assert forall|w: u16| #[trigger] spec_supports_dpi(values@, w) implies no_farther(
                        b,
                        w,
                        requested,
                    ) by {
                        let j = choose|j: int| 0 <= j < list@.len() && list@[j] == w;
                        assert(no_farther(b, list@[j], requested));
                    }
                    assert(list@.contains(b));
                    proof {
                        lemma_nearest_is_spec(values@, requested, b);
                    }
                },
            }
            best
        },
        DpiValues::Range { minimum, maximum, step } => {
            let minimum = *minimum;
            let maximum = *maximum;
            let step = *step;
            if step == 0 || minimum > maximum {
                assert forall|v: u16| !is_nearest(values@, requested, v) by {}
                return None;
            }
            let ghost m = minimum as int;
            let ghost s = step as int;
            proof {
                lemma_grid(m, s, maximum as int);
            }
            let last = minimum + ((maximum - minimum) / step) * step;
            assert(spec_supports_dpi(values@, last));
            assert forall|w: u16| #[trigger] spec_supports_dpi(values@, w) implies minimum <= w
                <= last by {
                lemma_grid_sides(m, s, (maximum as int - m) / s, w as int);
            }
            let result = if requested <= minimum {
                assert(spec_supports_dpi(values@, minimum)) by {
                    lemma_mod_multiples_basic(0, s);
                    assert(0 * s == 0);
                    assert((minimum - minimum) as int % s == 0);
                }
                minimum
            } else if requested >= last {
                last
            } else {
                let offset = requested - minimum;
                proof {
                    lemma_grid(m, s, requested as int);
                    lemma_grid(m, s, last as int);
                    let k = (offset / step) as int;
                    let q = (maximum as int - m) / s;
                    if k >= q {
                        lemma_mul_inequality(q, k, s);
                    }
                    lemma_mul_inequality(k + 1, q, s);
                    lemma_mod_multiples_basic(k + 1, s);
                    assert((k + 1) * s == k * s + s) by (nonlinear_arith);
                }
                let lower = minimum + (offset / step) * step;
                let upper = lower + step;
                assert(spec_supports_dpi(values@, lower));
                assert(spec_supports_dpi(values@, upper));
                assert forall|w: u16| #[trigger] spec_supports_dpi(values@, w) implies w <= lower
                    || w >= upper by {
                    lemma_grid_sides(m, s, (offset / step) as int, w as int);
                    assert(((offset / step) as int + 1) * s == (offset / step) as int * s + s)
                        by (nonlinear_arith);
                }
                if requested - lower < upper - requested {
                    lower
                } else {
                    upper
                }
            };
            assert(is_nearest(values@, requested, result));
            proof {
                lemma_nearest_is_spec(values@, requested, result);
            }
            Some(result)
        },
    }
}


pub open spec fn spec_parse_sensor_count(data: Seq<u8>) -> Result<u8, Error> {
    if data.len() == 0 {
        Err(Error::Malformed("truncated DPI sensor count"))
    } else if data[0] == 0 || data[0] > MAX_SENSOR_COUNT {
        Err(Error::Malformed("invalid DPI sensor count"))
    } else {
        Ok(data[0])
    }
}

pub fn parse_sensor_count(data: &[u8]) -> (r: Result<u8, Error>)
    ensures
        r == spec_parse_sensor_count(data@),
{
    if data.len() == 0 {
        return Err(Error::Malformed("truncated DPI sensor count"));
    }
    let count = data[0];
    if count == 0 || count > MAX_SENSOR_COUNT {
        return Err(Error::Malformed("invalid DPI sensor count"));
    }
    Ok(count)
}

/// A big-endian 16-bit word.
pub open spec fn be16(high: u8, low: u8) -> u16 {
    (high as int * 256 + low as int) as u16
}

/// The complete big-endian words of a DPI list reply after its sensor byte.
pub open spec fn dpi_words(data: Seq<u8>) -> Seq<u16> {
    Seq::new(((data.len() - 1) / 2) as nat, |i: int| be16(data[1 + 2 * i], data[2 + 2 * i]))
}

/// Index of the first zero word at or after `i`, or the number of words.
pub open spec fn first_zero_from(words: Seq<u16>, i: int) -> int
    decreases words.len() - i,
{
    if i >= words.len() {
        words.len() as int
    } else if words[i] == 0 {
        i
    } else {
        first_zero_from(words, i + 1)
    }
}

pub open spec fn strictly_increasing(values: Seq<u16>) -> bool {
    forall|i: int, j: int| 0 <= i < j < values.len() ==> values[i] < values[j]
}

pub open spec fn no_range_marker(values: Seq<u16>) -> bool {
    forall|i: int| 0 <= i < values.len() ==> #[trigger] values[i] <= MAX_DPI
}

/// `getSensorDpiList`: a sensor index, then big-endian words ending at a zero word. A zero
/// terminator must be followed only by zero bytes; a full seven-word reply needs none.
/// Words `1..=0xDFFF` form a strictly increasing discrete list; a range is exactly
/// `minimum, 0xE000 | step, maximum` with a nonzero step and increasing bounds.
pub open spec fn spec_parse_dpi_values(sensor: u8, data: Seq<u8>) -> Result<DpiValuesView, Error> {
    if data.len() < 3 {
        Err(Error::Malformed("truncated DPI list response"))
    } else if data[0] != sensor {
        Err(Error::Malformed("DPI sensor index mismatch"))
    } else {
        let words = dpi_words(data);
        let count = first_zero_from(words, 0);
        let terminated = count < words.len();
        let entries = words.take(count);
        let offset = if terminated {
            1 + 2 * (count + 1)
        } else {
            1 + 2 * count
        };
        if terminated && !all_zero_bytes(data.subrange(offset, data.len() as int)) {
            Err(Error::Malformed("nonzero data after DPI terminator"))
        } else if !terminated && (entries.len() != 7 || (offset < data.len() && data[offset]
            != 0)) {
            Err(Error::Malformed("unterminated DPI list"))
        } else if entries.len() == 0 {
            Err(Error::Malformed("empty DPI list"))
        } else if no_range_marker(entries) {
            if strictly_increasing(entries) {
                Ok(DpiValuesView::List(entries))
            } else {
                Err(Error::Malformed("invalid discrete DPI list"))
            }
        } else if !(entries.len() == 3 && entries[0] <= MAX_DPI && entries[1] > MAX_DPI
            && entries[2] <= MAX_DPI) {
            Err(Error::Malformed("unexpected DPI range sentinel"))
        } else {
            let minimum = entries[0];
            let maximum = entries[2];
            let step = (entries[1] & 0x1fff) as u16;
            if minimum == 0 || minimum >= maximum || step == 0 {
                Err(Error::Malformed("invalid DPI range"))
            } else {
                Ok(DpiValuesView::Range { minimum, maximum, step })
            }
        }
    }
}

pub open spec fn dpi_values_result_view(r: Result<DpiValues, Error>) -> Result<DpiValuesView, Error> {
    match r {
        Ok(v) => Ok(v@),
        Err(e) => Err(e),
    }
}

proof fn lemma_first_zero_skip(words: Seq<u16>, i: int)
    requires
        0 <= i <= words.len(),
        forall|j: int| 0 <= j < i ==> words[j] != 0,
    ensures
        first_zero_from(words, 0) == first_zero_from(words, i),
    decreases i,
{
    if i > 0 {
        lemma_first_zero_skip(words, i - 1);
    }
}

#[verifier::loop_isolation(false)]
#[verifier::rlimit(30)]
pub fn parse_dpi_values(sensor: u8, data: &[u8]) -> (r: Result<DpiValues, Error>)
    ensures
        dpi_values_result_view(r) == spec_parse_dpi_values(sensor, data@),
{
    if data.len() < 3 {
        return Err(Error::Malformed("truncated DPI list response"));
    }
    if data[0] != sensor {
        return Err(Error::Malformed("DPI sensor index mismatch"));
    }
    let ghost words = dpi_words(data@);
    let mut entries: Vec<u16> = Vec::new();
    let mut offset: usize = 1;
    let mut terminated = false;
    while offset < data.len() - 1 && !terminated
        invariant
            3 <= data@.len(),
            words == dpi_words(data@),
            entries@ == words.take(entries@.len() as int),
            entries@.len() <= words.len(),
            offset <= data@.len(),
            forall|j: int| 0 <= j < entries@.len() ==> words[j] != 0,
            !terminated ==> offset == 1 + 2 * entries@.len(),
            terminated ==> offset == 1 + 2 * (entries@.len() + 1) && entries@.len() < words.len()
                && words[entries@.len() as int] == 0,
        decreases data@.len() - offset,
    {
        let value = (data[offset] as u16) * 256 + data[offset + 1] as u16;
        assert(value == words[entries@.len() as int]);
        offset = offset + 2;
        if value == 0 {
            terminated = true;
        } else {
            entries.push(value);
            assert(entries@ =~= words.take(entries@.len() as int));
        }
    }
    proof {
        lemma_first_zero_skip(words, entries@.len() as int);
        if !terminated {
            assert(entries@.len() == words.len());
        }
    }
    assert(first_zero_from(words, 0) == entries@.len());
    assert(terminated == (entries@.len() < words.len()));
    if terminated {
        let mut i = offset;
        while i < data.len()
            invariant
                offset <= i <= data@.len(),
                all_zero_bytes(data@.subrange(offset as int, i as int)),
            decreases data@.len() - i,
        {
            if data[i] != 0 {
                assert(data@.subrange(offset as int, data@.len() as int)[i - offset] == data@[i as int]);
                return Err(Error::Malformed("nonzero data after DPI terminator"));
            }
            assert(all_zero_bytes(data@.subrange(offset as int, i + 1))) by {
                assert forall|j: int| 0 <= j < i + 1 - offset implies #[trigger] data@.subrange(
                    offset as int,
                    i + 1,
                )[j] == 0 by {
                    if j < i - offset {
                        assert(data@.subrange(offset as int, i + 1)[j] == data@.subrange(
                            offset as int,
                            i as int,
                        )[j]);
                    }
                }
            }
            i = i + 1;
        }
        assert(data@.subrange(offset as int, i as int) =~= data@.subrange(offset as int, data@.len() as int));
    }
    if !terminated && (entries.len() != 7 || (offset < data.len() && data[offset] != 0)) {
        return Err(Error::Malformed("unterminated DPI list"));
    }
    if entries.len() == 0 {
        return Err(Error::Malformed("empty DPI list"));
    }
    let mut marker_found = false;
    let mut i: usize = 0;
    while i < entries.len()
        invariant
            i <= entries@.len(),
            marker_found == !no_range_marker(entries@.take(i as int)),
        decreases entries@.len() - i,
    {
        if entries[i] > MAX_DPI {
            marker_found = true;
        }
        i = i + 1;
        assert(entries@.take(i as int).drop_last() =~= entries@.take(i - 1));
        proof {
        if !marker_found {
            assert forall|j: int| 0 <= j < i implies #[trigger] entries@.take(i as int)[j] <= MAX_DPI by {
                if j < i - 1 {
                    assert(entries@.take(i as int)[j] == entries@.take(i - 1)[j]);
                }
            }
        } else {
            if entries@[i - 1] > MAX_DPI {
                assert(entries@.take(i as int)[i - 1] > MAX_DPI);
            } else {
                let k = choose|k: int| 0 <= k < i - 1 && !(#[trigger] entries@.take(i - 1)[k] <= MAX_DPI);
                assert(entries@.take(i as int)[k] == entries@.take(i - 1)[k]);
            }
        }
        }
    }
    assert(entries@.take(entries@.len() as int) =~= entries@);
    if !marker_found {
        let mut j: usize = 1;
        while j < entries.len()
            invariant
                1 <= j <= entries@.len(),
                strictly_increasing(entries@.take(j as int)),
            decreases entries@.len() - j,
        {
            if entries[j - 1] >= entries[j] {
                assert(!strictly_increasing(entries@)) by {
                    assert(!(entries@[j - 1] < entries@[j as int]));
                }
                return Err(Error::Malformed("invalid discrete DPI list"));
            }
            assert forall|a: int, b: int| 0 <= a < b < j + 1 implies #[trigger] entries@.take(j + 1)[a]
                < #[trigger] entries@.take(j + 1)[b] by {
                assert(entries@.take(j + 1)[a] == entries@[a]);
                assert(entries@.take(j + 1)[b] == entries@[b]);
                if b < j {
                    assert(entries@.take(j as int)[a] == entries@[a]);
                    assert(entries@.take(j as int)[b] == entries@[b]);
                } else if a < j - 1 {
                    assert(entries@.take(j as int)[a] == entries@[a]);
                    assert(entries@.take(j as int)[j - 1] == entries@[j - 1]);
                }
            }
            j = j + 1;
        }
        assert(entries@.take(entries@.len() as int) =~= entries@);
        return Ok(DpiValues::List(entries));
    }
    if !(entries.len() == 3 && entries[0] <= MAX_DPI && entries[1] > MAX_DPI && entries[2]
        <= MAX_DPI) {
        return Err(Error::Malformed("unexpected DPI range sentinel"));
    }
    let minimum = entries[0];
    let maximum = entries[2];
    let step = entries[1] & 0x1fff;
    if minimum == 0 || minimum >= maximum || step == 0 {
        return Err(Error::Malformed("invalid DPI range"));
    }
    Ok(DpiValues::Range { minimum, maximum, step })
}

/// `getSensorDpi`: sensor index, current DPI, default DPI (zero when unavailable).
pub open spec fn spec_parse_sensor_dpi(sensor: u8, supported: DpiValuesView, data: Seq<u8>) -> Result<
    SensorDpiView,
    Error,
> {
    if data.len() < 5 {
        Err(Error::Malformed("truncated current DPI response"))
    } else if data[0] != sensor {
        Err(Error::Malformed("DPI sensor index mismatch"))
    } else {
        let current = be16(data[1], data[2]);
        let default_raw = be16(data[3], data[4]);
        if current == 0 || current > MAX_DPI {
            Err(Error::Malformed("invalid current DPI"))
        } else if default_raw > MAX_DPI {
            Err(Error::Malformed("invalid default DPI"))
        } else {
            Ok(
                SensorDpiView {
                    sensor,
                    current,
                    default: if default_raw == 0 {
                        None
                    } else {
                        Some(default_raw)
                    },
                    supported,
                },
            )
        }
    }
}

pub open spec fn sensor_result_view(r: Result<SensorDpi, Error>) -> Result<SensorDpiView, Error> {
    match r {
        Ok(v) => Ok(v@),
        Err(e) => Err(e),
    }
}

pub fn parse_sensor_dpi(sensor: u8, supported: DpiValues, data: &[u8]) -> (r: Result<
    SensorDpi,
    Error,
>)
    ensures
        sensor_result_view(r) == spec_parse_sensor_dpi(sensor, supported@, data@),
{
    if data.len() < 5 {
        return Err(Error::Malformed("truncated current DPI response"));
    }
    if data[0] != sensor {
        return Err(Error::Malformed("DPI sensor index mismatch"));
    }
    let current = (data[1] as u16) * 256 + data[2] as u16;
    let default_raw = (data[3] as u16) * 256 + data[4] as u16;
    if current == 0 || current > MAX_DPI {
        return Err(Error::Malformed("invalid current DPI"));
    }
    let default = if default_raw == 0 {
        None
    } else if default_raw > MAX_DPI {
        return Err(Error::Malformed("invalid default DPI"));
    } else {
        Some(default_raw)
    };
    Ok(SensorDpi { sensor, current, default, supported })
}


/// Parameters of `setSensorDpi`: sensor index and the DPI, big-endian.
pub open spec fn set_request(sensor: u8, dpi: u16) -> Seq<u8> {
    seq![sensor, (dpi / 256) as u8, (dpi % 256) as u8]
}

/// Checks made before any request: the feature, the sensor index, and an exact supported value.
pub open spec fn spec_set_precheck(
    feature: Feature,
    sensor_count: u8,
    sensor: SensorDpiView,
    requested: u16,
) -> Option<SetDpiError> {
    if feature.id != 0x2201 {
        Some(SetDpiError::InvalidFeature)
    } else if sensor_count == 0 || sensor.sensor >= sensor_count {
        Some(SetDpiError::InvalidSensor)
    } else if !spec_supports_dpi(sensor.supported, requested) {
        Some(SetDpiError::Unsupported { requested, nearest: spec_nearest(sensor.supported, requested) })
    } else {
        None
    }
}

/// A setter reply acknowledges the request: version 0 echoes nothing; later versions
/// must echo the sensor index and big-endian DPI.
pub open spec fn acknowledges(version: u8, reply: Seq<u8>, request: Seq<u8>) -> bool {
    version == 0 || (reply.len() >= 3 && reply.take(3) == request)
}

pub const READBACK_OPERATION: &'static str = "0x2201 DPI write read-back (fn2)";

/// The readback at the head of `log`, parsed against the sensor's supported values.
pub open spec fn readback_result(log: Seq<Call>, sensor: u8, supported: DpiValuesView) -> Result<
    SensorDpiView,
    Error,
> {
    match read_only_reply(log) {
        Err(e) => Err(Error::Read { operation: READBACK_OPERATION, source: Box::new(e) }),
        Ok(data) => spec_parse_sensor_dpi(sensor, supported, data),
    }
}

/// How a write is classified from its acknowledgement state and the independent readback.
pub open spec fn spec_outcome(
    acknowledged: bool,
    readback: Result<SensorDpiView, Error>,
    requested: u16,
) -> SetDpiOutcome {
    match readback {
        Ok(current) => if acknowledged {
            if current.current == requested {
                SetDpiOutcome::Verified { current: current.current }
            } else {
                SetDpiOutcome::AcknowledgedMismatch { actual: current.current }
            }
        } else {
            if current.current == requested {
                SetDpiOutcome::TimedOutConfirmed { current: current.current }
            } else {
                SetDpiOutcome::TimedOutDifferent { actual: current.current }
            }
        },
        Err(error) => if acknowledged {
            SetDpiOutcome::AcknowledgedUnverified { error }
        } else {
            SetDpiOutcome::TimedOutUnverified { error }
        },
    }
}

/// The whole exchange of `set_and_verify`: nothing is sent when a precheck fails; otherwise
/// one `setSensorDpi` (fn3) request, then — only after an acknowledgement or a Timeout — one
/// read-only `getSensorDpi` (fn2) readback.
pub open spec fn spec_set_and_verify(
    log: Seq<Call>,
    device: u8,
    feature: Feature,
    sensor_count: u8,
    sensor: SensorDpiView,
    requested: u16,
    r: Result<SetDpiOutcome, SetDpiError>,
) -> bool {
    match spec_set_precheck(feature, sensor_count, sensor, requested) {
        Some(error) => log.len() == 0 && r == Err::<SetDpiOutcome, SetDpiError>(error),
        None => {
            let request = set_request(sensor.sensor, requested);
            let rest = log.skip(1);
            &&& log.len() >= 1
            &&& sends(log[0], device, feature.index, 3, request)
            &&& match log[0].reply {
                Ok(reply) => if acknowledges(feature.version, reply, request) {
                    &&& one_read(rest, device, feature.index, 2, seq![sensor.sensor])
                    &&& r == Ok::<SetDpiOutcome, SetDpiError>(
                        spec_outcome(
                            true,
                            readback_result(rest, sensor.sensor, sensor.supported),
                            requested,
                        ),
                    )
                } else {
                    log.len() == 1 && r == Err::<SetDpiOutcome, SetDpiError>(
                        SetDpiError::Write(Error::Malformed("DPI setter acknowledgement mismatch")),
                    )
                },
                Err(error) => if error == Error::Timeout {
                    &&& one_read(rest, device, feature.index, 2, seq![sensor.sensor])
                    &&& r == Ok::<SetDpiOutcome, SetDpiError>(
                        spec_outcome(
                            false,
                            readback_result(rest, sensor.sensor, sensor.supported),
                            requested,
                        ),
                    )
                } else {
                    log.len() == 1 && r == Err::<SetDpiOutcome, SetDpiError>(
                        SetDpiError::Write(error),
                    )
                },
            }
        },
    }
}

fn read_current<E: Exchange>(
    transport: &mut Recorded<E>,
    device: u8,
    feature: Feature,
    sensor: u8,
    supported: DpiValues,
) -> (r: Result<SensorDpi, Error>)
    ensures
        extends(old(transport).calls(), final(transport).calls()),
        one_read(new_calls(old(transport).calls(), final(transport).calls()), device, feature.index, 2, seq![sensor]),
        sensor_result_view(r) == readback_result(
            new_calls(old(transport).calls(), final(transport).calls()),
            sensor,
            supported@,
        ),
{
    let parameters: [u8; 1] = [sensor];
    assert(parameters@ =~= seq![sensor]);
    let response = match hidpp::read_only_exchange(transport, device, feature.index, 2, &parameters) {
        Ok(data) => data,
        Err(error) => return Err(error.in_read(READBACK_OPERATION)),
    };
    parse_sensor_dpi(sensor, supported, response.as_slice())
}

/// Sends exactly one setSensorDpi request, then verifies it with an independent
/// read-only fn2 request. A write timeout is ambiguous and is never retried.
#[verifier::rlimit(30)]
pub fn set_and_verify<E: Exchange>(
    transport: &mut Recorded<E>,
    device: u8,
    feature: Feature,
    sensor_count: u8,
    sensor: &SensorDpi,
    requested: u16,
) -> (r: Result<SetDpiOutcome, SetDpiError>)
    ensures
        extends(old(transport).calls(), final(transport).calls()),
        spec_set_and_verify(
            new_calls(old(transport).calls(), final(transport).calls()),
            device,
            feature,
            sensor_count,
            sensor@,
            requested,
            r,
        ),
        forall|i: int|
            0 <= i < new_calls(old(transport).calls(), final(transport).calls()).len() && (
            #[trigger] new_calls(old(transport).calls(), final(transport).calls())[i]).function
                == 3 ==> i == 0,
{
    let ghost before = transport.calls();
    proof {
        hidpp::lemma_extends_refl(before);
    }
    if feature.id != 0x2201 {
        return Err(SetDpiError::InvalidFeature);
    }
    if sensor_count == 0 || sensor.sensor >= sensor_count {
        return Err(SetDpiError::InvalidSensor);
    }
    if !supports_dpi(&sensor.supported, requested) {
        return Err(
            SetDpiError::Unsupported {
                requested,
                nearest: nearest_supported_dpi(&sensor.supported, requested),
            },
        );
    }
    let high = (requested / 256) as u8;
    let low = (requested % 256) as u8;
    let request: [u8; 3] = [sensor.sensor, high, low];
    assert(request@ =~= set_request(sensor.sensor, requested));
    let write = transport.exchange(device, feature.index, 3, &request);
    let ghost middle = transport.calls();
    assert(new_calls(before, middle) =~= seq![middle.last()]);
    assert(middle.take(before.len() as int) =~= before);
    let acknowledged = match write {
        Ok(response) => {
            if feature.version > 0 && !(response.len() >= 3 && response[0] == sensor.sensor
                && response[1] == high && response[2] == low) {
                assert(!acknowledges(feature.version, response@, request@)) by {
                    if response@.len() >= 3 && response@.take(3) == request@ {
                        assert(response@.take(3)[0] == response@[0]);
                        assert(response@.take(3)[1] == response@[1]);
                        assert(response@.take(3)[2] == response@[2]);
                    }
                }
                return Err(
                    SetDpiError::Write(Error::Malformed("DPI setter acknowledgement mismatch")),
                );
            }
            assert(acknowledges(feature.version, response@, request@)) by {
                if feature.version > 0 {
                    assert(response@.take(3) =~= request@);
                }
            }
            true
        },
        Err(error) => match error {
            Error::Timeout => false,
            other => return Err(SetDpiError::Write(other)),
        },
    };
    let readback = read_current(transport, device, feature, sensor.sensor, sensor.supported.clone());
    proof {
        lemma_extends_concat(before, middle, transport.calls());
        let log = new_calls(before, transport.calls());
        assert(log.skip(1) =~= new_calls(middle, transport.calls()));
        assert forall|i: int| 0 <= i < log.len() && (#[trigger] log[i]).function == 3 implies i
            == 0 by {
            if i >= 1 {
                assert(log[i] == log.skip(1)[i - 1]);
            }
        }
    }
    match readback {
        Ok(current) => {
            if acknowledged && current.current == requested {
                Ok(SetDpiOutcome::Verified { current: current.current })
            } else if acknowledged {
                Ok(SetDpiOutcome::AcknowledgedMismatch { actual: current.current })
            } else if current.current == requested {
                Ok(SetDpiOutcome::TimedOutConfirmed { current: current.current })
            } else {
                Ok(SetDpiOutcome::TimedOutDifferent { actual: current.current })
            }
        },
        Err(error) => {
            if acknowledged {
                Ok(SetDpiOutcome::AcknowledgedUnverified { error })
            } else {
                Ok(SetDpiOutcome::TimedOutUnverified { error })
            }
        },
    }
}

pub open spec fn sensors_view(sensors: Seq<SensorDpi>) -> Seq<SensorDpiView> {
    sensors.map_values(|s: SensorDpi| s@)
}

/// The reads for sensors `sensor..count`: for each, a read-only `getSensorDpiList` (fn1) and,
/// when it parses, a read-only `getSensorDpi` (fn2); the first failure ends the sequence.
pub open spec fn spec_sensors_from(
    log: Seq<Call>,
    device: u8,
    index: u8,
    sensor: int,
    count: int,
    r: Result<Seq<SensorDpiView>, Error>,
) -> bool
    decreases count - sensor,
{
    if sensor < 0 || sensor >= count {
        log.len() == 0 && r == Ok::<Seq<SensorDpiView>, Error>(Seq::empty())
    } else {
        let parameters = seq![sensor as u8];
        let n1 = read_only_len(log);
        let rest = log.skip(n1);
        &&& read_only_step(log, device, index, 1, parameters)
        &&& match read_only_reply(log) {
            Err(e) => log.len() == n1 && r == Err::<Seq<SensorDpiView>, Error>(
                Error::Read { operation: "0x2201 supported DPI (fn1)", source: Box::new(e) },
            ),
            Ok(list) => match spec_parse_dpi_values(sensor as u8, list) {
                Err(e) => log.len() == n1 && r == Err::<Seq<SensorDpiView>, Error>(e),
                Ok(supported) => {
                    let n2 = read_only_len(rest);
                    &&& read_only_step(rest, device, index, 2, parameters)
                    &&& match read_only_reply(rest) {
                        Err(e) => rest.len() == n2 && r == Err::<Seq<SensorDpiView>, Error>(
                            Error::Read { operation: "0x2201 current DPI (fn2)", source: Box::new(e) },
                        ),
                        Ok(current) => match spec_parse_sensor_dpi(sensor as u8, supported, current) {
                            Err(e) => rest.len() == n2 && r == Err::<Seq<SensorDpiView>, Error>(e),
                            Ok(first) => match r {
                                Ok(all) => all.len() >= 1 && all[0] == first && spec_sensors_from(
                                    rest.skip(n2),
                                    device,
                                    index,
                                    sensor + 1,
                                    count,
                                    Ok(all.drop_first()),
                                ),
                                Err(e) => spec_sensors_from(
                                    rest.skip(n2),
                                    device,
                                    index,
                                    sensor + 1,
                                    count,
                                    Err(e),
                                ),
                            },
                        },
                    }
                },
            },
        }
    }
}

pub open spec fn sensors_result_view(r: Result<Vec<SensorDpi>, Error>) -> Result<
    Seq<SensorDpiView>,
    Error,
> {
    match r {
        Ok(v) => Ok(sensors_view(v@)),
        Err(e) => Err(e),
    }
}

#[verifier::rlimit(40)]
fn read_sensors<E: Exchange>(
    transport: &mut Recorded<E>,
    device: u8,
    feature: Feature,
    sensor: u8,
    count: u8,
) -> (r: Result<Vec<SensorDpi>, Error>)
    requires
        sensor <= count,
    ensures
        extends(old(transport).calls(), final(transport).calls()),
        spec_sensors_from(
            new_calls(old(transport).calls(), final(transport).calls()),
            device,
            feature.index,
            sensor as int,
            count as int,
            sensors_result_view(r),
        ),
    decreases count - sensor,
{
    let ghost before = transport.calls();
    if sensor >= count {
        proof {
            hidpp::lemma_extends_refl(before);
        }
        let empty: Vec<SensorDpi> = Vec::new();
        assert(sensors_view(empty@) =~= Seq::<SensorDpiView>::empty());
        return Ok(empty);
    }
    let parameters: [u8; 1] = [sensor];
    assert(parameters@ =~= seq![sensor as u8]);
    let supported_response = match hidpp::read_only_exchange(transport, device, feature.index, 1, &parameters) {
        Ok(data) => data,
        Err(error) => return Err(error.in_read("0x2201 supported DPI (fn1)")),
    };
    let supported = parse_dpi_values(sensor, supported_response.as_slice())?;
    let ghost middle = transport.calls();
    let current_response = match hidpp::read_only_exchange(transport, device, feature.index, 2, &parameters) {
        Ok(data) => data,
        Err(error) => {
            proof {
                lemma_extends_concat(before, middle, transport.calls());
                lemma_read_then(new_calls(before, middle), new_calls(middle, transport.calls()), device, feature.index, 1, seq![sensor as u8]);
            }
            return Err(error.in_read("0x2201 current DPI (fn2)"));
        },
    };
    let ghost after_current = transport.calls();
    proof {
        lemma_extends_concat(before, middle, after_current);
        lemma_read_then(new_calls(before, middle), new_calls(middle, after_current), device, feature.index, 1, seq![sensor as u8]);
    }
    let first = match parse_sensor_dpi(sensor, supported, current_response.as_slice()) {
        Ok(first) => first,
        Err(error) => return Err(error),
    };
    let tail = read_sensors(transport, device, feature, sensor + 1, count);
    proof {
        lemma_extends_concat(before, after_current, transport.calls());
        lemma_extends_concat(middle, after_current, transport.calls());
        lemma_read_then(new_calls(middle, after_current), new_calls(after_current, transport.calls()), device, feature.index, 2, seq![sensor as u8]);
        let log = new_calls(before, transport.calls());
        assert(log.skip(read_only_len(log)) =~= new_calls(middle, transport.calls()));
    }
    match tail {
        Ok(mut rest) => {
            let ghost rest_view = sensors_view(rest@);
            rest.insert(0, first);
            assert(sensors_view(rest@).drop_first() =~= rest_view);
            Ok(rest)
        },
        Err(error) => Err(error),
    }
}

/// The complete `read`: nothing is sent for a feature other than 0x2201; otherwise a
/// read-only `getSensorCount` (fn0), then the per-sensor reads of `spec_sensors_from`.
pub open spec fn spec_dpi_read(log: Seq<Call>, device: u8, feature: Feature, r: Result<
    Seq<SensorDpiView>,
    Error,
>) -> bool {
    if feature.id != 0x2201 {
        log.len() == 0 && r == Err::<Seq<SensorDpiView>, Error>(
            Error::Malformed("DPI feature not implemented"),
        )
    } else {
        let n0 = read_only_len(log);
        &&& read_only_step(log, device, feature.index, 0, Seq::<u8>::empty())
        &&& match read_only_reply(log) {
            Err(e) => log.len() == n0 && r == Err::<Seq<SensorDpiView>, Error>(
                Error::Read { operation: "0x2201 sensor count (fn0)", source: Box::new(e) },
            ),
            Ok(data) => match spec_parse_sensor_count(data) {
                Err(e) => log.len() == n0 && r == Err::<Seq<SensorDpiView>, Error>(e),
                Ok(count) => spec_sensors_from(log.skip(n0), device, feature.index, 0, count as int, r),
            },
        }
    }
}

proof fn lemma_sensors_no_writes(
    log: Seq<Call>,
    device: u8,
    index: u8,
    sensor: int,
    count: int,
    r: Result<Seq<SensorDpiView>, Error>,
)
    requires
        spec_sensors_from(log, device, index, sensor, count, r),
    ensures
        hidpp::no_writes(log),
    decreases count - sensor,
{
    if 0 <= sensor < count {
        let parameters = seq![sensor as u8];
        let n1 = read_only_len(log);
        let rest = log.skip(n1);
        if let Ok(list) = read_only_reply(log) {
            if let Ok(supported) = spec_parse_dpi_values(sensor as u8, list) {
                let n2 = read_only_len(rest);
                if let Ok(current) = read_only_reply(rest) {
                    if let Ok(first) = spec_parse_sensor_dpi(sensor as u8, supported, current) {
                        match r {
                            Ok(all) => lemma_sensors_no_writes(
                                rest.skip(n2),
                                device,
                                index,
                                sensor + 1,
                                count,
                                Ok(all.drop_first()),
                            ),
                            Err(e) => lemma_sensors_no_writes(
                                rest.skip(n2),
                                device,
                                index,
                                sensor + 1,
                                count,
                                Err(e),
                            ),
                        }
                    }
                }
                hidpp::lemma_step_no_writes(rest, device, index, 2, parameters);
            }
        }
        hidpp::lemma_step_no_writes(log, device, index, 1, parameters);
    }
}

/// A DPI read sends only the count, list and current-value queries.
pub proof fn lemma_dpi_read_no_writes(
    log: Seq<Call>,
    device: u8,
    feature: Feature,
    r: Result<Seq<SensorDpiView>, Error>,
)
    requires
        spec_dpi_read(log, device, feature, r),
    ensures
        hidpp::no_writes(log),
{
    if feature.id == 0x2201 {
        let n0 = read_only_len(log);
        if let Ok(data) = read_only_reply(log) {
            if let Ok(count) = spec_parse_sensor_count(data) {
                lemma_sensors_no_writes(log.skip(n0), device, feature.index, 0, count as int, r);
            }
        }
        hidpp::lemma_step_no_writes(log, device, feature.index, 0, Seq::<u8>::empty());
    }
}

pub fn read<E: Exchange>(transport: &mut Recorded<E>, device: u8, feature: Feature) -> (r: Result<
    Vec<SensorDpi>,
    Error,
>)
    ensures
        extends(old(transport).calls(), final(transport).calls()),
        spec_dpi_read(
            new_calls(old(transport).calls(), final(transport).calls()),
            device,
            feature,
            sensors_result_view(r),
        ),
{
    let ghost before = transport.calls();
    if feature.id != 0x2201 {
        proof {
            hidpp::lemma_extends_refl(before);
        }
        return Err(Error::Malformed("DPI feature not implemented"));
    }
    let empty: [u8; 0] = [];
    assert(empty@ =~= Seq::<u8>::empty());
    let count_response = match hidpp::read_only_exchange(transport, device, feature.index, 0, &empty) {
        Ok(data) => data,
        Err(error) => return Err(error.in_read("0x2201 sensor count (fn0)")),
    };
    let count = parse_sensor_count(count_response.as_slice())?;
    let ghost middle = transport.calls();
    let sensors = read_sensors(transport, device, feature, 0, count);
    proof {
        lemma_extends_concat(before, middle, transport.calls());
        lemma_read_then(new_calls(before, middle), new_calls(middle, transport.calls()), device, feature.index, 0, Seq::<u8>::empty());
    }
    sensors
}


/// How a refused or failed DPI write reads to a person.
pub open spec fn spec_describe_set_error(e: SetDpiError) -> Seq<char> {
    match e {
        SetDpiError::InvalidFeature => "DPI write requires feature 0x2201"@,
        SetDpiError::InvalidSensor => "DPI write sensor index is invalid"@,
        SetDpiError::Unsupported { requested, nearest } => "DPI "@ + spec_decimal(requested as nat)
            + match nearest {
            Some(n) => " is unsupported; nearest supported value is "@ + spec_decimal(n as nat),
            None => " is unsupported; no valid value was reported"@,
        },
        SetDpiError::Write(error) => "DPI write failed: "@ + hidpp::spec_describe(error),
    }
}

impl SetDpiError {
    pub fn describe(&self) -> (r: String)
        ensures
            r@ == spec_describe_set_error(*self),
    {
        match self {
            SetDpiError::InvalidFeature => string_from("DPI write requires feature 0x2201"),
            SetDpiError::InvalidSensor => string_from("DPI write sensor index is invalid"),
            SetDpiError::Unsupported { requested, nearest } => {
                let mut out = string_from("DPI ");
                push_decimal(&mut out, *requested as u64);
                match nearest {
                    Some(n) => {
                        push_str(&mut out, " is unsupported; nearest supported value is ");
                        push_decimal(&mut out, *n as u64);
                    },
                    None => push_str(&mut out, " is unsupported; no valid value was reported"),
                }
                out
            },
            SetDpiError::Write(error) => {
                let mut out = string_from("DPI write failed: ");
                let detail = error.describe();
                push_str(&mut out, detail.as_str());
                out
            },
        }
    }
}
proof fn lemma_sensors_numbered(
    log: Seq<Call>,
    device: u8,
    index: u8,
    sensor: int,
    count: int,
    all: Seq<SensorDpiView>,
)
    requires
        0 <= sensor <= count <= 255,
        spec_sensors_from(log, device, index, sensor, count, Ok(all)),
    ensures
        all.len() == count - sensor,
        forall|i: int| 0 <= i < all.len() ==> (#[trigger] all[i]).sensor == sensor + i,
    decreases count - sensor,
{
    if sensor < count {
        let parameters = seq![sensor as u8];
        let n1 = read_only_len(log);
        let rest = log.skip(n1);
        let n2 = read_only_len(rest);
        let list = read_only_reply(log)->Ok_0;
        let supported = spec_parse_dpi_values(sensor as u8, list)->Ok_0;
        let current = read_only_reply(rest)->Ok_0;
        let first = spec_parse_sensor_dpi(sensor as u8, supported, current)->Ok_0;
        assert(all[0] == first);
        lemma_sensors_numbered(rest.skip(n2), device, index, sensor + 1, count, all.drop_first());
        assert forall|i: int| 0 <= i < all.len() implies (#[trigger] all[i]).sensor == sensor + i by {
            if i > 0 {
                assert(all[i] == all.drop_first()[i - 1]);
            }
        }
    }
}

/// A successful DPI read reports exactly as many sensors as the device counted in its fn0
/// reply (1 to 16), numbered from 0 in order.
pub proof fn law_dpi_read_reports_each_sensor(log: Seq<Call>, device: u8, feature: Feature, sensors: Seq<SensorDpiView>)
    requires
        spec_dpi_read(log, device, feature, Ok(sensors)),
    ensures
        feature.id == 0x2201,
        read_only_reply(log) is Ok,
        spec_parse_sensor_count(read_only_reply(log)->Ok_0) == Ok::<u8, Error>(sensors.len() as u8),
        1 <= sensors.len() <= MAX_SENSOR_COUNT,
        forall|i: int| 0 <= i < sensors.len() ==> (#[trigger] sensors[i]).sensor == i,
{
    let n0 = read_only_len(log);
    let count = spec_parse_sensor_count(read_only_reply(log)->Ok_0)->Ok_0;
    lemma_sensors_numbered(log.skip(n0), device, feature.index, 0, count as int, sensors);
}

} // verus!
