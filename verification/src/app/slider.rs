use vstd::prelude::*;

use crate::hid::features::dpi::{self, spec_nearest, DpiValues, DpiValuesView};

verus! {

/// The lowest and highest value a slider over `values` can reach: the first and last
/// list entries, or the range minimum and the last aligned step at or below the maximum.
pub open spec fn spec_endpoints(values: DpiValuesView) -> Option<(u16, u16)> {
    match values {
        DpiValuesView::List(list) => if list.len() == 0 {
            None
        } else {
            Some((list[0], list.last()))
        },
        DpiValuesView::Range { minimum, maximum, step } => if step > 0 && minimum <= maximum {
            Some((minimum, (minimum + ((maximum - minimum) / (step as int)) * step) as u16))
        } else {
            None
        },
    }
}

pub open spec fn spec_first(values: DpiValuesView) -> Option<u16> {
    match spec_endpoints(values) {
        Some((minimum, _)) => Some(minimum),
        None => None,
    }
}

/// A pointer position held within `0..=width`.
pub open spec fn clamp_position(position: i32, width: i32) -> int {
    if position < 0 {
        0
    } else if position > width {
        width as int
    } else {
        position as int
    }
}

/// `numerator / denominator` rounded half up.
pub open spec fn rounded(numerator: int, denominator: int) -> int {
    (numerator * 2 + denominator) / (denominator * 2)
}

/// The value under a pointer at `position` on a track `width` pixels wide. A list maps the
/// track onto its indices; a range maps it linearly and snaps to the nearest writable step.
pub open spec fn spec_value_at(values: DpiValuesView, position: i32, width: i32) -> Option<u16> {
    if width <= 0 {
        spec_first(values)
    } else {
        let p = clamp_position(position, width);
        match values {
            DpiValuesView::List(list) => if list.len() == 0 {
                None
            } else {
                Some(list[rounded(p * (list.len() - 1), width as int)])
            },
            DpiValuesView::Range { minimum, maximum, .. } => {
                let span: int = if maximum >= minimum {
                    maximum - minimum
                } else {
                    0
                };
                let requested = minimum + rounded(p * span, width as int);
                spec_nearest(
                    values,
                    if requested > u16::MAX {
                        u16::MAX
                    } else {
                        requested as u16
                    },
                )
            },
        }
    }
}

/// The first index at which `value` occurs in `list`, if any.
pub open spec fn first_index_of(list: Seq<u16>, value: u16) -> Option<int> {
    if list.contains(value) {
        Some(choose|i: int| 0 <= i < list.len() && list[i] == value && forall|j: int| 0 <= j < i ==> list[j] != value)
    } else {
        None
    }
}

/// Where the pointer sits for `value`, when `value` is one the slider can show.
pub open spec fn spec_position_of(values: DpiValuesView, value: u16, width: i32) -> Option<i32> {
    if width < 0 {
        None
    } else {
        match values {
            DpiValuesView::List(list) => match first_index_of(list, value) {
                None => None,
                Some(index) => if list.len() == 1 {
                    Some(0)
                } else {
                    let last = list.len() - 1;
                    Some(((index * width + last / 2) / last) as i32)
                },
            },
            DpiValuesView::Range { minimum, maximum, step } => if step > 0 && minimum < maximum
                && minimum <= value <= maximum && (value - minimum) % (step as int) == 0 {
                let span = maximum - minimum;
                Some((((value - minimum) * width + span / 2) / span) as i32)
            } else {
                None
            },
        }
    }
}

/// A list the slider can index without overflowing its arithmetic.
pub open spec fn slider_sized(values: DpiValuesView) -> bool {
    match values {
        DpiValuesView::List(list) => list.len() <= u32::MAX,
        _ => true,
    }
}

pub fn endpoints(values: &DpiValues) -> (r: Option<(u16, u16)>)
    ensures
        r == spec_endpoints(values@),
{
    match values {
        DpiValues::List(list) => {
            if list.len() == 0 {
                None
            } else {
                Some((list[0], list[list.len() - 1]))
            }
        },
        DpiValues::Range { minimum, maximum, step } => {
            let (mn, mx, st) = (*minimum, *maximum, *step);
            if st > 0 && mn <= mx {
                let steps = (mx - mn) / st;
                assert(steps * st <= mx - mn) by (nonlinear_arith)
                    requires
                        st > 0,
                        mx >= mn,
                        steps == (mx - mn) / (st as int),
                ;
                let last = mn + steps * st;
                Some((mn, last))
            } else {
                None
            }
        },
    }
}

fn first(values: &DpiValues) -> (r: Option<u16>)
    ensures
        r == spec_first(values@),
        r matches Some(v) ==> dpi::spec_supports_dpi(values@, v),
{
    match endpoints(values) {
        Some((minimum, _)) => {
            proof {
                match values@ {
                    DpiValuesView::List(list) => {
                        assert(list[0] == minimum);
                        assert(list.contains(minimum));
                    },
                    DpiValuesView::Range { minimum: low, maximum: high, step } => {
                        assert(low == minimum);
                        let k = step as int;
                        assert(0int % k == 0) by (nonlinear_arith)
                            requires
                                k > 0,
                        ;
                    },
                }
            }
            Some(minimum)
        },
        None => None,
    }
}

proof fn lemma_rounded_bound(p: int, n: int, w: int)
    requires
        0 <= p <= w,
        w > 0,
        n >= 0,
    ensures
        0 <= rounded(p * n, w) <= n,
{
    assert(0 <= p * n <= w * n) by (nonlinear_arith)
        requires
            0 <= p <= w,
            n >= 0,
    ;
    assert((p * n * 2 + w) / (w * 2) <= n) by (nonlinear_arith)
        requires
            0 <= p * n <= w * n,
            w > 0,
            n >= 0,
    ;
    assert(0 <= (p * n * 2 + w) / (w * 2)) by (nonlinear_arith)
        requires
            0 <= p * n,
            w > 0,
    ;
}

pub fn value_at(values: &DpiValues, position: i32, width: i32) -> (r: Option<u16>)
    requires
        slider_sized(values@),
    ensures
        r == spec_value_at(values@, position, width),
        r matches Some(v) ==> dpi::spec_supports_dpi(values@, v),
{
    if width <= 0 {
        return first(values);
    }
    let p: u64 = if position < 0 {
        0
    } else if position > width {
        width as u64
    } else {
        position as u64
    };
    let w: u64 = width as u64;
    assert(p == clamp_position(position, width));
    match values {
        DpiValues::List(list) => {
            if list.len() == 0 {
                return None;
            }
            let last: u64 = (list.len() - 1) as u64;
            assert(p * last * 2 + w < 0x1_0000_0000_0000_0000) by (nonlinear_arith)
                requires
                    p <= 0x8000_0000,
                    last < 0x1_0000_0000,
                    w <= 0x8000_0000,
            ;
            assert(p * last * 2 == (p * last) * 2) by (nonlinear_arith);
            let index: u64 = (p * last * 2 + w) / (w * 2);
            proof {
                lemma_rounded_bound(p as int, last as int, w as int);
            }
            assert(index == rounded(p * last, w as int));
            assert(list@.contains(list@[index as int]));
            Some(list[index as usize])
        },
        DpiValues::Range { minimum, maximum, .. } => {
            let span: u64 = if *maximum >= *minimum {
                (*maximum - *minimum) as u64
            } else {
                0
            };
            assert(p * span * 2 + w < 0x1_0000_0000_0000) by (nonlinear_arith)
                requires
                    p <= 0x8000_0000,
                    span < 0x1_0000,
                    w <= 0x8000_0000,
            ;
            assert(p * span * 2 == (p * span) * 2) by (nonlinear_arith);
            proof {
                lemma_rounded_bound(p as int, span as int, w as int);
            }
            let requested: u64 = *minimum as u64 + (p * span * 2 + w) / (w * 2);
            let clamped: u16 = if requested > 0xffff {
                0xffff
            } else {
                requested as u16
            };
            dpi::nearest_supported_dpi(values, clamped)
        },
    }
}

fn find_index(list: &Vec<u16>, value: u16) -> (r: Option<usize>)
    ensures
        match r {
            Some(i) => i < list@.len() && list@[i as int] == value && forall|j: int|
                0 <= j < i ==> list@[j] != value,
            None => !list@.contains(value),
        },
{
    let mut i: usize = 0;
    while i < list.len()
        invariant
            i <= list@.len(),
            forall|j: int| 0 <= j < i ==> list@[j] != value,
        decreases list@.len() - i,
    {
        if list[i] == value {
            return Some(i);
        }
        i = i + 1;
    }
    assert(!list@.contains(value)) by {
        if list@.contains(value) {
            let k = choose|k: int| 0 <= k < list@.len() && list@[k] == value;
            assert(list@[k] != value);
        }
    }
    None
}

fn list_position(list: &Vec<u16>, value: u16, width: i32) -> (r: Option<i32>)
    requires
        list@.len() <= u32::MAX,
        width >= 0,
    ensures
        r == spec_position_of(DpiValuesView::List(list@), value, width),
{
    let found = find_index(list, value);
    let i = match found {
        None => {
            return None;
        },
        Some(i) => i,
    };
    assert(list@.contains(value));
    let ghost chosen = choose|k: int|
        0 <= k < list@.len() && list@[k] == value && forall|j: int| 0 <= j < k ==> list@[j] != value;
    assert(0 <= chosen < list@.len() && list@[chosen] == value && forall|j: int|
        0 <= j < chosen ==> list@[j] != value);
    assert(chosen == i as int) by {
        if chosen < i {
            assert(list@[chosen] != value);
        } else if chosen > i {
            assert(list@[i as int] == value);
        }
    }
    assert(first_index_of(list@, value) == Some(i as int));
    let last: i64 = (list.len() - 1) as i64;
    if last == 0 {
        Some(0)
    } else {
        let index: i64 = i as i64;
        let w: i64 = width as i64;
        assert(0 <= index * w <= last * w) by (nonlinear_arith)
            requires
                0 <= index <= last,
                w >= 0,
        ;
        assert(last * w < 0x8000_0000_0000_0000 - 0x1_0000_0000) by (nonlinear_arith)
            requires
                0 < last < 0x1_0000_0000,
                0 <= w < 0x8000_0000,
        ;
        let q: i64 = (index * w + last / 2) / last;
        assert(0 <= q <= w) by (nonlinear_arith)
            requires
                0 <= index * w <= last * w,
                last > 0,
                w >= 0,
                q as int == (index * w + last / 2) / (last as int),
        ;
        Some(q as i32)
    }
}

pub fn position_of(values: &DpiValues, value: u16, width: i32) -> (r: Option<i32>)
    requires
        slider_sized(values@),
    ensures
        r == spec_position_of(values@, value, width),
{
    if width < 0 {
        return None;
    }
    match values {
        DpiValues::List(list) => list_position(list, value, width),
        DpiValues::Range { minimum, maximum, step } => {
            if *step > 0 && *minimum < *maximum && value >= *minimum && value <= *maximum
                && (value - *minimum) % *step == 0 {
                let span: i64 = (*maximum - *minimum) as i64;
                let offset: i64 = (value - *minimum) as i64;
                let w: i64 = width as i64;
                assert(0 <= offset * w <= span * w) by (nonlinear_arith)
                    requires
                        0 <= offset <= span,
                        w >= 0,
                ;
                assert(span * w < 0x1_0000_0000_0000) by (nonlinear_arith)
                    requires
                        0 < span < 0x1_0000,
                        0 <= w < 0x8000_0000,
                ;
                let q: i64 = (offset * w + span / 2) / span;
                assert(0 <= q <= w) by (nonlinear_arith)
                    requires
                        0 <= offset * w <= span * w,
                        span > 0,
                        w >= 0,
                        q as int == (offset * w + span / 2) / (span as int),
                ;
                Some(q as i32)
            } else {
                None
            }
        },
    }
}

proof fn lemma_first_index_exists(list: Seq<u16>, value: u16)
    requires
        list.contains(value),
    ensures
        exists|i: int| 0 <= i < list.len() && list[i] == value && forall|j: int| 0 <= j < i ==> list[j] != value,
    decreases list.len(),
{
    if list[0] == value {
        assert(0 <= 0 < list.len() && list[0] == value && forall|j: int| 0 <= j < 0 ==> list[j] != value);
    } else {
        let rest = list.drop_first();
        let k = choose|k: int| 0 <= k < list.len() && list[k] == value;
        assert(rest[k - 1] == value);
        lemma_first_index_exists(rest, value);
        let i = choose|i: int| 0 <= i < rest.len() && rest[i] == value && forall|j: int| 0 <= j < i ==> rest[j] != value;
        assert forall|j: int| 0 <= j < i + 1 implies list[j] != value by {
            if j > 0 {
                assert(list[j] == rest[j - 1]);
            }
        }
        assert(list[i + 1] == value);
    }
}

/// The pointer position for index `i` of a track with `last + 1` stops, read back as an
/// index, gives `i` again whenever the track has at least as many pixels as steps.
proof fn lemma_round_trip_index(i: int, last: int, w: int)
    requires
        0 <= i <= last,
        1 <= last <= w,
    ensures
        0 <= (i * w + last / 2) / last <= w,
        rounded(((i * w + last / 2) / last) * last, w) == i,
{
    let h = last / 2;
    let q = i * w + h;
    let p = q / last;
    let r = q % last;
    assert(0 <= i * w <= last * w) by (nonlinear_arith)
        requires
            0 <= i <= last,
            w >= 1,
    ;
    vstd::arithmetic::div_mod::lemma_fundamental_div_mod(q, last);
    vstd::arithmetic::div_mod::lemma_mod_pos_bound(q, last);
    vstd::arithmetic::div_mod::lemma_div_pos_is_pos(q, last);
    assert(last * p == p * last) by (nonlinear_arith);
    assert(p * last == i * w + h - r);
    assert(p <= w) by (nonlinear_arith)
        requires
            p * last == i * w + h - r,
            i * w <= last * w,
            0 <= h < last,
            r >= 0,
            last >= 1,
    ;
    if w == last {
        vstd::arithmetic::div_mod::lemma_fundamental_div_mod_converse(q, last, i, h);
    }
    assert(2 * h - 2 * r < w);
    let x = p * last * 2 + w;
    assert(x == i * (w * 2) + (2 * h - 2 * r + w)) by (nonlinear_arith)
        requires
            p * last == i * w + h - r,
            x == p * last * 2 + w,
    ;
    assert(0 <= 2 * h - 2 * r + w < 2 * w);
    vstd::arithmetic::div_mod::lemma_fundamental_div_mod_converse(x, w * 2, i, 2 * h - 2 * r + w);
}

/// For a list of values, placing the pointer where `position_of` puts a listed value and
/// reading the track there gives that value back, on any track with at least one pixel per
/// step between entries.
pub proof fn law_list_position_round_trip(list: Seq<u16>, value: u16, width: i32)
    requires
        list.contains(value),
        width >= 1,
        width >= list.len() - 1,
    ensures
        spec_position_of(DpiValuesView::List(list), value, width) matches Some(p) && 0 <= p
            <= width && spec_value_at(DpiValuesView::List(list), p, width) == Some(value),
{
    lemma_first_index_exists(list, value);
    let index = first_index_of(list, value).unwrap();
    if list.len() == 1 {
        vstd::arithmetic::div_mod::lemma_fundamental_div_mod_converse(
            width as int,
            width as int * 2,
            0,
            width as int,
        );
        assert(rounded(0, width as int) == 0);
    } else {
        let last = list.len() - 1;
        lemma_round_trip_index(index, last, width as int);
    }
}

/// For a range, placing the pointer where `position_of` puts a writable value and reading the
/// track there gives that value back, on any track with at least one pixel per DPI of span.
pub proof fn law_range_position_round_trip(minimum: u16, maximum: u16, step: u16, value: u16, width: i32)
    requires
        minimum < maximum,
        dpi::spec_supports_dpi(DpiValuesView::Range { minimum, maximum, step }, value),
        width >= maximum - minimum,
    ensures
        spec_position_of(DpiValuesView::Range { minimum, maximum, step }, value, width) matches Some(
            p,
        ) && 0 <= p <= width && spec_value_at(
            DpiValuesView::Range { minimum, maximum, step },
            p,
            width,
        ) == Some(value),
{
    let values = DpiValuesView::Range { minimum, maximum, step };
    lemma_round_trip_index(value - minimum, maximum - minimum, width as int);
    assert(dpi::is_nearest(values, value, value));
    dpi::lemma_nearest_is_spec(values, value, value);
}

/// The DPI a range slider asks for at track position `p` of `width`, before snapping.
proof fn lemma_range_request(minimum: u16, maximum: u16, p: int, w: int)
    requires
        minimum <= maximum,
        0 <= p <= w,
        w > 0,
    ensures
        minimum <= minimum + rounded(p * (maximum - minimum), w) <= maximum,
{
    lemma_rounded_bound(p, maximum - minimum, w);
}

/// Rounding a track position to a DPI offset never goes backwards.
proof fn lemma_rounded_monotone(p1: int, p2: int, n: int, w: int)
    requires
        0 <= p1 <= p2,
        n >= 0,
        w > 0,
    ensures
        rounded(p1 * n, w) <= rounded(p2 * n, w),
{
    assert(p1 * n <= p2 * n) by (nonlinear_arith)
        requires
            0 <= p1 <= p2,
            n >= 0,
    ;
    vstd::arithmetic::div_mod::lemma_div_is_ordered(p1 * n * 2 + w, p2 * n * 2 + w, w * 2);
}

/// On a valid range, for any track width, the slider gives the minimum at the left end, the
/// highest supported step at the right end, a supported value everywhere, and never a lower
/// value further right.
pub proof fn law_range_slider_runs_low_to_high(
    minimum: u16,
    maximum: u16,
    step: u16,
    width: i32,
    left: i32,
    right: i32,
)
    requires
        step > 0,
        minimum <= maximum,
        width > 0,
    ensures
        spec_value_at(DpiValuesView::Range { minimum, maximum, step }, 0, width) == Some(minimum),
        spec_value_at(DpiValuesView::Range { minimum, maximum, step }, width, width) == Some(
            dpi::range_top(minimum, maximum, step) as u16,
        ),
        spec_value_at(DpiValuesView::Range { minimum, maximum, step }, left, width) matches Some(v)
            && dpi::spec_supports_dpi(DpiValuesView::Range { minimum, maximum, step }, v),
        left <= right ==> spec_value_at(DpiValuesView::Range { minimum, maximum, step }, left, width)->0
            <= spec_value_at(DpiValuesView::Range { minimum, maximum, step }, right, width)->0,
{
    let values = DpiValuesView::Range { minimum, maximum, step };
    let w = width as int;
    let span = maximum - minimum;
    dpi::lemma_range_bounds(minimum, maximum, step);
    let top = dpi::range_top(minimum, maximum, step);
    // Left end: the request is the minimum itself.
    vstd::arithmetic::div_mod::lemma_fundamental_div_mod_converse(w, w * 2, 0, w);
    assert(rounded(0 * span, w) == 0);
    assert(dpi::is_nearest(values, minimum, minimum));
    dpi::lemma_nearest_is_spec(values, minimum, minimum);
    // Right end: the request is the maximum, whose nearest value is the top step.
    assert(w * span * 2 + w == span * (w * 2) + w) by (nonlinear_arith);
    vstd::arithmetic::div_mod::lemma_fundamental_div_mod_converse(w * span * 2 + w, w * 2, span, w);
    assert(rounded(w * span, w) == span);
    assert(dpi::is_nearest(values, maximum, top as u16));
    dpi::lemma_nearest_is_spec(values, maximum, top as u16);
    // Everywhere: a nearest value exists, and it grows with the position.
    let pl = clamp_position(left, width);
    let pr = clamp_position(right, width);
    lemma_range_request(minimum, maximum, pl, w);
    lemma_range_request(minimum, maximum, pr, w);
    let ql = (minimum + rounded(pl * span, w)) as u16;
    let qr = (minimum + rounded(pr * span, w)) as u16;
    dpi::lemma_range_nearest_exists(minimum, maximum, step, ql);
    dpi::lemma_range_nearest_exists(minimum, maximum, step, qr);
    dpi::lemma_nearest_choice(values, ql);
    dpi::lemma_nearest_choice(values, qr);
    if left <= right {
        lemma_rounded_monotone(pl, pr, span, w);
        dpi::lemma_nearest_monotone(
            values,
            ql,
            qr,
            dpi::spec_nearest(values, ql)->0,
            dpi::spec_nearest(values, qr)->0,
        );
    }
}

/// On a non-empty list, for any track width, the slider gives the first entry at the left end,
/// the last entry at the right end, and never an earlier entry further right.
pub proof fn law_list_slider_runs_in_order(list: Seq<u16>, width: i32, left: i32, right: i32)
    requires
        list.len() > 0,
        width > 0,
    ensures
        spec_value_at(DpiValuesView::List(list), 0, width) == Some(list[0]),
        spec_value_at(DpiValuesView::List(list), width, width) == Some(list.last()),
        left <= right ==> exists|i: int, j: int|
            #![trigger list[i], list[j]]
            0 <= i <= j < list.len() && spec_value_at(DpiValuesView::List(list), left, width) == Some(
                list[i],
            ) && spec_value_at(DpiValuesView::List(list), right, width) == Some(list[j]),
{
    let w = width as int;
    let n = list.len() - 1;
    vstd::arithmetic::div_mod::lemma_fundamental_div_mod_converse(w, w * 2, 0, w);
    assert(rounded(0 * n, w) == 0);
    assert(w * n * 2 + w == n * (w * 2) + w) by (nonlinear_arith);
    vstd::arithmetic::div_mod::lemma_fundamental_div_mod_converse(w * n * 2 + w, w * 2, n, w);
    assert(rounded(w * n, w) == n);
    if left <= right {
        let pl = clamp_position(left, width);
        let pr = clamp_position(right, width);
        lemma_rounded_bound(pl, n, w);
        lemma_rounded_bound(pr, n, w);
        lemma_rounded_monotone(pl, pr, n, w);
        let i = rounded(pl * n, w);
        let j = rounded(pr * n, w);
        assert(list[i] == list[i] && list[j] == list[j]);
    }
}

} // verus!
