//! The settings window's input decisions: where a pointer lands, what a slider gesture
//! previews and commits, how the preset editor takes keys, and which presets a save applies.
use vstd::prelude::*;

use crate::app::settings::{parse_unsigned, spec_parse_unsigned, trim, trim_range};
use crate::app::slider::{self, slider_sized, spec_value_at};
use crate::app::state::{DeviceStatus, SettingsNotice};
use crate::hid::features::dpi::{DpiValues, DpiValuesView};

verus! {

/// A rectangle in logical (96 DPI) pixels.
#[derive(Debug, Clone, Copy, PartialEq, Eq, Structural)]
pub struct Rect {
    pub left: i32,
    pub top: i32,
    pub width: i32,
    pub height: i32,
}

/// What a pointer can hit in the settings window.
#[derive(Debug, Clone, Copy, PartialEq, Eq, Structural)]
pub enum HitTarget {
    Refresh,
    Slider,
    Preset(usize),
    Edit(usize),
    Theme(usize),
    Save,
}

/// Left edge of the slider track, in logical pixels.
pub const TRACK_LEFT: i32 = 48;

/// Width of the slider track, in logical pixels.
pub const TRACK_WIDTH: i32 = 344;

/// Most digits a preset draft holds, counted in UTF-8 bytes.
pub const MAX_DRAFT_BYTES: usize = 5;

pub open spec fn spec_refresh_rect() -> Rect {
    Rect { left: 380, top: 22, width: 36, height: 36 }
}

pub open spec fn spec_slider_rect() -> Rect {
    Rect { left: 38, top: 330, width: 364, height: 40 }
}

pub open spec fn spec_save_rect() -> Rect {
    Rect { left: 300, top: 603, width: 104, height: 30 }
}

/// The `index`th preset button, in a row of four.
pub open spec fn spec_preset_rect(index: int) -> Rect {
    Rect { left: (36 + index * 96) as i32, top: 402, width: 80, height: 34 }
}

/// The `index`th preset editor field, in a row of four.
pub open spec fn spec_edit_rect(index: int) -> Rect {
    Rect { left: (36 + index * 96) as i32, top: 507, width: 80, height: 30 }
}

/// The `index`th theme button (system, light, dark).
pub open spec fn spec_theme_rect(index: int) -> Rect {
    Rect { left: (36 + index * 84) as i32, top: 569, width: 84, height: 32 }
}

pub fn refresh_rect() -> (r: Rect)
    ensures
        r == spec_refresh_rect(),
{
    Rect { left: 380, top: 22, width: 36, height: 36 }
}

pub fn slider_rect() -> (r: Rect)
    ensures
        r == spec_slider_rect(),
{
    Rect { left: 38, top: 330, width: 364, height: 40 }
}

pub fn save_rect() -> (r: Rect)
    ensures
        r == spec_save_rect(),
{
    Rect { left: 300, top: 603, width: 104, height: 30 }
}

pub fn preset_rect(index: usize) -> (r: Rect)
    requires
        index < 4,
    ensures
        r == spec_preset_rect(index as int),
{
    let i: i32 = index as i32;
    Rect { left: 36 + i * 96, top: 402, width: 80, height: 34 }
}

pub fn edit_rect(index: usize) -> (r: Rect)
    requires
        index < 4,
    ensures
        r == spec_edit_rect(index as int),
{
    let i: i32 = index as i32;
    Rect { left: 36 + i * 96, top: 507, width: 80, height: 30 }
}

pub fn theme_rect(index: usize) -> (r: Rect)
    requires
        index < 3,
    ensures
        r == spec_theme_rect(index as int),
{
    let i: i32 = index as i32;
    Rect { left: 36 + i * 84, top: 569, width: 84, height: 32 }
}

/// `point` lies inside `rect`: left and top edges included, right and bottom excluded.
pub open spec fn spec_contains(rect: Rect, x: int, y: int) -> bool {
    &&& rect.left <= x < rect.left + rect.width
    &&& rect.top <= y < rect.top + rect.height
}

pub fn contains(rect: Rect, x: i32, y: i32) -> (r: bool)
    ensures
        r == spec_contains(rect, x as int, y as int),
{
    let x: i64 = x as i64;
    let y: i64 = y as i64;
    x >= rect.left as i64 && x < rect.left as i64 + rect.width as i64 && y >= rect.top as i64 && y
        < rect.top as i64 + rect.height as i64
}

/// Integer division rounded toward zero.
pub open spec fn toward_zero(n: int, d: int) -> int {
    if n >= 0 {
        n / d
    } else {
        -((-n) / d)
    }
}

/// A logical length in device pixels at `dpi`, rounded half up.
pub open spec fn spec_scale(value: i32, dpi: u32) -> i32 {
    toward_zero(value * dpi + 48, 96) as i32
}

/// A device-pixel length in logical pixels at `dpi` (a zero DPI counts as one).
pub open spec fn spec_unscale(value: i32, dpi: u32) -> i32 {
    toward_zero(value * 96 + dpi / 2, if dpi == 0 {
        1
    } else {
        dpi as int
    }) as i32
}

fn div_toward_zero(n: i64, d: i64) -> (r: i64)
    requires
        d >= 1,
        n > i64::MIN,
    ensures
        r == toward_zero(n as int, d as int),
{
    if n >= 0 {
        n / d
    } else {
        let m: i64 = -n;
        -(m / d)
    }
}

pub fn scale(value: i32, dpi: u32) -> (r: i32)
    ensures
        r == spec_scale(value, dpi),
{
    assert(-0x8000_0000_0000_0000 < value as int * dpi as int + 48 < 0x8000_0000_0000_0000) by (
    nonlinear_arith)
        requires
            -0x8000_0000 <= value < 0x8000_0000,
            0 <= dpi < 0x1_0000_0000,
    ;
    let v: i64 = value as i64;
    let d: i64 = dpi as i64;
    assert(-0x8000_0000_0000_0000 < v * d < 0x7fff_ffff_ffff_0000) by (nonlinear_arith)
        requires
            -0x8000_0000 <= v < 0x8000_0000,
            0 <= d < 0x1_0000_0000,
    ;
    let product: i64 = v * d;
    #[verifier::truncate]
    (div_toward_zero(product + 48, 96) as i32)
}

pub fn unscale(value: i32, dpi: u32) -> (r: i32)
    ensures
        r == spec_unscale(value, dpi),
{
    let divisor: i64 = if dpi == 0 {
        1
    } else {
        dpi as i64
    };
    #[verifier::truncate]
    (div_toward_zero(value as i64 * 96 + (dpi / 2) as i64, divisor) as i32)
}

/// The first preset button or editor field, from column `index` on, that contains the logical
/// point (`x`, `y`); in each column the button is tested before the field.
pub open spec fn spec_preset_hit(x: int, y: int, index: int) -> Option<HitTarget>
    decreases 4 - index,
{
    if index < 0 || index >= 4 {
        None
    } else if spec_contains(spec_preset_rect(index), x, y) {
        Some(HitTarget::Preset(index as usize))
    } else if spec_contains(spec_edit_rect(index), x, y) {
        Some(HitTarget::Edit(index as usize))
    } else {
        spec_preset_hit(x, y, index + 1)
    }
}

/// The first theme button, from `index` on, that contains the logical point (`x`, `y`).
pub open spec fn spec_theme_hit(x: int, y: int, index: int) -> Option<HitTarget>
    decreases 3 - index,
{
    if index < 0 || index >= 3 {
        None
    } else if spec_contains(spec_theme_rect(index), x, y) {
        Some(HitTarget::Theme(index as usize))
    } else {
        spec_theme_hit(x, y, index + 1)
    }
}

/// What a pointer at device pixel (`x`, `y`) hits at `dpi`: the refresh button, the slider,
/// a preset button or editor field (left to right, a button before its field), a theme
/// button, or the save button, tested in that order.
pub open spec fn spec_hit_target(dpi: u32, x: i32, y: i32) -> Option<HitTarget> {
    let lx = spec_unscale(x, dpi) as int;
    let ly = spec_unscale(y, dpi) as int;
    if spec_contains(spec_refresh_rect(), lx, ly) {
        Some(HitTarget::Refresh)
    } else if spec_contains(spec_slider_rect(), lx, ly) {
        Some(HitTarget::Slider)
    } else if spec_preset_hit(lx, ly, 0) is Some {
        spec_preset_hit(lx, ly, 0)
    } else if spec_theme_hit(lx, ly, 0) is Some {
        spec_theme_hit(lx, ly, 0)
    } else if spec_contains(spec_save_rect(), lx, ly) {
        Some(HitTarget::Save)
    } else {
        None
    }
}

pub fn hit_target(dpi: u32, x: i32, y: i32) -> (r: Option<HitTarget>)
    ensures
        r == spec_hit_target(dpi, x, y),
{
    let lx = unscale(x, dpi);
    let ly = unscale(y, dpi);
    let ghost (gx, gy) = (lx as int, ly as int);
    if contains(refresh_rect(), lx, ly) {
        return Some(HitTarget::Refresh);
    }
    if contains(slider_rect(), lx, ly) {
        return Some(HitTarget::Slider);
    }
    let mut index: usize = 0;
    while index < 4
        invariant
            index <= 4,
            gx == lx as int,
            gy == ly as int,
            gx == spec_unscale(x, dpi) as int,
            gy == spec_unscale(y, dpi) as int,
            !spec_contains(spec_refresh_rect(), gx, gy),
            !spec_contains(spec_slider_rect(), gx, gy),
            spec_preset_hit(gx, gy, 0) == spec_preset_hit(gx, gy, index as int),
        decreases 4 - index,
    {
        if contains(preset_rect(index), lx, ly) {
            return Some(HitTarget::Preset(index));
        }
        if contains(edit_rect(index), lx, ly) {
            return Some(HitTarget::Edit(index));
        }
        index = index + 1;
    }
    let mut index: usize = 0;
    while index < 3
        invariant
            index <= 3,
            gx == lx as int,
            gy == ly as int,
            gx == spec_unscale(x, dpi) as int,
            gy == spec_unscale(y, dpi) as int,
            !spec_contains(spec_refresh_rect(), gx, gy),
            !spec_contains(spec_slider_rect(), gx, gy),
            spec_preset_hit(gx, gy, 0) is None,
            spec_theme_hit(gx, gy, 0) == spec_theme_hit(gx, gy, index as int),
        decreases 3 - index,
    {
        if contains(theme_rect(index), lx, ly) {
            return Some(HitTarget::Theme(index));
        }
        index = index + 1;
    }
    if contains(save_rect(), lx, ly) {
        Some(HitTarget::Save)
    } else {
        None
    }
}

/// Whether a press at device pixel (`x`, `y`) lands on the slider.
pub fn slider_hit(dpi: u32, x: i32, y: i32) -> (r: bool)
    ensures
        r == spec_contains(spec_slider_rect(), spec_unscale(x, dpi) as int, spec_unscale(y, dpi) as int),
{
    contains(slider_rect(), unscale(x, dpi), unscale(y, dpi))
}

/// The track in device pixels at `dpi`: its left edge and its width (at least one pixel).
pub open spec fn spec_track(dpi: u32) -> (i32, i32) {
    let width = spec_scale(TRACK_WIDTH, dpi);
    (spec_scale(TRACK_LEFT, dpi), if width < 1 {
        1
    } else {
        width
    })
}

/// A pointer at device x-coordinate `x` can be placed on the track without overflow.
pub open spec fn track_reachable(dpi: u32, x: i32) -> bool {
    i32::MIN <= x - spec_track(dpi).0 <= i32::MAX
}

/// The value a drag shows under the pointer at `x`: nothing without known values, otherwise
/// the slider's value at the pointer's offset along the track.
pub open spec fn spec_preview(supported: Option<DpiValuesView>, dpi: u32, x: i32) -> Option<u16> {
    match supported {
        None => None,
        Some(values) => spec_value_at(values, (x - spec_track(dpi).0) as i32, spec_track(dpi).1),
    }
}

pub fn preview_slider(supported: Option<&DpiValues>, dpi: u32, x: i32) -> (r: Option<u16>)
    requires
        track_reachable(dpi, x),
        supported matches Some(values) ==> slider_sized(values@),
    ensures
        r == spec_preview(
            match supported {
                Some(values) => Some(values@),
                None => None,
            },
            dpi,
            x,
        ),
{
    match supported {
        None => None,
        Some(values) => {
            let left = scale(TRACK_LEFT, dpi);
            let scaled = scale(TRACK_WIDTH, dpi);
            let width = if scaled < 1 {
                1
            } else {
                scaled
            };
            slider::value_at(values, x - left, width)
        },
    }
}

/// Pressing the slider starts a drag only on a single device with known values; the result is
/// the preview the drag starts with, or `None` when no drag starts.
pub fn begin_slider(status: DeviceStatus, supported: Option<&DpiValues>, dpi: u32, x: i32) -> (r: Option<
    Option<u16>,
>)
    requires
        track_reachable(dpi, x),
        supported matches Some(values) ==> slider_sized(values@),
    ensures
        r == if status == DeviceStatus::Single && supported is Some {
            Some(
                spec_preview(
                    match supported {
                        Some(values) => Some(values@),
                        None => None,
                    },
                    dpi,
                    x,
                ),
            )
        } else {
            None
        },
{
    if status != DeviceStatus::Single || supported.is_none() {
        return None;
    }
    Some(preview_slider(supported, dpi, x))
}

/// What releasing the slider on `value` does.
#[derive(Debug, Clone, Copy, PartialEq, Eq, Structural)]
pub enum SliderCommit {
    /// Ask the worker to write `value`.
    Submit(u16),
    /// The value is already current: drop the preview and send nothing.
    ClearPreview,
}

pub fn commit_slider(current: Option<u16>, value: u16) -> (r: SliderCommit)
    ensures
        r == if current == Some(value) {
            SliderCommit::ClearPreview
        } else {
            SliderCommit::Submit(value)
        },
{
    match current {
        Some(c) if c == value => SliderCommit::ClearPreview,
        _ => SliderCommit::Submit(value),
    }
}

/// Bytes `c` takes in UTF-8.
pub open spec fn utf8_width(c: char) -> nat {
    if (c as u32) < 0x80 {
        1
    } else if (c as u32) < 0x800 {
        2
    } else if (c as u32) < 0x1_0000 {
        3
    } else {
        4
    }
}

/// Bytes `s` takes in UTF-8.
pub open spec fn utf8_len(s: Seq<char>) -> nat
    decreases s.len(),
{
    if s.len() == 0 {
        0
    } else {
        utf8_len(s.drop_last()) + utf8_width(s.last())
    }
}

/// Whether `draft` takes fewer than `MAX_DRAFT_BYTES` bytes in UTF-8.
fn draft_has_room(draft: &Vec<char>) -> (r: bool)
    ensures
        r == (utf8_len(draft@) < MAX_DRAFT_BYTES),
{
    let mut bytes: usize = 0;
    let mut i: usize = 0;
    while i < draft.len()
        invariant
            i <= draft@.len(),
            bytes == utf8_len(draft@.take(i as int)),
            bytes < MAX_DRAFT_BYTES,
        decreases draft@.len() - i,
    {
        assert(draft@.take(i + 1).drop_last() =~= draft@.take(i as int));
        let c = draft[i];
        let code: u32 = c as u32;
        let width: usize = if code < 0x80 {
            1
        } else if code < 0x800 {
            2
        } else if code < 0x1_0000 {
            3
        } else {
            4
        };
        bytes = bytes + width;
        i = i + 1;
        if bytes >= MAX_DRAFT_BYTES {
            proof {
                lemma_utf8_len_prefix(draft@, i as int);
            }
            return false;
        }
    }
    assert(draft@.take(i as int) =~= draft@);
    true
}

proof fn lemma_utf8_len_prefix(s: Seq<char>, k: int)
    requires
        0 <= k <= s.len(),
    ensures
        utf8_len(s.take(k)) <= utf8_len(s),
    decreases s.len() - k,
{
    if k < s.len() {
        lemma_utf8_len_prefix(s, k + 1);
        assert(s.take(k + 1).drop_last() =~= s.take(k));
    } else {
        assert(s.take(k) =~= s);
    }
}

/// What a key typed into the preset editor does.
#[derive(Debug, PartialEq, Eq)]
pub enum EditOutcome {
    /// No field is being edited.
    Ignored,
    /// Enter: save the presets.
    Save,
    /// The field's new text (unchanged for a key that is not taken).
    Draft(Vec<char>),
}

pub enum EditOutcomeView {
    Ignored,
    Save,
    Draft(Seq<char>),
}

impl View for EditOutcome {
    type V = EditOutcomeView;

    open spec fn view(&self) -> EditOutcomeView {
        match self {
            EditOutcome::Ignored => EditOutcomeView::Ignored,
            EditOutcome::Save => EditOutcomeView::Save,
            EditOutcome::Draft(d) => EditOutcomeView::Draft(d@),
        }
    }
}

/// The preset editor's answer to `character` (a UTF-16 code unit or code point) while field
/// `editing` holds `draft`: Enter saves, Backspace drops the last character, an ASCII digit is
/// appended while the draft has fewer than five bytes, and anything else leaves it as it is.
pub open spec fn spec_edit_character(editing: Option<usize>, draft: Seq<char>, character: u32) -> EditOutcomeView {
    if editing is None {
        EditOutcomeView::Ignored
    } else if character == 13 {
        EditOutcomeView::Save
    } else if character == 8 {
        EditOutcomeView::Draft(if draft.len() == 0 {
            draft
        } else {
            draft.drop_last()
        })
    } else if 0x30 <= character <= 0x39 && utf8_len(draft) < MAX_DRAFT_BYTES {
        EditOutcomeView::Draft(draft.push(character as char))
    } else {
        EditOutcomeView::Draft(draft)
    }
}

pub fn edit_character(editing: Option<usize>, draft: &Vec<char>, character: u32) -> (r: EditOutcome)
    ensures
        r@ == spec_edit_character(editing, draft@, character),
{
    if editing.is_none() {
        return EditOutcome::Ignored;
    }
    if character == 13 {
        return EditOutcome::Save;
    }
    let mut next = draft.clone();
    if character == 8 {
        if next.len() > 0 {
            next.pop();
        }
    } else if 0x30 <= character && character <= 0x39 && draft_has_room(draft) {
        let digit: u8 = character as u8;
        next.push(digit as char);
    }
    EditOutcome::Draft(next)
}

/// The value a preset draft names: its trimmed text read as a `u16` (a leading `+` allowed),
/// when that is positive.
pub open spec fn spec_draft_value(draft: Seq<char>) -> Option<u16> {
    match spec_parse_unsigned(trim(draft)) {
        Some(v) => if 0 < v <= u16::MAX {
            Some(v as u16)
        } else {
            None
        },
        None => None,
    }
}

/// The presets a save applies: every draft must name a value from 1 to 65535; otherwise the
/// save is refused with the preset notice.
pub open spec fn spec_presets_from_drafts(drafts: Seq<Seq<char>>) -> Result<Seq<u16>, SettingsNotice> {
    if forall|i: int| 0 <= i < 4 ==> (#[trigger] spec_draft_value(drafts[i])) is Some {
        Ok(Seq::new(4, |i: int| spec_draft_value(drafts[i]).unwrap()))
    } else {
        Err(SettingsNotice::InvalidPreset)
    }
}

fn draft_value(draft: &Vec<char>) -> (r: Option<u16>)
    ensures
        r == spec_draft_value(draft@),
{
    let (a, b) = trim_range(draft, 0, draft.len());
    assert(draft@.subrange(0, draft@.len() as int) =~= draft@);
    match parse_unsigned(draft, a, b, 0xffff) {
        Some(v) => if v > 0 {
            Some(v as u16)
        } else {
            None
        },
        None => None,
    }
}

pub fn presets_from_drafts(drafts: &[Vec<char>; 4]) -> (r: Result<[u16; 4], SettingsNotice>)
    ensures
        match r {
            Ok(p) => spec_presets_from_drafts(drafts@.map_values(|d: Vec<char>| d@)) == Ok::<
                Seq<u16>,
                SettingsNotice,
            >(p@),
            Err(e) => spec_presets_from_drafts(drafts@.map_values(|d: Vec<char>| d@)) == Err::<
                Seq<u16>,
                SettingsNotice,
            >(e),
        },
{
    let ghost all = drafts@.map_values(|d: Vec<char>| d@);
    let v0 = draft_value(&drafts[0]);
    let v1 = draft_value(&drafts[1]);
    let v2 = draft_value(&drafts[2]);
    let v3 = draft_value(&drafts[3]);
    assert(all[0] == drafts@[0]@ && all[1] == drafts@[1]@ && all[2] == drafts@[2]@ && all[3]
        == drafts@[3]@);
    match (v0, v1, v2, v3) {
        (Some(a), Some(b), Some(c), Some(d)) => {
            let presets = [a, b, c, d];
            assert(presets@ =~= Seq::new(4, |i: int| spec_draft_value(all[i]).unwrap()));
            Ok(presets)
        },
        _ => {
            assert(!(forall|i: int| 0 <= i < 4 ==> (#[trigger] spec_draft_value(all[i])) is Some)) by {
                if v0 is None {
                    assert(spec_draft_value(all[0]) is None);
                } else if v1 is None {
                    assert(spec_draft_value(all[1]) is None);
                } else if v2 is None {
                    assert(spec_draft_value(all[2]) is None);
                } else {
                    assert(spec_draft_value(all[3]) is None);
                }
            }
            Err(SettingsNotice::InvalidPreset)
        },
    }
}

} // verus!
