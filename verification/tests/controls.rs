use logipeek::app::controls::{
    begin_slider, commit_slider, contains, edit_character, hit_target, preview_slider,
    presets_from_drafts, scale, slider_hit, unscale, EditOutcome, HitTarget, Rect, SliderCommit,
};
use logipeek::app::state::{DeviceStatus, SettingsNotice};
use logipeek::hid::features::dpi::DpiValues;

fn chars(text: &str) -> Vec<char> {
    text.chars().collect()
}

#[test]
fn scaling_rounds_half_up_and_toward_zero() {
    assert_eq!(scale(48, 96), 48);
    assert_eq!(scale(48, 144), 72);
    assert_eq!(scale(344, 144), 516);
    assert_eq!(unscale(780, 192), 390);
    assert_eq!(unscale(-1, 96), 0);
    assert_eq!(unscale(-200, 96), -199);
    assert_eq!(unscale(100, 0), 9600);
}

#[test]
fn rectangles_include_left_and_top_edges_only() {
    let rect = Rect { left: 10, top: 20, width: 5, height: 5 };
    assert!(contains(rect, 10, 20));
    assert!(contains(rect, 14, 24));
    assert!(!contains(rect, 15, 24));
    assert!(!contains(rect, 14, 25));
    assert!(!contains(Rect { left: i32::MAX, top: 0, width: 10, height: 10 }, i32::MIN, 5));
}

#[test]
fn pointer_hits_each_control() {
    assert_eq!(hit_target(96, 390, 30), Some(HitTarget::Refresh));
    assert_eq!(hit_target(192, 780, 60), Some(HitTarget::Refresh));
    assert_eq!(hit_target(96, 40, 340), Some(HitTarget::Slider));
    assert_eq!(hit_target(96, 140, 410), Some(HitTarget::Preset(1)));
    assert_eq!(hit_target(96, 330, 410), Some(HitTarget::Preset(3)));
    assert_eq!(hit_target(96, 120, 410), None);
    assert_eq!(hit_target(96, 140, 510), Some(HitTarget::Edit(1)));
    assert_eq!(hit_target(96, 130, 575), Some(HitTarget::Theme(1)));
    assert_eq!(hit_target(96, 310, 610), Some(HitTarget::Save));
    assert_eq!(hit_target(96, 0, 0), None);
    assert!(slider_hit(96, 401, 369));
    assert!(!slider_hit(96, 402, 369));
}

#[test]
fn slider_gesture_previews_and_commits_once() {
    let values = DpiValues::List(vec![400, 800, 1600, 3200]);
    assert_eq!(preview_slider(Some(&values), 96, 48), Some(400));
    assert_eq!(preview_slider(Some(&values), 96, 48 + 344), Some(3200));
    assert_eq!(preview_slider(Some(&values), 96, 1000), Some(3200));
    assert_eq!(preview_slider(None, 96, 100), None);
    assert_eq!(begin_slider(DeviceStatus::Unavailable, Some(&values), 96, 48), None);
    assert_eq!(begin_slider(DeviceStatus::Single, None, 96, 48), None);
    assert_eq!(begin_slider(DeviceStatus::Single, Some(&values), 96, 48), Some(Some(400)));
    assert_eq!(commit_slider(Some(800), 800), SliderCommit::ClearPreview);
    assert_eq!(commit_slider(Some(800), 1600), SliderCommit::Submit(1600));
    assert_eq!(commit_slider(None, 400), SliderCommit::Submit(400));
}

#[test]
fn preset_editor_takes_digits_backspace_and_enter() {
    assert_eq!(edit_character(None, &chars("12"), '5' as u32), EditOutcome::Ignored);
    assert_eq!(edit_character(Some(0), &chars("12"), 13), EditOutcome::Save);
    assert_eq!(edit_character(Some(0), &chars("12"), 8), EditOutcome::Draft(chars("1")));
    assert_eq!(edit_character(Some(0), &chars(""), 8), EditOutcome::Draft(chars("")));
    assert_eq!(edit_character(Some(2), &chars("12"), '5' as u32), EditOutcome::Draft(chars("125")));
    assert_eq!(edit_character(Some(2), &chars("12345"), '6' as u32), EditOutcome::Draft(chars("12345")));
    assert_eq!(edit_character(Some(2), &chars("123é"), '6' as u32), EditOutcome::Draft(chars("123é")));
    assert_eq!(edit_character(Some(2), &chars("12"), 'a' as u32), EditOutcome::Draft(chars("12")));
}

#[test]
fn saving_presets_needs_four_values_from_one_to_65535() {
    let good = [chars("400"), chars(" 800 "), chars("+1600"), chars("3200")];
    assert_eq!(presets_from_drafts(&good), Ok([400, 800, 1600, 3200]));
    let zero = [chars("400"), chars("0"), chars("1600"), chars("3200")];
    assert_eq!(presets_from_drafts(&zero), Err(SettingsNotice::InvalidPreset));
    let large = [chars("70000"), chars("800"), chars("1600"), chars("3200")];
    assert_eq!(presets_from_drafts(&large), Err(SettingsNotice::InvalidPreset));
    let empty = [chars("400"), chars("800"), chars(""), chars("3200")];
    assert_eq!(presets_from_drafts(&empty), Err(SettingsNotice::InvalidPreset));
}
