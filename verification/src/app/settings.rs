use vstd::prelude::*;

use crate::strings::{chars_of, digit_char, push_decimal, push_str, spec_decimal, string_from, string_of};

verus! {

pub const DEFAULT_PRESETS: [u16; 4] = [400, 800, 1600, 3200];

pub const DEFAULT_THRESHOLD: u8 = 20;

/// Longest remembered device identifier.
pub const MAX_DEVICE_ID: usize = 128;

#[derive(Debug, Clone, Copy, PartialEq, Eq, Structural)]
pub enum Theme {
    System,
    Light,
    Dark,
}

impl Default for Theme {
    fn default() -> (r: Self)
        ensures
            r == Theme::System,
    {
        Theme::System
    }
}

#[derive(Debug, Clone, Copy, PartialEq, Eq, Structural)]
pub enum Language {
    English,
    SimplifiedChinese,
}

#[derive(Debug, PartialEq, Eq)]
pub struct Settings {
    pub presets: [u16; 4],
    pub theme: Theme,
    pub language: Option<Language>,
    pub startup: bool,
    pub battery_notifications: bool,
    pub battery_threshold: u8,
    pub device: Option<String>,
}

pub struct SettingsView {
    pub presets: Seq<u16>,
    pub theme: Theme,
    pub language: Option<Language>,
    pub startup: bool,
    pub battery_notifications: bool,
    pub battery_threshold: u8,
    pub device: Option<Seq<char>>,
}

pub open spec fn string_option_view(s: Option<String>) -> Option<Seq<char>> {
    match s {
        Some(v) => Some(v@),
        None => None,
    }
}

impl View for Settings {
    type V = SettingsView;

    open spec fn view(&self) -> SettingsView {
        SettingsView {
            presets: self.presets@,
            theme: self.theme,
            language: self.language,
            startup: self.startup,
            battery_notifications: self.battery_notifications,
            battery_threshold: self.battery_threshold,
            device: string_option_view(self.device),
        }
    }
}

pub fn clone_string_option(s: &Option<String>) -> (r: Option<String>)
    ensures
        string_option_view(r) == string_option_view(*s),
{
    match s {
        Some(v) => Some(v.clone()),
        None => None,
    }
}

impl Clone for Settings {
    fn clone(&self) -> (r: Self)
        ensures
            r@ == self@,
    {
        Settings {
            presets: self.presets,
            theme: self.theme,
            language: self.language,
            startup: self.startup,
            battery_notifications: self.battery_notifications,
            battery_threshold: self.battery_threshold,
            device: clone_string_option(&self.device),
        }
    }
}

pub open spec fn default_settings() -> SettingsView {
    SettingsView {
        presets: seq![400u16, 800u16, 1600u16, 3200u16],
        theme: Theme::System,
        language: None,
        startup: false,
        battery_notifications: true,
        battery_threshold: DEFAULT_THRESHOLD,
        device: None,
    }
}

impl Default for Settings {
    fn default() -> (r: Self)
        ensures
            r@ == default_settings(),
    {
        let r = Settings {
            presets: DEFAULT_PRESETS,
            theme: Theme::System,
            language: None,
            startup: false,
            battery_notifications: true,
            battery_threshold: DEFAULT_THRESHOLD,
            device: None,
        };
        assert(r.presets@ =~= seq![400u16, 800u16, 1600u16, 3200u16]);
        r
    }
}

/// Index of the first `c` in `s` at or after `i`, or the length of `s`.
pub open spec fn index_of_from(s: Seq<char>, c: char, i: int) -> int
    decreases s.len() - i,
{
    if i < 0 || i >= s.len() {
        s.len() as int
    } else if s[i] == c {
        i
    } else {
        index_of_from(s, c, i + 1)
    }
}

pub open spec fn index_of(s: Seq<char>, c: char) -> int {
    index_of_from(s, c, 0)
}

pub proof fn lemma_index_of_bounds(s: Seq<char>, c: char, i: int)
    requires
        0 <= i <= s.len(),
    ensures
        i <= index_of_from(s, c, i) <= s.len(),
        index_of_from(s, c, i) < s.len() ==> s[index_of_from(s, c, i)] == c,
        forall|j: int| i <= j < index_of_from(s, c, i) ==> s[j] != c,
    decreases s.len() - i,
{
    if i < s.len() && s[i] != c {
        lemma_index_of_bounds(s, c, i + 1);
    }
}

/// `s` without one trailing carriage return.
pub open spec fn strip_cr(s: Seq<char>) -> Seq<char> {
    if s.len() > 0 && s.last() == '\r' {
        s.drop_last()
    } else {
        s
    }
}

/// `str::lines`: pieces between `\n`, each without a trailing `\r` before its `\n`; a final
/// piece without `\n` is kept as is when nonempty.
pub open spec fn split_lines(s: Seq<char>) -> Seq<Seq<char>>
    decreases s.len(),
{
    if s.len() == 0 {
        Seq::empty()
    } else {
        let i = index_of(s, '\n');
        if i >= s.len() || i < 0 {
            seq![s]
        } else {
            seq![strip_cr(s.take(i))] + split_lines(s.skip(i + 1))
        }
    }
}

/// `char::is_whitespace` (Unicode White_Space).
pub open spec fn is_whitespace(c: char) -> bool {
    ('\u{9}' <= c && c <= '\u{d}') || c == ' ' || c == '\u{85}' || c == '\u{a0}' || c
        == '\u{1680}' || ('\u{2000}' <= c && c <= '\u{200a}') || c == '\u{2028}' || c
        == '\u{2029}' || c == '\u{202f}' || c == '\u{205f}' || c == '\u{3000}'
}

pub open spec fn trim_start(s: Seq<char>) -> Seq<char>
    decreases s.len(),
{
    if s.len() > 0 && is_whitespace(s[0]) {
        trim_start(s.drop_first())
    } else {
        s
    }
}

pub open spec fn trim_end(s: Seq<char>) -> Seq<char>
    decreases s.len(),
{
    if s.len() > 0 && is_whitespace(s.last()) {
        trim_end(s.drop_last())
    } else {
        s
    }
}

pub open spec fn trim(s: Seq<char>) -> Seq<char> {
    trim_end(trim_start(s))
}

pub open spec fn is_digit(c: char) -> bool {
    '0' <= c && c <= '9'
}

pub open spec fn digits_value(s: Seq<char>) -> nat
    decreases s.len(),
{
    if s.len() == 0 {
        0
    } else {
        digits_value(s.drop_last()) * 10 + (s.last() as nat - '0' as nat) as nat
    }
}

pub open spec fn all_digits(s: Seq<char>) -> bool {
    forall|i: int| 0 <= i < s.len() ==> is_digit(#[trigger] s[i])
}

/// Unsigned integer `FromStr`: an optional `+`, then one or more decimal digits.
pub open spec fn spec_parse_unsigned(s: Seq<char>) -> Option<nat> {
    let digits = if s.len() > 0 && s[0] == '+' {
        s.drop_first()
    } else {
        s
    };
    if digits.len() > 0 && all_digits(digits) {
        Some(digits_value(digits))
    } else {
        None
    }
}

/// A preset is a positive `u16`; anything else keeps the slot's default.
pub open spec fn spec_parse_preset(value: Seq<char>, fallback: u16) -> u16 {
    match spec_parse_unsigned(value) {
        Some(v) => if 0 < v <= u16::MAX {
            v as u16
        } else {
            fallback
        },
        None => fallback,
    }
}

pub open spec fn spec_parse_bool(value: Seq<char>, fallback: bool) -> bool {
    if value == "true"@ {
        true
    } else if value == "false"@ {
        false
    } else {
        fallback
    }
}

/// Low-battery thresholds run from 5 through 50 in five-point steps.
pub open spec fn valid_threshold(v: int) -> bool {
    5 <= v <= 50 && v % 5 == 0
}

pub open spec fn spec_parse_threshold(value: Seq<char>, fallback: u8) -> u8 {
    match spec_parse_unsigned(value) {
        Some(v) => if v <= u8::MAX && valid_threshold(v as int) {
            v as u8
        } else {
            fallback
        },
        None => fallback,
    }
}

pub open spec fn device_char(c: char) -> bool {
    ('a' <= c && c <= 'z') || ('0' <= c && c <= '9') || c == '-' || c == '_'
}

/// A remembered device is a derived identifier: 1 to 128 lower-case ASCII letters, digits,
/// `-` or `_`.
pub open spec fn valid_device(value: Seq<char>) -> bool {
    &&& 0 < value.len() <= MAX_DEVICE_ID
    &&& forall|i: int| 0 <= i < value.len() ==> device_char(#[trigger] value[i])
}

pub open spec fn spec_parse_theme(value: Seq<char>) -> Theme {
    if value == "light"@ {
        Theme::Light
    } else if value == "dark"@ {
        Theme::Dark
    } else {
        Theme::System
    }
}

pub open spec fn spec_parse_language(value: Seq<char>) -> Option<Language> {
    if value == "en"@ {
        Some(Language::English)
    } else if value == "zh-CN"@ {
        Some(Language::SimplifiedChinese)
    } else {
        None
    }
}

/// What a trimmed `key` and `value` do: a known key sets its field (a malformed value falls
/// back to that field's default); an unknown key changes nothing.
pub open spec fn spec_apply_field(s: SettingsView, key: Seq<char>, value: Seq<char>) -> SettingsView {
    if key == "preset1"@ {
        SettingsView { presets: s.presets.update(0, spec_parse_preset(value, 400)), ..s }
    } else if key == "preset2"@ {
        SettingsView { presets: s.presets.update(1, spec_parse_preset(value, 800)), ..s }
    } else if key == "preset3"@ {
        SettingsView { presets: s.presets.update(2, spec_parse_preset(value, 1600)), ..s }
    } else if key == "preset4"@ {
        SettingsView { presets: s.presets.update(3, spec_parse_preset(value, 3200)), ..s }
    } else if key == "theme"@ {
        SettingsView { theme: spec_parse_theme(value), ..s }
    } else if key == "language"@ {
        SettingsView { language: spec_parse_language(value), ..s }
    } else if key == "startup"@ {
        SettingsView { startup: spec_parse_bool(value, false), ..s }
    } else if key == "battery_notifications"@ {
        SettingsView { battery_notifications: spec_parse_bool(value, true), ..s }
    } else if key == "battery_threshold"@ {
        SettingsView {
            battery_threshold: spec_parse_threshold(value, DEFAULT_THRESHOLD),
            ..s
        }
    } else if key == "device"@ {
        SettingsView {
            device: if valid_device(value) {
                Some(value)
            } else {
                None
            },
            ..s
        }
    } else {
        s
    }
}

/// One `key=value` line: keys and values are trimmed; a line without `=` changes nothing.
pub open spec fn spec_apply_line(s: SettingsView, line: Seq<char>) -> SettingsView {
    let eq = index_of(line, '=');
    if eq >= line.len() {
        s
    } else {
        spec_apply_field(s, trim(line.take(eq)), trim(line.skip(eq + 1)))
    }
}

pub open spec fn spec_apply_lines(s: SettingsView, lines: Seq<Seq<char>>) -> SettingsView
    decreases lines.len(),
{
    if lines.len() == 0 {
        s
    } else {
        spec_apply_lines(spec_apply_line(s, lines[0]), lines.drop_first())
    }
}

/// The settings a file's text describes: the defaults, updated line by line.
pub open spec fn spec_parse(input: Seq<char>) -> SettingsView {
    spec_apply_lines(default_settings(), split_lines(input))
}

fn first_index(chars: &Vec<char>, c: char, start: usize, end: usize) -> (r: usize)
    requires
        start <= end <= chars@.len(),
    ensures
        r == start + index_of(chars@.subrange(start as int, end as int), c),
        start <= r <= end,
{
    let ghost s = chars@.subrange(start as int, end as int);
    let mut i = start;
    while i < end
        invariant
            start <= i <= end <= chars@.len(),
            s == chars@.subrange(start as int, end as int),
            index_of(s, c) == index_of_from(s, c, i - start),
        decreases end - i,
    {
        if chars[i] == c {
            return i;
        }
        i = i + 1;
    }
    i
}

fn range_is(chars: &Vec<char>, start: usize, end: usize, literal: &str) -> (r: bool)
    requires
        start <= end <= chars@.len(),
    ensures
        r == (chars@.subrange(start as int, end as int) == literal@),
{
    let expected = chars_of(literal);
    if end - start != expected.len() {
        return false;
    }
    let mut i: usize = 0;
    while i < expected.len()
        invariant
            start <= end <= chars@.len(),
            end - start == expected@.len(),
            expected@ == literal@,
            i <= expected@.len(),
            forall|j: int| 0 <= j < i ==> chars@[start + j] == expected@[j],
        decreases expected@.len() - i,
    {
        if chars[start + i] != expected[i] {
            assert(chars@.subrange(start as int, end as int)[i as int] != literal@[i as int]);
            return false;
        }
        i = i + 1;
    }
    assert(chars@.subrange(start as int, end as int) =~= literal@);
    true
}

fn whitespace(c: char) -> (r: bool)
    ensures
        r == is_whitespace(c),
{
    ('\u{9}' <= c && c <= '\u{d}') || c == ' ' || c == '\u{85}' || c == '\u{a0}' || c
        == '\u{1680}' || ('\u{2000}' <= c && c <= '\u{200a}') || c == '\u{2028}' || c
        == '\u{2029}' || c == '\u{202f}' || c == '\u{205f}' || c == '\u{3000}'
}

pub(crate) fn trim_range(chars: &Vec<char>, start: usize, end: usize) -> (r: (usize, usize))
    requires
        start <= end <= chars@.len(),
    ensures
        start <= r.0 <= r.1 <= end,
        chars@.subrange(r.0 as int, r.1 as int) == trim(chars@.subrange(start as int, end as int)),
{
    let mut a = start;
    while a < end && whitespace(chars[a])
        invariant
            start <= a <= end <= chars@.len(),
            trim_start(chars@.subrange(start as int, end as int)) == trim_start(
                chars@.subrange(a as int, end as int),
            ),
        decreases end - a,
    {
        assert(chars@.subrange(a as int, end as int).drop_first() =~= chars@.subrange(a + 1, end as int));
        a = a + 1;
    }
    let mut b = end;
    while b > a && whitespace(chars[b - 1])
        invariant
            start <= a <= b <= end <= chars@.len(),
            trim_end(chars@.subrange(a as int, end as int)) == trim_end(
                chars@.subrange(a as int, b as int),
            ),
        decreases b - a,
    {
        assert(chars@.subrange(a as int, b as int).drop_last() =~= chars@.subrange(a as int, b - 1));
        b = b - 1;
    }
    (a, b)
}

proof fn lemma_digits_value_prefix(s: Seq<char>, k: int)
    requires
        0 <= k <= s.len(),
    ensures
        digits_value(s.take(k)) <= digits_value(s),
    decreases s.len() - k,
{
    if k < s.len() {
        lemma_digits_value_prefix(s, k + 1);
        assert(s.take(k + 1).drop_last() =~= s.take(k));
    } else {
        assert(s.take(k) =~= s);
    }
}

/// Parses `chars[start..end]` as an unsigned integer no larger than `max`.
#[verifier::loop_isolation(false)]
pub(crate) fn parse_unsigned(chars: &Vec<char>, start: usize, end: usize, max: u32) -> (r: Option<u32>)
    requires
        start <= end <= chars@.len(),
        max <= 0xffff,
    ensures
        r == match spec_parse_unsigned(chars@.subrange(start as int, end as int)) {
            Some(v) => if v <= max {
                Some(v as u32)
            } else {
                None::<u32>
            },
            None => None,
        },
{
    let ghost s = chars@.subrange(start as int, end as int);
    let mut a = start;
    if a < end && chars[a] == '+' {
        a = a + 1;
    }
    let ghost digits = chars@.subrange(a as int, end as int);
    assert(digits =~= if s.len() > 0 && s[0] == '+' {
        s.drop_first()
    } else {
        s
    });
    if a == end {
        return None;
    }
    let mut value: u32 = 0;
    let mut i = a;
    while i < end
        invariant
            start <= a <= i <= end <= chars@.len(),
            max <= 0xffff,
            digits == chars@.subrange(a as int, end as int),
            all_digits(digits.take(i - a)),
            value == digits_value(digits.take(i - a)),
            value <= max,
        decreases end - i,
    {
        let c = chars[i];
        if !('0' <= c && c <= '9') {
            assert(!is_digit(digits[i - a]));
            assert(!all_digits(digits));
            return None;
        }
        let d = (c as u32) - ('0' as u32);
        assert(digits.take(i - a + 1).drop_last() =~= digits.take(i - a));
        assert(digits.take(i - a + 1).last() == c);
        let next = value * 10 + d;
        if next > max {
            proof {
                lemma_digits_value_prefix(digits, i - a + 1);
            }
            return None;
        }
        value = next;
        i = i + 1;
        assert(all_digits(digits.take(i - a))) by {
            assert forall|j: int| 0 <= j < i - a implies is_digit(#[trigger] digits.take(i - a)[j]) by {
                if j < i - a - 1 {
                    assert(digits.take(i - a)[j] == digits.take(i - a - 1)[j]);
                }
            }
        }
    }
    assert(digits.take(end - a) =~= digits);
    Some(value)
}


fn preset_value(chars: &Vec<char>, start: usize, end: usize, fallback: u16) -> (r: u16)
    requires
        start <= end <= chars@.len(),
    ensures
        r == spec_parse_preset(chars@.subrange(start as int, end as int), fallback),
{
    match parse_unsigned(chars, start, end, 0xffff) {
        Some(v) => if v > 0 {
            v as u16
        } else {
            fallback
        },
        None => fallback,
    }
}

fn bool_value(chars: &Vec<char>, start: usize, end: usize, fallback: bool) -> (r: bool)
    requires
        start <= end <= chars@.len(),
    ensures
        r == spec_parse_bool(chars@.subrange(start as int, end as int), fallback),
{
    if range_is(chars, start, end, "true") {
        true
    } else if range_is(chars, start, end, "false") {
        false
    } else {
        fallback
    }
}

fn threshold_value(chars: &Vec<char>, start: usize, end: usize, fallback: u8) -> (r: u8)
    requires
        start <= end <= chars@.len(),
    ensures
        r == spec_parse_threshold(chars@.subrange(start as int, end as int), fallback),
{
    match parse_unsigned(chars, start, end, 0xff) {
        Some(v) => if 5 <= v && v <= 50 && v % 5 == 0 {
            v as u8
        } else {
            fallback
        },
        None => fallback,
    }
}

fn device_value(chars: &Vec<char>, start: usize, end: usize) -> (r: Option<String>)
    requires
        start <= end <= chars@.len(),
    ensures
        string_option_view(r) == if valid_device(chars@.subrange(start as int, end as int)) {
            Some(chars@.subrange(start as int, end as int))
        } else {
            None
        },
{
    let ghost value = chars@.subrange(start as int, end as int);
    if start == end || end - start > MAX_DEVICE_ID {
        return None;
    }
    let mut i = start;
    while i < end
        invariant
            start <= i <= end <= chars@.len(),
            value == chars@.subrange(start as int, end as int),
            forall|j: int| 0 <= j < i - start ==> device_char(#[trigger] value[j]),
        decreases end - i,
    {
        let c = chars[i];
        if !(('a' <= c && c <= 'z') || ('0' <= c && c <= '9') || c == '-' || c == '_') {
            assert(!device_char(value[i - start]));
            return None;
        }
        i = i + 1;
    }
    Some(string_of(chars.as_slice(), start, end))
}

fn theme_value(chars: &Vec<char>, start: usize, end: usize) -> (r: Theme)
    requires
        start <= end <= chars@.len(),
    ensures
        r == spec_parse_theme(chars@.subrange(start as int, end as int)),
{
    if range_is(chars, start, end, "light") {
        Theme::Light
    } else if range_is(chars, start, end, "dark") {
        Theme::Dark
    } else {
        Theme::System
    }
}

fn language_value(chars: &Vec<char>, start: usize, end: usize) -> (r: Option<Language>)
    requires
        start <= end <= chars@.len(),
    ensures
        r == spec_parse_language(chars@.subrange(start as int, end as int)),
{
    if range_is(chars, start, end, "en") {
        Some(Language::English)
    } else if range_is(chars, start, end, "zh-CN") {
        Some(Language::SimplifiedChinese)
    } else {
        None
    }
}

fn apply_line(settings: &mut Settings, chars: &Vec<char>, start: usize, end: usize)
    requires
        start <= end <= chars@.len(),
    ensures
        final(settings)@ == spec_apply_line(old(settings)@, chars@.subrange(start as int, end as int)),
{
    let ghost line = chars@.subrange(start as int, end as int);
    let eq = first_index(chars, '=', start, end);
    if eq == end {
        return;
    }
    assert(line.take(eq - start) =~= chars@.subrange(start as int, eq as int));
    assert(line.skip(eq - start + 1) =~= chars@.subrange(eq + 1, end as int));
    let (ka, kb) = trim_range(chars, start, eq);
    let (va, vb) = trim_range(chars, eq + 1, end);
    let p = settings.presets;
    if range_is(chars, ka, kb, "preset1") {
        settings.presets = [preset_value(chars, va, vb, 400), p[1], p[2], p[3]];
        assert(settings.presets@ =~= p@.update(0, settings.presets[0]));
    } else if range_is(chars, ka, kb, "preset2") {
        settings.presets = [p[0], preset_value(chars, va, vb, 800), p[2], p[3]];
        assert(settings.presets@ =~= p@.update(1, settings.presets[1]));
    } else if range_is(chars, ka, kb, "preset3") {
        settings.presets = [p[0], p[1], preset_value(chars, va, vb, 1600), p[3]];
        assert(settings.presets@ =~= p@.update(2, settings.presets[2]));
    } else if range_is(chars, ka, kb, "preset4") {
        settings.presets = [p[0], p[1], p[2], preset_value(chars, va, vb, 3200)];
        assert(settings.presets@ =~= p@.update(3, settings.presets[3]));
    } else if range_is(chars, ka, kb, "theme") {
        settings.theme = theme_value(chars, va, vb);
    } else if range_is(chars, ka, kb, "language") {
        settings.language = language_value(chars, va, vb);
    } else if range_is(chars, ka, kb, "startup") {
        settings.startup = bool_value(chars, va, vb, false);
    } else if range_is(chars, ka, kb, "battery_notifications") {
        settings.battery_notifications = bool_value(chars, va, vb, true);
    } else if range_is(chars, ka, kb, "battery_threshold") {
        settings.battery_threshold = threshold_value(chars, va, vb, DEFAULT_THRESHOLD);
    } else if range_is(chars, ka, kb, "device") {
        settings.device = device_value(chars, va, vb);
    }
}

proof fn lemma_apply_lines_cons(s: SettingsView, line: Seq<char>, rest: Seq<Seq<char>>)
    ensures
        spec_apply_lines(s, seq![line] + rest) == spec_apply_lines(spec_apply_line(s, line), rest),
{
    let all = seq![line] + rest;
    assert(all[0] == line);
    assert(all.drop_first() =~= rest);
}

fn push_line(s: &mut String, key: &str, value: &str)
    ensures
        final(s)@ == old(s)@ + key_line(key@, value@) + seq!['\n'],
{
    push_str(s, key);
    push_str(s, "=");
    push_str(s, value);
    push_str(s, "\n");
    proof {
        reveal_strlit("=");
        reveal_strlit("\n");
        assert(s@ =~= old(s)@ + key_line(key@, value@) + seq!['\n']);
    }
}

fn push_decimal_line(s: &mut String, key: &str, value: u64)
    ensures
        final(s)@ == old(s)@ + key_line(key@, spec_decimal(value as nat)) + seq!['\n'],
{
    push_str(s, key);
    push_str(s, "=");
    push_decimal(s, value);
    push_str(s, "\n");
    proof {
        reveal_strlit("=");
        reveal_strlit("\n");
        assert(s@ =~= old(s)@ + key_line(key@, spec_decimal(value as nat)) + seq!['\n']);
    }
}

impl Settings {
    /// Tolerant `key=value` parsing: malformed fields fall back individually, unknown fields
    /// are ignored.
    pub fn parse(input: &str) -> (r: Self)
        ensures
            r@ == spec_parse(input@),
    {
        let chars = chars_of(input);
        let n = chars.len();
        let mut settings = Settings::default();
        let mut pos: usize = 0;
        assert(chars@.skip(0) =~= chars@);
        while pos < n
            invariant
                n == chars@.len(),
                chars@ == input@,
                pos <= n,
                spec_apply_lines(settings@, split_lines(chars@.skip(pos as int))) == spec_parse(input@),
            decreases n - pos,
        {
            let ghost rest = chars@.skip(pos as int);
            let nl = first_index(&chars, '\n', pos, n);
            assert(chars@.subrange(pos as int, n as int) =~= rest);
            proof {
                lemma_index_of_bounds(rest, '\n', 0);
            }
            let mut line_end = nl;
            if nl < n && line_end > pos && chars[line_end - 1] == '\r' {
                line_end = line_end - 1;
            }
            let ghost before = settings@;
            apply_line(&mut settings, &chars, pos, line_end);
            let ghost line = chars@.subrange(pos as int, line_end as int);
            if nl < n {
                proof {
                    let i = nl - pos;
                    assert(rest.take(i) =~= chars@.subrange(pos as int, nl as int));
                    assert(strip_cr(rest.take(i)) =~= line);
                    assert(rest.skip(i + 1) =~= chars@.skip(nl + 1));
                    assert(split_lines(rest) == seq![line] + split_lines(chars@.skip(nl + 1)));
                    lemma_apply_lines_cons(before, line, split_lines(chars@.skip(nl + 1)));
                }
                pos = nl + 1;
            } else {
                proof {
                    assert(line =~= rest);
                    assert(split_lines(rest) == seq![line]);
                    assert(chars@.skip(n as int) =~= Seq::<char>::empty());
                    assert(split_lines(chars@.skip(n as int)) =~= Seq::<Seq<char>>::empty());
                    lemma_apply_lines_cons(before, line, Seq::<Seq<char>>::empty());
                    assert(seq![line] + Seq::<Seq<char>>::empty() =~= seq![line]);
                }
                pos = n;
            }
        }
        assert(chars@.skip(n as int) =~= Seq::<char>::empty());
        settings
    }

    pub fn serialize(&self) -> (r: String)
        ensures
            r@ == spec_serialize(self@),
    {
        let mut s = String::new();
        let ghost mut lines: Seq<Seq<char>> = Seq::empty();
        proof {
            reveal_strlit("preset1");
            reveal_strlit("preset2");
            reveal_strlit("preset3");
            reveal_strlit("preset4");
        }
        push_decimal_line(&mut s, "preset1", self.presets[0] as u64);
        proof {
            lemma_join_push(lines, key_line("preset1"@, spec_decimal(self.presets[0] as nat)));
            lines = lines.push(key_line("preset1"@, spec_decimal(self.presets[0] as nat)));
        }
        push_decimal_line(&mut s, "preset2", self.presets[1] as u64);
        proof {
            lemma_join_push(lines, key_line("preset2"@, spec_decimal(self.presets[1] as nat)));
            lines = lines.push(key_line("preset2"@, spec_decimal(self.presets[1] as nat)));
        }
        push_decimal_line(&mut s, "preset3", self.presets[2] as u64);
        proof {
            lemma_join_push(lines, key_line("preset3"@, spec_decimal(self.presets[2] as nat)));
            lines = lines.push(key_line("preset3"@, spec_decimal(self.presets[2] as nat)));
        }
        push_decimal_line(&mut s, "preset4", self.presets[3] as u64);
        proof {
            lemma_join_push(lines, key_line("preset4"@, spec_decimal(self.presets[3] as nat)));
            lines = lines.push(key_line("preset4"@, spec_decimal(self.presets[3] as nat)));
        }
        push_line(&mut s, "theme", theme_text(self.theme));
        proof {
            lemma_join_push(lines, key_line("theme"@, spec_theme_text(self.theme)@));
            lines = lines.push(key_line("theme"@, spec_theme_text(self.theme)@));
        }
        match self.language {
            Some(Language::English) => {
                push_line(&mut s, "language", "en");
                proof {
                    lemma_join_push(lines, key_line("language"@, "en"@));
                    lines = lines.push(key_line("language"@, "en"@));
                }
            },
            Some(Language::SimplifiedChinese) => {
                push_line(&mut s, "language", "zh-CN");
                proof {
                    lemma_join_push(lines, key_line("language"@, "zh-CN"@));
                    lines = lines.push(key_line("language"@, "zh-CN"@));
                }
            },
            None => {},
        }
        push_line(&mut s, "startup", bool_text(self.startup));
        proof {
            lemma_join_push(lines, key_line("startup"@, spec_bool_text(self.startup)@));
            lines = lines.push(key_line("startup"@, spec_bool_text(self.startup)@));
        }
        push_line(&mut s, "battery_notifications", bool_text(self.battery_notifications));
        proof {
            lemma_join_push(lines, key_line("battery_notifications"@, spec_bool_text(self.battery_notifications)@));
            lines = lines.push(key_line("battery_notifications"@, spec_bool_text(self.battery_notifications)@));
        }
        push_decimal_line(&mut s, "battery_threshold", self.battery_threshold as u64);
        proof {
            lemma_join_push(lines, key_line("battery_threshold"@, spec_decimal(self.battery_threshold as nat)));
            lines = lines.push(key_line("battery_threshold"@, spec_decimal(self.battery_threshold as nat)));
        }
        match &self.device {
            Some(device) => {
                push_line(&mut s, "device", device.as_str());
                proof {
                    lemma_join_push(lines, key_line("device"@, device@));
                    lines = lines.push(key_line("device"@, device@));
                }
            },
            None => {},
        }
        proof {
            assert(lines =~= saved_lines(self@));
        }
        s
    }
}

pub open spec fn spec_theme_text(theme: Theme) -> &'static str {
    match theme {
        Theme::System => "system",
        Theme::Light => "light",
        Theme::Dark => "dark",
    }
}

fn theme_text(theme: Theme) -> (r: &'static str)
    ensures
        r == spec_theme_text(theme),
{
    match theme {
        Theme::System => "system",
        Theme::Light => "light",
        Theme::Dark => "dark",
    }
}

pub open spec fn spec_bool_text(value: bool) -> &'static str {
    if value {
        "true"
    } else {
        "false"
    }
}

fn bool_text(value: bool) -> (r: &'static str)
    ensures
        r == spec_bool_text(value),
{
    if value {
        "true"
    } else {
        "false"
    }
}

/// The file text: one `key=value` line per field, each ended by a line feed, presets first;
/// `language` and `device` lines only when set.
pub open spec fn spec_serialize(s: SettingsView) -> Seq<char> {
    join_lines(saved_lines(s))
}


/// Settings that a save and a reload give back unchanged: positive presets, a threshold on the
/// five-point grid and, when set, a well-formed remembered device.
pub open spec fn savable(s: SettingsView) -> bool {
    &&& s.presets.len() == 4
    &&& forall|i: int| 0 <= i < 4 ==> s.presets[i] > 0
    &&& valid_threshold(s.battery_threshold as int)
    &&& match s.device {
        Some(d) => valid_device(d),
        None => true,
    }
}

/// A `key=value` line.
pub open spec fn key_line(key: Seq<char>, value: Seq<char>) -> Seq<char> {
    key + seq!['='] + value
}

/// Each line followed by a line feed.
pub open spec fn join_lines(lines: Seq<Seq<char>>) -> Seq<char>
    decreases lines.len(),
{
    if lines.len() == 0 {
        Seq::empty()
    } else {
        join_lines(lines.drop_last()) + lines.last() + seq!['\n']
    }
}

proof fn lemma_join_push(lines: Seq<Seq<char>>, line: Seq<char>)
    ensures
        join_lines(lines.push(line)) == join_lines(lines) + line + seq!['\n'],
{
    assert(lines.push(line).drop_last() =~= lines);
}

proof fn lemma_join_front(lines: Seq<Seq<char>>)
    requires
        lines.len() > 0,
    ensures
        join_lines(lines) == lines[0] + seq!['\n'] + join_lines(lines.drop_first()),
    decreases lines.len(),
{
    if lines.len() == 1 {
        assert(lines.drop_last() =~= Seq::<Seq<char>>::empty());
        assert(lines.drop_first() =~= Seq::<Seq<char>>::empty());
        assert(join_lines(lines) =~= lines[0] + seq!['\n'] + join_lines(lines.drop_first()));
    } else {
        lemma_join_front(lines.drop_last());
        assert(lines.drop_last().drop_first() =~= lines.drop_first().drop_last());
        assert(lines.drop_last()[0] == lines[0]);
        assert(lines.drop_first().last() == lines.last());
        assert(join_lines(lines) =~= lines[0] + seq!['\n'] + join_lines(lines.drop_first()));
    }
}

/// The preset and theme lines a save writes.
pub open spec fn head_lines(s: SettingsView) -> Seq<Seq<char>> {
    seq![
        key_line("preset1"@, spec_decimal(s.presets[0] as nat)),
        key_line("preset2"@, spec_decimal(s.presets[1] as nat)),
        key_line("preset3"@, spec_decimal(s.presets[2] as nat)),
        key_line("preset4"@, spec_decimal(s.presets[3] as nat)),
        key_line("theme"@, spec_theme_text(s.theme)@),
    ]
}

/// The language line, only when a language was chosen.
pub open spec fn language_lines(language: Option<Language>) -> Seq<Seq<char>> {
    match language {
        Some(Language::English) => seq![key_line("language"@, "en"@)],
        Some(Language::SimplifiedChinese) => seq![key_line("language"@, "zh-CN"@)],
        None => Seq::empty(),
    }
}

/// The startup and low-battery lines.
pub open spec fn tail_lines(s: SettingsView) -> Seq<Seq<char>> {
    seq![
        key_line("startup"@, spec_bool_text(s.startup)@),
        key_line("battery_notifications"@, spec_bool_text(s.battery_notifications)@),
        key_line("battery_threshold"@, spec_decimal(s.battery_threshold as nat)),
    ]
}

/// The device line, only when a device is remembered.
pub open spec fn device_lines(device: Option<Seq<char>>) -> Seq<Seq<char>> {
    match device {
        Some(d) => seq![key_line("device"@, d)],
        None => Seq::empty(),
    }
}

/// The lines a save writes, in order.
pub open spec fn saved_lines(s: SettingsView) -> Seq<Seq<char>> {
    head_lines(s) + language_lines(s.language) + tail_lines(s) + device_lines(s.device)
}

pub proof fn lemma_decimal_digits(n: nat)
    ensures
        spec_decimal(n).len() > 0,
        all_digits(spec_decimal(n)),
        spec_decimal(n)[0] != '+',
        digits_value(spec_decimal(n)) == n,
        !is_whitespace(spec_decimal(n)[0]),
        !is_whitespace(spec_decimal(n).last()),
        !spec_decimal(n).contains('\n'),
        !spec_decimal(n).contains('='),
    decreases n,
{
    if n >= 10 {
        lemma_decimal_digits(n / 10);
        let d = spec_decimal(n);
        let prefix = spec_decimal(n / 10);
        assert(d == prefix.push(digit_char((n % 10) as int)));
        assert(d.drop_last() =~= prefix);
        assert(d[0] == prefix[0]);
        let k = (n % 10) as int;
        assert(digit_char(k) as nat - '0' as nat == k);
        assert(d.last() == digit_char(k));
        assert((n / 10) * 10 + n % 10 == n);
        assert(digits_value(d.drop_last()) == n / 10);
        assert(digits_value(d) == digits_value(d.drop_last()) * 10 + (d.last() as nat - '0' as nat) as nat);
        assert(digits_value(d) == (n / 10) * 10 + k);
        assert forall|i: int| 0 <= i < d.len() implies is_digit(#[trigger] d[i]) by {
            if i < prefix.len() {
                assert(d[i] == prefix[i]);
            }
        }
        assert(!d.contains('\n')) by {
            if d.contains('\n') {
                let i = choose|i: int| 0 <= i < d.len() && d[i] == '\n';
                assert(is_digit(d[i]));
            }
        }
        assert(!d.contains('=')) by {
            if d.contains('=') {
                let i = choose|i: int| 0 <= i < d.len() && d[i] == '=';
                assert(is_digit(d[i]));
            }
        }
    } else {
        let d = spec_decimal(n);
        assert(d.drop_last() =~= Seq::<char>::empty());
        assert(digit_char(n as int) as nat - '0' as nat == n);
        assert(digits_value(d) == digits_value(d.drop_last()) * 10 + (d.last() as nat - '0' as nat) as nat);
        assert(!d.contains('\n')) by {
            if d.contains('\n') {
                let i = choose|i: int| 0 <= i < d.len() && d[i] == '\n';
                assert(i == 0);
            }
        }
        assert(!d.contains('=')) by {
            if d.contains('=') {
                let i = choose|i: int| 0 <= i < d.len() && d[i] == '=';
                assert(i == 0);
            }
        }
    }
}

proof fn lemma_first_newline(s: Seq<char>, p: int)
    requires
        0 <= p < s.len(),
        s[p] == '\n',
        forall|k: int| 0 <= k < p ==> s[k] != '\n',
    ensures
        index_of(s, '\n') == p,
{
    lemma_index_of_bounds(s, '\n', 0);
    let i = index_of(s, '\n');
    if i < p {
        assert(s[i] == '\n');
    } else if i > p {
        assert(s[p] != '\n');
    }
}

/// A line `str::lines` hands back as it was written.
pub open spec fn plain_line(line: Seq<char>) -> bool {
    &&& !line.contains('\n')
    &&& (line.len() == 0 || line.last() != '\r')
}

proof fn lemma_split_join(lines: Seq<Seq<char>>)
    requires
        forall|i: int| 0 <= i < lines.len() ==> plain_line(#[trigger] lines[i]),
    ensures
        split_lines(join_lines(lines)) == lines,
    decreases lines.len(),
{
    if lines.len() > 0 {
        let first = lines[0];
        let rest = lines.drop_first();
        let tail = join_lines(rest);
        let text = first + seq!['\n'] + tail;
        lemma_join_front(lines);
        assert(plain_line(first));
        assert forall|k: int| 0 <= k < first.len() implies text[k] != '\n' by {
            assert(text[k] == first[k]);
            if first[k] == '\n' {
                assert(first.contains('\n'));
            }
        }
        assert(text[first.len() as int] == '\n');
        lemma_first_newline(text, first.len() as int);
        assert(text.take(first.len() as int) =~= first);
        assert(text.skip(first.len() as int + 1) =~= tail);
        assert forall|i: int| 0 <= i < rest.len() implies plain_line(#[trigger] rest[i]) by {
            assert(rest[i] == lines[i + 1]);
        }
        lemma_split_join(rest);
        assert(seq![first] + rest =~= lines);
    }
}



/// A key or value that trimming leaves as it is.
pub open spec fn untrimmed(x: Seq<char>) -> bool {
    x.len() > 0 && !is_whitespace(x[0]) && !is_whitespace(x.last())
}

/// A character a saved key or value may hold: one a remembered device may use, or an
/// upper-case ASCII letter.
pub open spec fn word_char(c: char) -> bool {
    device_char(c) || ('A' <= c && c <= 'Z')
}

/// Nonempty text made only of word characters.
pub open spec fn word(x: Seq<char>) -> bool {
    x.len() > 0 && forall|i: int| 0 <= i < x.len() ==> word_char(#[trigger] x[i])
}

proof fn lemma_word(x: Seq<char>)
    requires
        word(x),
    ensures
        untrimmed(x),
        !x.contains('\n'),
        !x.contains('='),
        x.last() != '\r',
{
    assert(word_char(x[0]));
    assert(word_char(x[x.len() - 1]));
    if x.contains('\n') {
        let i = choose|i: int| 0 <= i < x.len() && x[i] == '\n';
        assert(word_char(x[i]));
    }
    if x.contains('=') {
        let i = choose|i: int| 0 <= i < x.len() && x[i] == '=';
        assert(word_char(x[i]));
    }
}

proof fn lemma_decimal_word(n: nat)
    ensures
        word(spec_decimal(n)),
{
    lemma_decimal_digits(n);
    let d = spec_decimal(n);
    assert forall|i: int| 0 <= i < d.len() implies word_char(#[trigger] d[i]) by {
        assert(is_digit(d[i]));
    }
}

proof fn lemma_trim_keeps(x: Seq<char>)
    requires
        untrimmed(x),
    ensures
        trim(x) == x,
{
    assert(trim_start(x) == x);
    assert(trim_end(x) == x);
}

proof fn lemma_key_line(t: SettingsView, key: Seq<char>, value: Seq<char>)
    requires
        word(key),
        word(value),
    ensures
        spec_apply_line(t, key_line(key, value)) == spec_apply_field(t, key, value),
        plain_line(key_line(key, value)),
{
    lemma_word(key);
    lemma_word(value);
    let line = key_line(key, value);
    lemma_index_of_bounds(line, '=', 0);
    let eq = index_of(line, '=');
    assert(line[key.len() as int] == '=');
    if eq < key.len() {
        assert(line[eq] == key[eq]);
        assert(key.contains('='));
    }
    assert(eq == key.len());
    assert(line.take(eq) =~= key);
    assert(line.skip(eq + 1) =~= value);
    lemma_trim_keeps(key);
    lemma_trim_keeps(value);
    assert(line.last() == value.last());
    if line.contains('\n') {
        let i = choose|i: int| 0 <= i < line.len() && line[i] == '\n';
        if i < key.len() {
            assert(line[i] == key[i]);
            assert(key.contains('\n'));
        } else if i > key.len() {
            assert(line[i] == value[i - key.len() - 1]);
            assert(value.contains('\n'));
        }
    }
}

proof fn lemma_apply_concat(t: SettingsView, a: Seq<Seq<char>>, b: Seq<Seq<char>>)
    ensures
        spec_apply_lines(t, a + b) == spec_apply_lines(spec_apply_lines(t, a), b),
    decreases a.len(),
{
    if a.len() == 0 {
        assert(a + b =~= b);
    } else {
        assert((a + b)[0] == a[0]);
        assert((a + b).drop_first() =~= a.drop_first() + b);
        lemma_apply_concat(spec_apply_line(t, a[0]), a.drop_first(), b);
    }
}

proof fn lemma_keys()
    ensures
        word("preset1"@),
        word("preset2"@),
        word("preset3"@),
        word("preset4"@),
        word("theme"@),
        word("language"@),
        word("startup"@),
        word("battery_notifications"@),
        word("battery_threshold"@),
        word("device"@),
        word("en"@),
        word("zh-CN"@),
        word("true"@),
        word("false"@),
        word("system"@),
        word("light"@),
        word("dark"@),
{
    reveal_strlit("preset1");
    reveal_strlit("preset2");
    reveal_strlit("preset3");
    reveal_strlit("preset4");
    reveal_strlit("theme");
    reveal_strlit("language");
    reveal_strlit("startup");
    reveal_strlit("battery_notifications");
    reveal_strlit("battery_threshold");
    reveal_strlit("device");
    reveal_strlit("en");
    reveal_strlit("zh-CN");
    reveal_strlit("true");
    reveal_strlit("false");
    reveal_strlit("system");
    reveal_strlit("light");
    reveal_strlit("dark");
}

proof fn lemma_device_word(d: Seq<char>)
    requires
        valid_device(d),
    ensures
        word(d),
{
    assert forall|i: int| 0 <= i < d.len() implies word_char(#[trigger] d[i]) by {
        assert(device_char(d[i]));
    }
}

proof fn lemma_keys_differ()
    ensures
        "preset2"@ != "preset1"@,
        "preset3"@ != "preset1"@,
        "preset3"@ != "preset2"@,
        "preset4"@ != "preset1"@,
        "preset4"@ != "preset2"@,
        "preset4"@ != "preset3"@,
        "startup"@ != "preset1"@,
        "startup"@ != "preset2"@,
        "startup"@ != "preset3"@,
        "startup"@ != "preset4"@,
{
    reveal_strlit("preset1");
    reveal_strlit("preset2");
    reveal_strlit("preset3");
    reveal_strlit("preset4");
    reveal_strlit("startup");
    assert("preset2"@[6] != "preset1"@[6]);
    assert("preset3"@[6] != "preset1"@[6]);
    assert("preset3"@[6] != "preset2"@[6]);
    assert("preset4"@[6] != "preset1"@[6]);
    assert("preset4"@[6] != "preset2"@[6]);
    assert("preset4"@[6] != "preset3"@[6]);
    assert("startup"@[0] != "preset1"@[0]);
    assert("startup"@[0] != "preset2"@[0]);
    assert("startup"@[0] != "preset3"@[0]);
    assert("startup"@[0] != "preset4"@[0]);
}

proof fn lemma_apply_one(t: SettingsView, line: Seq<char>)
    ensures
        spec_apply_lines(t, seq![line]) == spec_apply_line(t, line),
{
    assert(seq![line].drop_first() =~= Seq::<Seq<char>>::empty());
    assert(seq![line][0] == line);
    reveal_with_fuel(spec_apply_lines, 2);
}

proof fn lemma_parse_decimal(n: nat, fallback: u16, fallback_threshold: u8)
    ensures
        0 < n <= u16::MAX ==> spec_parse_preset(spec_decimal(n), fallback) == n,
        n <= u8::MAX && valid_threshold(n as int) ==> spec_parse_threshold(spec_decimal(n), fallback_threshold) == n,
{
    lemma_decimal_digits(n);
    assert(spec_parse_unsigned(spec_decimal(n)) == Some(n));
}

#[verifier::rlimit(30)]
proof fn lemma_apply_head(s: SettingsView)
    requires
        savable(s),
    ensures
        spec_apply_lines(default_settings(), head_lines(s)) == (SettingsView {
            presets: s.presets,
            theme: s.theme,
            ..default_settings()
        }),
        forall|i: int| 0 <= i < head_lines(s).len() ==> plain_line(#[trigger] head_lines(s)[i]),
{
    lemma_keys();
    lemma_keys_differ();
    reveal_strlit("preset1");
    reveal_strlit("preset2");
    reveal_strlit("preset3");
    reveal_strlit("preset4");
    reveal_strlit("theme");
    reveal_strlit("language");
    reveal_strlit("startup");
    reveal_strlit("battery_notifications");
    reveal_strlit("battery_threshold");
    reveal_strlit("device");
    reveal_strlit("system");
    reveal_strlit("light");
    reveal_strlit("dark");
    let p0 = spec_decimal(s.presets[0] as nat);
    let p1 = spec_decimal(s.presets[1] as nat);
    let p2 = spec_decimal(s.presets[2] as nat);
    let p3 = spec_decimal(s.presets[3] as nat);
    let theme = spec_theme_text(s.theme)@;
    lemma_decimal_word(s.presets[0] as nat);
    lemma_decimal_word(s.presets[1] as nat);
    lemma_decimal_word(s.presets[2] as nat);
    lemma_decimal_word(s.presets[3] as nat);
    lemma_decimal_digits(s.presets[0] as nat);
    lemma_decimal_digits(s.presets[1] as nat);
    lemma_decimal_digits(s.presets[2] as nat);
    lemma_decimal_digits(s.presets[3] as nat);
    assert(word(theme));
    assert(s.presets[0] > 0 && s.presets[1] > 0 && s.presets[2] > 0 && s.presets[3] > 0);
    lemma_parse_decimal(s.presets[0] as nat, 400, 20);
    lemma_parse_decimal(s.presets[1] as nat, 800, 20);
    lemma_parse_decimal(s.presets[2] as nat, 1600, 20);
    lemma_parse_decimal(s.presets[3] as nat, 3200, 20);
    let d0 = default_settings();
    let t1 = spec_apply_field(d0, "preset1"@, p0);
    let t2 = spec_apply_field(t1, "preset2"@, p1);
    let t3 = spec_apply_field(t2, "preset3"@, p2);
    let t4 = spec_apply_field(t3, "preset4"@, p3);
    let t5 = spec_apply_field(t4, "theme"@, theme);
    lemma_key_line(d0, "preset1"@, p0);
    lemma_key_line(t1, "preset2"@, p1);
    lemma_key_line(t2, "preset3"@, p2);
    lemma_key_line(t3, "preset4"@, p3);
    lemma_key_line(t4, "theme"@, theme);
    reveal_with_fuel(spec_apply_lines, 6);
    assert(t1.presets == d0.presets.update(0, s.presets[0]));
    assert(t2.presets == t1.presets.update(1, s.presets[1]));
    assert(t3.presets == t2.presets.update(2, s.presets[2]));
    assert(t4.presets == t3.presets.update(3, s.presets[3]));
    assert(t5.presets == t4.presets);
    assert(t5.presets =~= s.presets);
    assert(spec_apply_lines(d0, head_lines(s)) == t5);
}

proof fn lemma_apply_language(t: SettingsView, language: Option<Language>)
    requires
        t.language is None,
    ensures
        spec_apply_lines(t, language_lines(language)) == (SettingsView { language, ..t }),
        forall|i: int| 0 <= i < language_lines(language).len() ==> plain_line(#[trigger] language_lines(language)[i]),
{
    lemma_keys();
    lemma_keys_differ();
    reveal_strlit("preset1");
    reveal_strlit("preset2");
    reveal_strlit("preset3");
    reveal_strlit("preset4");
    reveal_strlit("theme");
    reveal_strlit("language");
    reveal_strlit("startup");
    reveal_strlit("battery_notifications");
    reveal_strlit("battery_threshold");
    reveal_strlit("device");
    reveal_strlit("en");
    reveal_strlit("zh-CN");
    match language {
        Some(Language::English) => {
            lemma_apply_one(t, key_line("language"@, "en"@));
            lemma_key_line(t, "language"@, "en"@);
        },
        Some(Language::SimplifiedChinese) => {
            lemma_apply_one(t, key_line("language"@, "zh-CN"@));
            lemma_key_line(t, "language"@, "zh-CN"@);
        },
        None => {},
    }
}

#[verifier::rlimit(30)]
proof fn lemma_apply_tail(t: SettingsView, s: SettingsView)
    requires
        valid_threshold(s.battery_threshold as int),
    ensures
        spec_apply_lines(t, tail_lines(s)) == (SettingsView {
            startup: s.startup,
            battery_notifications: s.battery_notifications,
            battery_threshold: s.battery_threshold,
            ..t
        }),
        forall|i: int| 0 <= i < tail_lines(s).len() ==> plain_line(#[trigger] tail_lines(s)[i]),
{
    lemma_keys();
    lemma_keys_differ();
    reveal_strlit("preset1");
    reveal_strlit("preset2");
    reveal_strlit("preset3");
    reveal_strlit("preset4");
    reveal_strlit("theme");
    reveal_strlit("language");
    reveal_strlit("startup");
    reveal_strlit("battery_notifications");
    reveal_strlit("battery_threshold");
    reveal_strlit("device");
    reveal_strlit("true");
    reveal_strlit("false");
    let startup = spec_bool_text(s.startup)@;
    let notify = spec_bool_text(s.battery_notifications)@;
    let th = spec_decimal(s.battery_threshold as nat);
    lemma_decimal_word(s.battery_threshold as nat);
    lemma_decimal_digits(s.battery_threshold as nat);
    assert(word(startup));
    assert(word(notify));
    lemma_parse_decimal(s.battery_threshold as nat, 400, DEFAULT_THRESHOLD);
    let t7 = spec_apply_field(t, "startup"@, startup);
    let t8 = spec_apply_field(t7, "battery_notifications"@, notify);
    let t9 = spec_apply_field(t8, "battery_threshold"@, th);
    lemma_key_line(t, "startup"@, startup);
    lemma_key_line(t7, "battery_notifications"@, notify);
    lemma_key_line(t8, "battery_threshold"@, th);
    reveal_with_fuel(spec_apply_lines, 4);
    assert(spec_apply_lines(t, tail_lines(s)) == t9);
}

proof fn lemma_apply_device(t: SettingsView, device: Option<Seq<char>>)
    requires
        t.device is None,
        match device {
            Some(d) => valid_device(d),
            None => true,
        },
    ensures
        spec_apply_lines(t, device_lines(device)) == (SettingsView { device, ..t }),
        forall|i: int| 0 <= i < device_lines(device).len() ==> plain_line(#[trigger] device_lines(device)[i]),
{
    lemma_keys();
    lemma_keys_differ();
    reveal_strlit("preset1");
    reveal_strlit("preset2");
    reveal_strlit("preset3");
    reveal_strlit("preset4");
    reveal_strlit("theme");
    reveal_strlit("language");
    reveal_strlit("startup");
    reveal_strlit("battery_notifications");
    reveal_strlit("battery_threshold");
    reveal_strlit("device");
    match device {
        Some(d) => {
            lemma_device_word(d);
            lemma_apply_one(t, key_line("device"@, d));
            lemma_key_line(t, "device"@, d);
        },
        None => {},
    }
}

proof fn lemma_plain_concat(a: Seq<Seq<char>>, b: Seq<Seq<char>>)
    requires
        forall|i: int| 0 <= i < a.len() ==> plain_line(#[trigger] a[i]),
        forall|i: int| 0 <= i < b.len() ==> plain_line(#[trigger] b[i]),
    ensures
        forall|i: int| 0 <= i < (a + b).len() ==> plain_line(#[trigger] (a + b)[i]),
{
    assert forall|i: int| 0 <= i < (a + b).len() implies plain_line(#[trigger] (a + b)[i]) by {
        if i < a.len() {
            assert((a + b)[i] == a[i]);
        } else {
            assert((a + b)[i] == b[i - a.len()]);
        }
    }
}

/// Saving and reloading gives back every savable setting unchanged.
pub proof fn law_saved_settings_reload(s: SettingsView)
    requires
        savable(s),
    ensures
        spec_parse(spec_serialize(s)) == s,
{
    let head = head_lines(s);
    let lang = language_lines(s.language);
    let tail = tail_lines(s);
    let dev = device_lines(s.device);
    let t5 = SettingsView { presets: s.presets, theme: s.theme, ..default_settings() };
    let t6 = SettingsView { language: s.language, ..t5 };
    let t9 = SettingsView {
        startup: s.startup,
        battery_notifications: s.battery_notifications,
        battery_threshold: s.battery_threshold,
        ..t6
    };
    lemma_apply_head(s);
    lemma_apply_language(t5, s.language);
    lemma_apply_tail(t6, s);
    lemma_apply_device(t9, s.device);
    lemma_apply_concat(default_settings(), head + lang + tail, dev);
    lemma_apply_concat(default_settings(), head + lang, tail);
    lemma_apply_concat(default_settings(), head, lang);
    lemma_plain_concat(head, lang);
    lemma_plain_concat(head + lang, tail);
    lemma_plain_concat(head + lang + tail, dev);
    lemma_split_join(saved_lines(s));
}

/// A line that chooses a language: its trimmed key is `language` and its trimmed value is
/// `en` or `zh-CN`.
pub open spec fn names_language(line: Seq<char>) -> bool {
    let eq = index_of(line, '=');
    &&& eq < line.len()
    &&& trim(line.take(eq)) == "language"@
    &&& spec_parse_language(trim(line.skip(eq + 1))) is Some
}

proof fn lemma_apply_line_savable(s: SettingsView, line: Seq<char>)
    requires
        savable(s),
    ensures
        savable(spec_apply_line(s, line)),
        spec_apply_line(s, line).language is Some ==> s.language is Some || names_language(line),
{
    assert(valid_threshold(DEFAULT_THRESHOLD as int));
    let eq = index_of(line, '=');
    if eq < line.len() {
        let key = trim(line.take(eq));
        let value = trim(line.skip(eq + 1));
        let t = spec_apply_field(s, key, value);
        assert(t.presets.len() == 4);
        assert forall|i: int| 0 <= i < 4 implies t.presets[i] > 0 by {
            if key == "preset1"@ || key == "preset2"@ || key == "preset3"@ || key == "preset4"@ {
                assert(s.presets[i] > 0);
            }
        }
    }
}

proof fn lemma_apply_lines_savable(s: SettingsView, lines: Seq<Seq<char>>)
    requires
        savable(s),
    ensures
        savable(spec_apply_lines(s, lines)),
        spec_apply_lines(s, lines).language is Some ==> s.language is Some || exists|i: int|
            0 <= i < lines.len() && names_language(#[trigger] lines[i]),
    decreases lines.len(),
{
    if lines.len() > 0 {
        let t = spec_apply_line(s, lines[0]);
        lemma_apply_line_savable(s, lines[0]);
        lemma_apply_lines_savable(t, lines.drop_first());
        if spec_apply_lines(s, lines).language is Some && s.language is None {
            if t.language is Some {
                assert(names_language(lines[0]));
            } else {
                let j = choose|j: int|
                    0 <= j < lines.drop_first().len() && names_language(
                        #[trigger] lines.drop_first()[j],
                    );
                assert(lines.drop_first()[j] == lines[j + 1]);
            }
        }
    }
}

/// Whatever text is read, the settings it gives are savable: four positive presets, a
/// threshold from 5 to 50 in steps of 5 and, when set, a well-formed remembered device.
/// A language is set only when some line chooses `en` or `zh-CN`. Saving them and reading
/// them back therefore gives the same settings again.
pub proof fn law_parsed_settings_are_savable(input: Seq<char>)
    ensures
        savable(spec_parse(input)),
        spec_parse(input).language is Some ==> exists|i: int|
            0 <= i < split_lines(input).len() && names_language(#[trigger] split_lines(input)[i]),
        spec_parse(spec_serialize(spec_parse(input))) == spec_parse(input),
{
    assert(valid_threshold(DEFAULT_THRESHOLD as int));
    lemma_apply_lines_savable(default_settings(), split_lines(input));
    law_saved_settings_reload(spec_parse(input));
}

} // verus!
