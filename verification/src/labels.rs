//! Text shown for counts, durations, sessions and keyboards.
use vstd::prelude::*;
use chrono::TimeZone;

use crate::session::{SessionMetadata, UNTITLED_SESSION};
use crate::text::{
    append_chars, append_decimal, append_signed, append_str, chars_of, decimal, decimal_chars,
    group_digits, grouped_thousands, push_char, signed_decimal,
};

verus! {

/// A count with its digits grouped in threes, e.g. `12,345,678`.
pub fn format_exact_count_u128(value: u128) -> (r: String)
    ensures
        r@ == grouped_thousands(decimal(value as nat)),
{
    let digits = decimal_chars(value);
    let grouped = group_digits(&digits);
    let mut r = String::new();
    append_chars(&mut r, &grouped);
    assert(r@ =~= grouped@);
    r
}

/// A count with its digits grouped in threes, e.g. `12,345,678`.
pub fn format_exact_count(value: u64) -> (r: String)
    ensures
        r@ == grouped_thousands(decimal(value as nat)),
{
    format_exact_count_u128(value as u128)
}

/// Two digits at least, padded with a leading zero.
pub open spec fn two_digits(n: nat) -> Seq<char> {
    if n < 10 {
        seq!['0'] + decimal(n)
    } else {
        decimal(n)
    }
}

fn append_two_digits(s: &mut String, n: u64)
    ensures
        final(s)@ == old(s)@ + two_digits(n as nat),
{
    if n < 10 {
        push_char(s, '0');
    }
    append_decimal(s, n as u128);
    assert(final(s)@ =~= old(s)@ + two_digits(n as nat)) by {
        if n < 10 {
            assert(s@ =~= old(s)@.push('0') + decimal(n as nat));
        }
    };
}

/// A captured duration as `HH:MM:SS`.
pub open spec fn duration_text(seconds: nat) -> Seq<char> {
    two_digits(seconds / 3600) + seq![':'] + two_digits((seconds % 3600) / 60) + seq![':']
        + two_digits(seconds % 60)
}

/// A captured duration, given in whole seconds, as `HH:MM:SS`.
pub fn format_duration(seconds: u64) -> (r: String)
    ensures
        r@ == duration_text(seconds as nat),
{
    let mut r = String::new();
    append_two_digits(&mut r, seconds / 3600);
    push_char(&mut r, ':');
    append_two_digits(&mut r, (seconds % 3600) / 60);
    push_char(&mut r, ':');
    append_two_digits(&mut r, seconds % 60);
    assert(r@ =~= duration_text(seconds as nat));
    r
}

/// The first `maximum` characters of `value`, with an ellipsis when more were cut.
pub open spec fn compacted(value: Seq<char>, maximum: nat) -> Seq<char> {
    if value.len() > maximum {
        value.take(maximum as int).push('…')
    } else {
        value
    }
}

/// Shortens `value` to `maximum_characters` characters, marking the cut with an ellipsis.
pub fn compact_label(value: &str, maximum_characters: usize) -> (r: String)
    ensures
        r@ == compacted(value@, maximum_characters as nat),
{
    let chars = chars_of(value);
    let mut r = String::new();
    let mut i: usize = 0;
    while i < chars.len() && i < maximum_characters
        invariant
            i <= chars.len(),
            i <= maximum_characters,
            chars@ == value@,
            r@ == value@.take(i as int),
        decreases chars.len() - i,
    {
        push_char(&mut r, chars[i]);
        assert(value@.take(i as int + 1) =~= value@.take(i as int).push(value@[i as int]));
        i += 1;
    }
    if chars.len() > maximum_characters {
        push_char(&mut r, '…');
    } else {
        assert(value@.take(i as int) =~= value@);
    }
    r
}

/// The top bar shows at most eighteen characters of a device or session name.
pub const TOP_BAR_DEVICE_LABEL_CHARS: usize = 18;

pub fn compact_top_bar_label(value: &str) -> (r: String)
    ensures
        r@ == compacted(value@, TOP_BAR_DEVICE_LABEL_CHARS as nat),
{
    compact_label(value, TOP_BAR_DEVICE_LABEL_CHARS)
}

/// `"1 sample"` or `"12,345 samples"`.
pub open spec fn samples_text(samples: nat) -> Seq<char> {
    grouped_thousands(decimal(samples)) + if samples == 1 {
        " sample"@
    } else {
        " samples"@
    }
}

pub fn sample_count_label(samples: u128) -> (r: String)
    ensures
        r@ == samples_text(samples as nat),
{
    let mut r = format_exact_count_u128(samples);
    if samples == 1 {
        append_str(&mut r, " sample");
    } else {
        append_str(&mut r, " samples");
    }
    r
}

/// `"1 occurrence"` or `"12 occurrences"`.
pub open spec fn occurrences_text(count: nat) -> Seq<char> {
    grouped_thousands(decimal(count)) + if count == 1 {
        " occurrence"@
    } else {
        " occurrences"@
    }
}

pub fn count_label(count: u64) -> (r: String)
    ensures
        r@ == occurrences_text(count as nat),
{
    let mut r = format_exact_count(count);
    if count == 1 {
        append_str(&mut r, " occurrence");
    } else {
        append_str(&mut r, " occurrences");
    }
    r
}

/// The name shown for whitespace and other invisible texts.
pub open spec fn whitespace_name(value: Seq<char>) -> Option<Seq<char>> {
    if value == ""@ {
        Some("Empty text"@)
    } else if value == " "@ {
        Some("Space"@)
    } else if value == "\t"@ {
        Some("Tab"@)
    } else if value == "\n"@ {
        Some("Newline"@)
    } else if value == "\r"@ {
        Some("Carriage return"@)
    } else if value == "\r\n"@ {
        Some("Carriage return + Newline"@)
    } else if value == "\u{00A0}"@ {
        Some("Non-breaking space"@)
    } else if value == "\u{200B}"@ {
        Some("Zero-width space"@)
    } else {
        None
    }
}

pub fn whitespace_label(value: &str) -> (r: Option<&'static str>)
    ensures
        match r {
            Some(l) => whitespace_name(value@) == Some(l@),
            None => whitespace_name(value@) is None,
        },
{
    if crate::text::same_text(value, "") {
        Some("Empty text")
    } else if crate::text::same_text(value, " ") {
        Some("Space")
    } else if crate::text::same_text(value, "\t") {
        Some("Tab")
    } else if crate::text::same_text(value, "\n") {
        Some("Newline")
    } else if crate::text::same_text(value, "\r") {
        Some("Carriage return")
    } else if crate::text::same_text(value, "\r\n") {
        Some("Carriage return + Newline")
    } else if crate::text::same_text(value, "\u{00A0}") {
        Some("Non-breaking space")
    } else if crate::text::same_text(value, "\u{200B}") {
        Some("Zero-width space")
    } else {
        None
    }
}

/// `Keyboard: <name> · XKB: <model> / <layout>[ / <variant>]`.
pub open spec fn keyboard_text(m: SessionMetadata) -> Seq<char> {
    "Keyboard: "@ + match m.keyboard.display_name {
        Some(n) => n@,
        None => "No remembered keyboard"@,
    } + " · XKB: "@ + m.keyboard.model@ + " / "@ + m.keyboard.layout@ + if m.keyboard.variant@.len()
        == 0 {
        Seq::<char>::empty()
    } else {
        " / "@ + m.keyboard.variant@
    }
}

pub fn session_keyboard_label(session: &SessionMetadata) -> (r: String)
    ensures
        r@ == keyboard_text(*session),
{
    let mut r = String::new();
    append_str(&mut r, "Keyboard: ");
    match &session.keyboard.display_name {
        Some(n) => append_str(&mut r, n.as_str()),
        None => append_str(&mut r, "No remembered keyboard"),
    }
    append_str(&mut r, " · XKB: ");
    append_str(&mut r, session.keyboard.model.as_str());
    append_str(&mut r, " / ");
    append_str(&mut r, session.keyboard.layout.as_str());
    if !session.keyboard.variant.as_str().is_empty() {
        append_str(&mut r, " / ");
        append_str(&mut r, session.keyboard.variant.as_str());
    }
    r
}

/// The session's name, as `SessionMetadata::display_name` gives it.
pub open spec fn name_text(m: SessionMetadata) -> Seq<char> {
    match m.name {
        Some(n) => n@,
        None => UNTITLED_SESSION@,
    }
}

/// How a local time is shown: date, time and the offset from UTC.
pub const LOCAL_TIME_PATTERN: &'static str = "%Y-%m-%d %H:%M:%S %:z";

/// Whether every character of `s` is a decimal digit.
pub open spec fn all_digits(s: Seq<char>) -> bool {
    forall|i: int| 0 <= i < s.len() ==> '0' <= #[trigger] s[i] <= '9'
}

/// The value of a run of decimal digits.
pub open spec fn digits_value(s: Seq<char>) -> int
    decreases s.len(),
{
    if s.len() == 0 {
        0
    } else {
        digits_value(s.drop_last()) * 10 + (s.last() as int - '0' as int)
    }
}

/// The value of the two digits of `t` at `i`.
pub open spec fn two_digit_value(t: Seq<char>, i: int) -> int {
    (t[i] as int - '0' as int) * 10 + (t[i + 1] as int - '0' as int)
}

/// The days from 1970-01-01 to a date of the proleptic Gregorian calendar.
pub open spec fn days_from_civil(year: int, month: int, day: int) -> int {
    let y = if month <= 2 {
        year - 1
    } else {
        year
    };
    let era = y / 400;
    let year_of_era = y - era * 400;
    let shifted_month = if month > 2 {
        month - 3
    } else {
        month + 9
    };
    let day_of_year = (153 * shifted_month + 2) / 5 + day - 1;
    let day_of_era = year_of_era * 365 + year_of_era / 4 - year_of_era / 100 + day_of_year;
    era * 146097 + day_of_era - 719468
}

/// The part of a rendering after its year: `-MM-DD hh:mm:ss ±HH:MM`.
pub open spec fn time_tail_ok(r: Seq<char>) -> bool {
    &&& r.len() == 22
    &&& r[0] == '-' && r[3] == '-' && r[6] == ' ' && r[9] == ':' && r[12] == ':' && r[15] == ' '
    &&& (r[16] == '+' || r[16] == '-') && r[19] == ':'
    &&& all_digits(r.subrange(1, 3)) && all_digits(r.subrange(4, 6)) && all_digits(r.subrange(7, 9))
    &&& all_digits(r.subrange(10, 12)) && all_digits(r.subrange(13, 15))
    &&& all_digits(r.subrange(17, 19)) && all_digits(r.subrange(20, 22))
}

/// The digits of a rendered year and whether it is negative: four or more
/// digits, with a sign outside 0 to 9999.
pub open spec fn year_parts(y: Seq<char>) -> (bool, Seq<char>) {
    if y.len() > 0 && y[0] == '-' {
        (true, y.skip(1))
    } else if y.len() > 0 && y[0] == '+' {
        (false, y.skip(1))
    } else {
        (false, y)
    }
}

/// The Unix time in seconds that a rendering `Y-MM-DD hh:mm:ss ±HH:MM` names:
/// its local date and time less its offset; `None` when it has another shape.
pub open spec fn rendered_utc_seconds(t: Seq<char>) -> Option<int> {
    if t.len() < 26 {
        None
    } else {
        let n = t.len() - 22;
        let (negative, digits) = year_parts(t.take(n));
        let r = t.skip(n);
        if digits.len() >= 4 && all_digits(digits) && time_tail_ok(r) {
            let year = if negative {
                -digits_value(digits)
            } else {
                digits_value(digits)
            };
            let local = days_from_civil(year, two_digit_value(r, 1), two_digit_value(r, 4)) * 86400
                + two_digit_value(r, 7) * 3600 + two_digit_value(r, 10) * 60 + two_digit_value(r, 13);
            let offset = two_digit_value(r, 17) * 3600 + two_digit_value(r, 20) * 60;
            Some(
                if r[16] == '-' {
                    local + offset
                } else {
                    local - offset
                },
            )
        } else {
            None
        }
    }
}

/// `t` renders the instant `timestamp_ms`: to the second, up to the rounding
/// of the shown offset to whole minutes.
pub open spec fn renders_instant(t: Seq<char>, timestamp_ms: i64) -> bool {
    rendered_utc_seconds(t) matches Some(u) && timestamp_ms as int / 1000 - 30 <= u
        <= timestamp_ms as int / 1000 + 30
}

/// Instants well inside the dates chrono represents (years -262143 to
/// 262142): within about 253,000 years of 1970.
pub open spec fn in_chrono_range(timestamp_ms: i64) -> bool {
    -8_000_000_000_000_000 <= timestamp_ms <= 8_000_000_000_000_000
}

/// chrono's `Local.timestamp_millis_opt(ms).single()` formatted with `pattern`
/// (`LOCAL_TIME_PATTERN`): the local date, time and offset of the instant in
/// the machine's time zone, or `None` when it is out of chrono's range. It is
/// stated that the rendering has the pattern's shape and that, less its offset,
/// it names the instant; chrono rounds the shown offset to whole minutes. It is
/// stated that an instant within `in_chrono_range` has a rendering:
/// `timestamp_millis_opt` gives a single local time for every instant whose
/// date chrono represents. Which time zone the machine has is not stated.
#[verifier::external_body]
fn chrono_local_timestamp(timestamp_ms: i64, pattern: &str) -> (r: Option<String>)
    requires
        pattern@ == LOCAL_TIME_PATTERN@,
    ensures
        r matches Some(t) ==> renders_instant(t@, timestamp_ms),
        in_chrono_range(timestamp_ms) ==> r is Some,
{
    chrono::Local.timestamp_millis_opt(timestamp_ms).single().map(|t| t.format(pattern).to_string())
}

/// The characters of an optional string.
pub open spec fn text_of(s: Option<String>) -> Option<Seq<char>> {
    match s {
        Some(t) => Some(t@),
        None => None,
    }
}

/// A timestamp as local time, or `<ms> ms since Unix epoch` when it has none.
pub open spec fn timestamp_text(local: Option<Seq<char>>, timestamp_ms: i64) -> Seq<char> {
    match local {
        Some(t) => t,
        None => signed_decimal(timestamp_ms as int) + " ms since Unix epoch"@,
    }
}

/// Formats a timestamp from its local-time rendering, if it has one.
pub fn timestamp_or_epoch(local: Option<String>, timestamp_ms: i64) -> (r: String)
    ensures
        r@ == timestamp_text(text_of(local), timestamp_ms),
{
    match local {
        Some(t) => t,
        None => {
            let mut r = String::new();
            append_signed(&mut r, timestamp_ms);
            append_str(&mut r, " ms since Unix epoch");
            r
        },
    }
}

/// A local time that renders the instant, or none; an instant in chrono's
/// range always has one.
pub open spec fn local_for(local: Option<Seq<char>>, timestamp_ms: i64) -> bool {
    &&& local matches Some(t) ==> renders_instant(t, timestamp_ms)
    &&& in_chrono_range(timestamp_ms) ==> local is Some
}

/// The epoch fallback never reads as a local rendering: so a label whose time
/// renders an instant came from chrono, and the fallback is shown only for an
/// instant chrono cannot place.
pub proof fn lemma_fallback_is_no_rendering(timestamp_ms: i64)
    ensures
        rendered_utc_seconds(timestamp_text(None, timestamp_ms)) is None,
        !renders_instant(timestamp_text(None, timestamp_ms), timestamp_ms),
{
    reveal_strlit(" ms since Unix epoch");
    let d = signed_decimal(timestamp_ms as int);
    let suffix = " ms since Unix epoch"@;
    let t = timestamp_text(None, timestamp_ms);
    assert(t == d + suffix);
    assert(suffix.len() == 20);
    if t.len() >= 26 {
        let n = t.len() - 22;
        let r = t.skip(n);
        assert(r[6] == t[n + 6]);
        assert(t[n + 6] == suffix[4]);
        assert(suffix[4] == 's');
        assert(!time_tail_ok(r));
    }
}

/// A timestamp in local time: the instant as `Y-MM-DD hh:mm:ss ±HH:MM` in the
/// machine's time zone, or `<ms> ms since Unix epoch` when chrono has no such time.
pub fn format_local_timestamp(timestamp_ms: i64) -> (r: String)
    ensures
        exists|local: Option<Seq<char>>| local_for(local, timestamp_ms) && r@ == timestamp_text(local, timestamp_ms),
        in_chrono_range(timestamp_ms) ==> renders_instant(r@, timestamp_ms),
{
    let local = chrono_local_timestamp(timestamp_ms, LOCAL_TIME_PATTERN);
    let ghost lv = text_of(local);
    let r = timestamp_or_epoch(local, timestamp_ms);
    assert(local_for(lv, timestamp_ms) && r@ == timestamp_text(lv, timestamp_ms));
    r
}

/// `<name> — <keyboard> — <time>` for the session switcher.
pub open spec fn selector_text(m: SessionMetadata, time: Seq<char>) -> Seq<char> {
    name_text(m) + " — "@ + match m.keyboard.display_name {
        Some(n) => n@,
        None => "No keyboard"@,
    } + " — "@ + time
}

/// The switcher entry of a session, given the text of its update time.
pub fn selector_label_at(metadata: &SessionMetadata, time: &str) -> (r: String)
    ensures
        r@ == selector_text(*metadata, time@),
{
    let mut r = String::new();
    append_str(&mut r, metadata.display_name());
    append_str(&mut r, " — ");
    match &metadata.keyboard.display_name {
        Some(n) => append_str(&mut r, n.as_str()),
        None => append_str(&mut r, "No keyboard"),
    }
    append_str(&mut r, " — ");
    append_str(&mut r, time);
    r
}

/// The switcher entry of a session: its name, keyboard and local update time.
pub fn session_selector_label(metadata: &SessionMetadata) -> (r: String)
    ensures
        exists|local: Option<Seq<char>>| local_for(local, metadata.updated_at_ms) && r@ == selector_text(*metadata, timestamp_text(local, metadata.updated_at_ms)),
{
    let time = format_local_timestamp(metadata.updated_at_ms);
    selector_label_at(metadata, time.as_str())
}

/// The management-list entry of a session, given the text of its update time.
pub open spec fn manage_text(m: SessionMetadata, time: Seq<char>) -> Seq<char> {
    name_text(m) + " — "@ + time
}

pub fn manage_label_at(session: &SessionMetadata, time: &str) -> (r: String)
    ensures
        r@ == manage_text(*session, time@),
{
    let mut r = String::new();
    append_str(&mut r, session.display_name());
    append_str(&mut r, " — ");
    append_str(&mut r, time);
    r
}

/// The management-list entry of a session: its name and local update time.
pub fn manage_session_label(session: &SessionMetadata) -> (r: String)
    ensures
        exists|local: Option<Seq<char>>| local_for(local, session.updated_at_ms) && r@ == manage_text(*session, timestamp_text(local, session.updated_at_ms)),
{
    let time = format_local_timestamp(session.updated_at_ms);
    manage_label_at(session, time.as_str())
}

} // verus!
