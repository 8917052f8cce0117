//! Keyboard detection from kernel key-capability bitmaps, and the
//! classification, ordering and summary of input-device scan results.
use vstd::prelude::*;

use crate::database::{char_is_whitespace, unicode_white_space};
use crate::sorting::{ranked, sort_ranked, Ranked};
use crate::text::{
    append_str, chars_of, compare_text, lemma_text_lt_transitive, lemma_text_order_antisymmetric,
    lemma_text_order_equal, push_char, same_text, text_lt,
};

verus! {

// Words of a capability file

/// The length of the leading run of non-whitespace characters of `s`.
pub open spec fn word_len(s: Seq<char>) -> nat
    decreases s.len(),
{
    if s.len() == 0 || unicode_white_space(s[0]) {
        0
    } else {
        1 + word_len(s.drop_first())
    }
}

pub proof fn lemma_word_len_bounds(s: Seq<char>)
    ensures
        word_len(s) <= s.len(),
        s.len() > 0 && !unicode_white_space(s[0]) ==> word_len(s) >= 1,
    decreases s.len(),
{
    if s.len() > 0 && !unicode_white_space(s[0]) {
        lemma_word_len_bounds(s.drop_first());
    }
}

/// The whitespace-separated words of `s`, as `str::split_whitespace` yields them.
pub open spec fn split_words(s: Seq<char>) -> Seq<Seq<char>>
    decreases s.len(),
{
    if s.len() == 0 {
        Seq::empty()
    } else if unicode_white_space(s[0]) {
        split_words(s.drop_first())
    } else {
        proof {
            lemma_word_len_bounds(s);
        }
        seq![s.take(word_len(s) as int)] + split_words(s.skip(word_len(s) as int))
    }
}

/// The run `s[i..j]` holds no whitespace and ends at whitespace or at the end.
proof fn lemma_word_len_at(s: Seq<char>, i: int, j: int)
    requires
        0 <= i <= j <= s.len(),
        forall|k: int| i <= k < j ==> !unicode_white_space(#[trigger] s[k]),
        j == s.len() || unicode_white_space(s[j]),
    ensures
        word_len(s.skip(i)) == j - i,
    decreases j - i,
{
    if i < j {
        assert(s.skip(i).drop_first() =~= s.skip(i + 1));
        lemma_word_len_at(s, i + 1, j);
    }
}

/// The characters of each string.
pub open spec fn texts_view(v: Seq<String>) -> Seq<Seq<char>> {
    v.map_values(|t: String| t@)
}

/// The words of `text`, split at whitespace.
pub fn split_words_of(text: &str) -> (r: Vec<String>)
    ensures
        texts_view(r@) == split_words(text@),
{
    let s = chars_of(text);
    let ghost t = text@;
    let mut out: Vec<String> = Vec::new();
    let mut i: usize = 0;
    proof {
        assert(t.skip(0) =~= t);
    }
    while i < s.len()
        invariant
            s@ == t,
            i <= s.len(),
            split_words(t) == texts_view(out@) + split_words(t.skip(i as int)),
        decreases s.len() - i,
    {
        if char_is_whitespace(s[i]) {
            proof {
                assert(t.skip(i as int).drop_first() =~= t.skip(i as int + 1));
            }
            i += 1;
        } else {
            let start = i;
            let mut word = String::new();
            while i < s.len() && !char_is_whitespace(s[i])
                invariant
                    s@ == t,
                    start <= i <= s.len(),
                    word@ == t.subrange(start as int, i as int),
                    forall|k: int| start <= k < i ==> !unicode_white_space(#[trigger] t[k]),
                decreases s.len() - i,
            {
                push_char(&mut word, s[i]);
                proof {
                    assert(t.subrange(start as int, i as int + 1) =~= t.subrange(
                        start as int,
                        i as int,
                    ).push(t[i as int]));
                }
                i += 1;
            }
            proof {
                lemma_word_len_at(t, start as int, i as int);
                let rest = t.skip(start as int);
                assert(rest[0] == t[start as int]);
                assert(rest.take((i - start) as int) =~= t.subrange(start as int, i as int));
                assert(rest.skip((i - start) as int) =~= t.skip(i as int));
                assert(texts_view(out@.push(word)) =~= texts_view(out@).push(word@));
            }
            out.push(word);
        }
    }
    proof {
        assert(split_words(t.skip(i as int)) =~= Seq::<Seq<char>>::empty());
        assert(texts_view(out@) + Seq::<Seq<char>>::empty() =~= texts_view(out@));
    }
    out
}

// Hexadecimal words

/// Why a word is not a hexadecimal `u64`, as `u64::from_str_radix` reports it.
#[derive(Clone, Copy, Debug, PartialEq, Eq, Structural)]
pub enum HexProblem {
    Empty,
    InvalidDigit,
    PosOverflow,
}

/// The value of a hexadecimal digit of either case.
pub open spec fn hex_digit(c: char) -> Option<nat> {
    if '0' <= c <= '9' {
        Some((c as nat - '0' as nat) as nat)
    } else if 'a' <= c <= 'f' {
        Some((c as nat - 'a' as nat + 10) as nat)
    } else if 'A' <= c <= 'F' {
        Some((c as nat - 'A' as nat + 10) as nat)
    } else {
        None
    }
}

/// Reads the digits `d[i..]` after the value `acc`, left to right: the first
/// non-digit is an invalid digit, and a value past `u64::MAX` an overflow.
pub open spec fn hex_scan(d: Seq<char>, i: int, acc: nat) -> Result<nat, HexProblem>
    decreases d.len() - i,
{
    if i < 0 || i >= d.len() {
        Ok(acc)
    } else {
        match hex_digit(d[i]) {
            None => Err(HexProblem::InvalidDigit),
            Some(x) => if acc * 16 + x > u64::MAX {
                Err(HexProblem::PosOverflow)
            } else {
                hex_scan(d, i + 1, acc * 16 + x)
            },
        }
    }
}

/// `u64::from_str_radix(w, 16)`: an optional leading `+`, then at least one digit.
pub open spec fn hex_word(w: Seq<char>) -> Result<nat, HexProblem> {
    if w.len() == 0 {
        Err(HexProblem::Empty)
    } else if w[0] == '+' {
        if w.len() == 1 {
            Err(HexProblem::InvalidDigit)
        } else {
            hex_scan(w, 1, 0)
        }
    } else {
        hex_scan(w, 0, 0)
    }
}

pub proof fn lemma_hex_scan_bounded(d: Seq<char>, i: int, acc: nat)
    requires
        acc <= u64::MAX,
    ensures
        hex_scan(d, i, acc) matches Ok(v) ==> v <= u64::MAX,
    decreases d.len() - i,
{
    if 0 <= i < d.len() {
        if let Some(x) = hex_digit(d[i]) {
            if acc * 16 + x <= u64::MAX {
                lemma_hex_scan_bounded(d, i + 1, acc * 16 + x);
            }
        }
    }
}

fn hex_digit_value(c: char) -> (r: Option<u64>)
    ensures
        match hex_digit(c) {
            Some(x) => r == Some(x as u64),
            None => r is None,
        },
{
    if '0' <= c && c <= '9' {
        Some((c as u64) - ('0' as u64))
    } else if 'a' <= c && c <= 'f' {
        Some((c as u64) - ('a' as u64) + 10)
    } else if 'A' <= c && c <= 'F' {
        Some((c as u64) - ('A' as u64) + 10)
    } else {
        None
    }
}

/// Parses a hexadecimal word as `u64::from_str_radix(word, 16)` does.
pub fn parse_hex_word(word: &str) -> (r: Result<u64, HexProblem>)
    ensures
        match hex_word(word@) {
            Ok(v) => r == Ok::<u64, HexProblem>(v as u64),
            Err(p) => r == Err::<u64, HexProblem>(p),
        },
{
    let d = chars_of(word);
    if d.len() == 0 {
        return Err(HexProblem::Empty);
    }
    let mut i: usize = 0;
    if d[0] == '+' {
        if d.len() == 1 {
            return Err(HexProblem::InvalidDigit);
        }
        i = 1;
    }
    let ghost first = i as int;
    let mut acc: u64 = 0;
    while i < d.len()
        invariant
            d@ == word@,
            d.len() > 0,
            first == (if d@[0] == '+' { 1int } else { 0int }),
            first <= i <= d.len(),
            hex_word(word@) == hex_scan(d@, i as int, acc as nat),
        decreases d.len() - i,
    {
        match hex_digit_value(d[i]) {
            None => {
                return Err(HexProblem::InvalidDigit);
            },
            Some(x) => {
                if acc > (u64::MAX - x) / 16 {
                    assert(acc * 16 + x > u64::MAX) by (nonlinear_arith)
                        requires
                            acc > (u64::MAX - x) / 16,
                            x <= u64::MAX,
                    ;
                    return Err(HexProblem::PosOverflow);
                }
                assert(acc * 16 + x <= u64::MAX) by (nonlinear_arith)
                    requires
                        acc <= (u64::MAX - x) / 16,
                        x <= u64::MAX,
                ;
                acc = acc * 16 + x;
            },
        }
        i += 1;
    }
    Ok(acc)
}

// Capability bitmaps

/// The message of a `ParseIntError` of each kind.
pub open spec fn hex_problem_message(p: HexProblem) -> Seq<char> {
    match p {
        HexProblem::Empty => "cannot parse integer from empty string"@,
        HexProblem::InvalidDigit => "invalid digit found in string"@,
        HexProblem::PosOverflow => "number too large to fit in target type"@,
    }
}

/// A capability word that is not hexadecimal.
#[derive(Debug)]
pub struct CapabilityError {
    pub word: String,
    pub problem: HexProblem,
}

/// What `format!("{:?}", s)` gives for a string: `s` quoted, with the
/// characters that `str::escape_debug` escapes escaped.
pub uninterp spec fn debug_quoted(s: Seq<char>) -> Seq<char>;

/// `format!("{:?}", s)` of a string slice.
#[verifier::external_body]
fn debug_str(s: &str) -> (r: String)
    ensures
        r@ == debug_quoted(s@),
{
    format!("{:?}", s)
}

/// The message of a capability error: the word, quoted, and the parse problem.
pub open spec fn capability_error_message(word: Seq<char>, problem: HexProblem) -> Seq<char> {
    "invalid hexadecimal capability word "@ + debug_quoted(word) + ": "@ + hex_problem_message(problem)
}

impl CapabilityError {
    /// The error's message, with its cause.
    pub fn describe(&self) -> (r: String)
        ensures
            r@ == capability_error_message(self.word@, self.problem),
    {
        let mut r = String::new();
        append_str(&mut r, "invalid hexadecimal capability word ");
        let quoted = debug_str(self.word.as_str());
        append_str(&mut r, quoted.as_str());
        append_str(&mut r, ": ");
        match self.problem {
            HexProblem::Empty => append_str(&mut r, "cannot parse integer from empty string"),
            HexProblem::InvalidDigit => append_str(&mut r, "invalid digit found in string"),
            HexProblem::PosOverflow => append_str(&mut r, "number too large to fit in target type"),
        }
        r
    }
}

/// The values of the words, in order, or the first word that is not hexadecimal.
pub open spec fn parse_words(ws: Seq<Seq<char>>) -> Result<Seq<u64>, (Seq<char>, HexProblem)>
    decreases ws.len(),
{
    if ws.len() == 0 {
        Ok(Seq::empty())
    } else {
        match hex_word(ws[0]) {
            Err(p) => Err((ws[0], p)),
            Ok(v) => match parse_words(ws.drop_first()) {
                Ok(rest) => Ok(seq![v as u64] + rest),
                Err(e) => Err(e),
            },
        }
    }
}

/// The words of a sysfs capability bitmap, lowest word first: the file
/// lists them highest first.
pub open spec fn capability_words(text: Seq<char>) -> Result<Seq<u64>, (Seq<char>, HexProblem)> {
    parse_words(split_words(text).reverse())
}

/// Parses the words of a capability bitmap, lowest word first.
pub fn parse_capability_words(text: &str) -> (r: Result<Vec<u64>, CapabilityError>)
    ensures
        match capability_words(text@) {
            Ok(v) => r matches Ok(w) && w@ == v,
            Err((word, p)) => r matches Err(e) && e.word@ == word && e.problem == p,
        },
{
    let words = split_words_of(text);
    let ghost ws = split_words(text@).reverse();
    let n = words.len();
    let mut out: Vec<u64> = Vec::new();
    let mut k: usize = 0;
    proof {
        assert(ws.skip(0) =~= ws);
        assert(out@ + Seq::<u64>::empty() =~= out@);
    }
    while k < n
        invariant
            n == words.len(),
            texts_view(words@) == split_words(text@),
            ws == split_words(text@).reverse(),
            ws.len() == n,
            k <= n,
            capability_words(text@) == match parse_words(ws.skip(k as int)) {
                Ok(rest) => Ok(out@ + rest),
                Err(e) => Err::<Seq<u64>, (Seq<char>, HexProblem)>(e),
            },
        decreases n - k,
    {
        let word = &words[n - 1 - k];
        proof {
            assert(ws[k as int] == texts_view(words@)[n - 1 - k]);
            assert(ws.skip(k as int)[0] == ws[k as int]);
            assert(ws.skip(k as int).drop_first() =~= ws.skip(k as int + 1));
        }
        match parse_hex_word(word.as_str()) {
            Err(p) => {
                return Err(CapabilityError { word: word.clone(), problem: p });
            },
            Ok(v) => {
                proof {
                    let rest = parse_words(ws.skip(k as int + 1));
                    if let Ok(rs) = rest {
                        assert(out@.push(v) + rs =~= out@ + (seq![v] + rs));
                    }
                }
                out.push(v);
            },
        }
        k += 1;
    }
    proof {
        assert(ws.skip(n as int) =~= Seq::<Seq<char>>::empty());
        assert(out@ + Seq::<u64>::empty() =~= out@);
    }
    Ok(out)
}

/// The Linux codes of the keys a keyboard must have: A, Z, Enter and Space.
pub open spec fn required_codes() -> Seq<u16> {
    seq![30u16, 44u16, 28u16, 57u16]
}

/// evdev's `KeyCode::KEY_A`, `KEY_Z`, `KEY_ENTER` and `KEY_SPACE`, by
/// `KeyCode::code`; evdev defines them as the Linux codes 30, 44, 28 and 57.
#[verifier::external_body]
fn required_key_codes() -> (r: Vec<u16>)
    ensures
        r@ == required_codes(),
{
    vec![
        evdev::KeyCode::KEY_A.code(),
        evdev::KeyCode::KEY_Z.code(),
        evdev::KeyCode::KEY_ENTER.code(),
        evdev::KeyCode::KEY_SPACE.code(),
    ]
}

/// Bit `code` of a bitmap held in 64-bit words, lowest word first.
pub open spec fn bitmap_has(words: Seq<u64>, code: u16) -> bool {
    (code / 64) < words.len() && words[(code / 64) as int] & (1u64 << ((code % 64) as u64)) != 0
}

/// Every required key is in the bitmap.
pub open spec fn bitmap_has_required(words: Seq<u64>) -> bool {
    forall|k: int| 0 <= k < required_codes().len() ==> bitmap_has(words, #[trigger] required_codes()[k])
}

/// Whether a capability bitmap has every required key; an error when a word
/// is not hexadecimal.
pub fn keyboard_capabilities_include_required_keys(text: &str) -> (r: Result<bool, CapabilityError>)
    ensures
        match capability_words(text@) {
            Ok(v) => r == Ok::<bool, CapabilityError>(bitmap_has_required(v)),
            Err((word, p)) => r matches Err(e) && e.word@ == word && e.problem == p,
        },
{
    let words = match parse_capability_words(text) {
        Ok(w) => w,
        Err(e) => {
            return Err(e);
        },
    };
    let codes = required_key_codes();
    let mut k: usize = 0;
    while k < codes.len()
        invariant
            codes@ == required_codes(),
            k <= codes.len(),
            capability_words(text@) == Ok::<Seq<u64>, (Seq<char>, HexProblem)>(words@),
            forall|j: int| 0 <= j < k ==> bitmap_has(words@, #[trigger] required_codes()[j]),
        decreases codes.len() - k,
    {
        let code = codes[k];
        let index = (code / 64) as usize;
        let bit = (code % 64) as u64;
        if index >= words.len() || words[index] & (1u64 << bit) == 0 {
            assert(!bitmap_has(words@, required_codes()[k as int]));
            return Ok(false);
        }
        k += 1;
    }
    Ok(true)
}

/// Every required key is among the supported codes.
pub open spec fn codes_have_required(codes: Seq<u16>) -> bool {
    forall|k: int| 0 <= k < required_codes().len() ==> codes.contains(#[trigger] required_codes()[k])
}

/// Whether a device that supports the key codes `supported` is a keyboard.
pub fn has_required_keyboard_keys(supported: &Vec<u16>) -> (r: bool)
    ensures
        r == codes_have_required(supported@),
{
    let codes = required_key_codes();
    let mut k: usize = 0;
    while k < codes.len()
        invariant
            codes@ == required_codes(),
            k <= codes.len(),
            forall|j: int| 0 <= j < k ==> supported@.contains(#[trigger] required_codes()[j]),
        decreases codes.len() - k,
    {
        let code = codes[k];
        let mut found = false;
        let mut i: usize = 0;
        while i < supported.len()
            invariant
                i <= supported.len(),
                found == exists|j: int| 0 <= j < i && supported@[j] == code,
            decreases supported.len() - i,
        {
            if supported[i] == code {
                found = true;
            }
            i += 1;
        }
        if !found {
            assert(!supported@.contains(required_codes()[k as int]));
            return false;
        }
        k += 1;
    }
    true
}

// Scan results

/// A keyboard found by a scan.
#[derive(Clone, Debug, PartialEq, Eq)]
pub struct DeviceMetadata {
    pub path: String,
    pub name: String,
    pub physical_path: String,
}

#[derive(Clone, Copy, Debug, PartialEq, Eq, Structural)]
pub enum DeviceScanIssueKind {
    PermissionDenied,
    Unavailable,
    Unknown,
}

/// A device that may be a keyboard but could not be inspected.
#[derive(Clone, Debug, PartialEq, Eq)]
pub struct DeviceScanIssue {
    pub path: String,
    pub message: String,
    pub kind: DeviceScanIssueKind,
}

/// The keyboards and the problems of one scan.
#[derive(Clone, Debug, PartialEq, Eq)]
pub struct ScanReport {
    pub devices: Vec<DeviceMetadata>,
    pub issues: Vec<DeviceScanIssue>,
}

/// Only `event*` device nodes are inspected.
pub open spec fn is_event_name(file_name: Option<Seq<char>>) -> bool {
    match file_name {
        Some(n) => n.len() >= 5 && n.take(5) == seq!['e', 'v', 'e', 'n', 't'],
        None => false,
    }
}

/// Whether a device node with this file name is inspected.
pub fn is_event_device(file_name: Option<&str>) -> (r: bool)
    ensures
        r == is_event_name(match file_name {
            Some(n) => Some(n@),
            None => None,
        }),
{
    match file_name {
        None => false,
        Some(n) => {
            let c = chars_of(n);
            let r = c.len() >= 5 && c[0] == 'e' && c[1] == 'v' && c[2] == 'e' && c[3] == 'n'
                && c[4] == 't';
            proof {
                if c.len() >= 5 {
                    if r {
                        assert(n@.take(5) =~= seq!['e', 'v', 'e', 'n', 't']);
                    } else {
                        let e = seq!['e', 'v', 'e', 'n', 't'];
                        if n@.take(5) == e {
                            assert(n@.take(5)[0] == e[0] && n@.take(5)[1] == e[1] && n@.take(5)[2]
                                == e[2] && n@.take(5)[3] == e[3] && n@.take(5)[4] == e[4]);
                        }
                    }
                }
            }
            r
        },
    }
}

/// The issue for a device path that is not UTF-8.
pub fn non_utf8_path_issue(path: String) -> (r: DeviceScanIssue)
    ensures
        r.path@ == path@,
        r.message@ == "device path is not valid UTF-8"@,
        r.kind == DeviceScanIssueKind::Unknown,
{
    DeviceScanIssue {
        path,
        message: "device path is not valid UTF-8".to_string(),
        kind: DeviceScanIssueKind::Unknown,
    }
}

/// A keyboard's metadata; a missing name or physical path gets a placeholder.
pub fn keyboard_metadata(path: String, name: Option<&str>, physical_path: Option<&str>) -> (r:
    DeviceMetadata)
    ensures
        r.path@ == path@,
        r.name@ == match name {
            Some(n) => n@,
            None => "Unknown keyboard"@,
        },
        r.physical_path@ == match physical_path {
            Some(p) => p@,
            None => "Unknown"@,
        },
{
    let name = match name {
        Some(n) => n.to_string(),
        None => "Unknown keyboard".to_string(),
    };
    let physical_path = match physical_path {
        Some(p) => p.to_string(),
        None => "Unknown".to_string(),
    };
    DeviceMetadata { path, name, physical_path }
}

/// The issue for a device that could not be opened, given what its sysfs
/// capabilities said (`Ok(true)`: a keyboard, `Ok(false)`: not one, `Err`:
/// the probe's message). A device that is certainly not a keyboard is skipped.
pub fn inspection_failure_issue(
    path: String,
    candidate: &Result<bool, String>,
    error: &str,
    permission_denied: bool,
) -> (r: Option<DeviceScanIssue>)
    ensures
        match candidate {
            Ok(false) => r is None,
            Ok(true) => r matches Some(i) && i.path@ == path@ && i.message@ == error@ && i.kind == (
            if permission_denied {
                DeviceScanIssueKind::PermissionDenied
            } else {
                DeviceScanIssueKind::Unavailable
            }),
            Err(probe) => r matches Some(i) && i.path@ == path@ && i.message@ == error@
                + "; keyboard capability probe failed: "@ + probe@ && i.kind
                == DeviceScanIssueKind::Unknown,
        },
{
    match candidate {
        Ok(false) => None,
        Ok(true) => {
            let kind = if permission_denied {
                DeviceScanIssueKind::PermissionDenied
            } else {
                DeviceScanIssueKind::Unavailable
            };
            Some(DeviceScanIssue { path, message: error.to_string(), kind })
        },
        Err(probe) => {
            let mut message = String::new();
            append_str(&mut message, error);
            append_str(&mut message, "; keyboard capability probe failed: ");
            append_str(&mut message, probe.as_str());
            Some(DeviceScanIssue { path, message, kind: DeviceScanIssueKind::Unknown })
        },
    }
}

/// Whether a device's sysfs capabilities mark it as a keyboard; the message
/// of the parse error otherwise.
pub fn probe_capabilities(text: &str) -> (r: Result<bool, String>)
    ensures
        match capability_words(text@) {
            Ok(v) => r == Ok::<bool, String>(bitmap_has_required(v)),
            Err((word, p)) => r matches Err(m) && m@ == capability_error_message(word, p),
        },
{
    match keyboard_capabilities_include_required_keys(text) {
        Ok(b) => Ok(b),
        Err(e) => Err(e.describe()),
    }
}

/// What `str::to_lowercase` gives for a string.
pub uninterp spec fn lowercase(s: Seq<char>) -> Seq<char>;

/// `str::to_lowercase`.
#[verifier::external_body]
fn to_lowercase(s: &str) -> (r: String)
    ensures
        r@ == lowercase(s@),
{
    s.to_lowercase()
}

/// Keyboards are listed by lowercase name, then by path.
pub open spec fn device_before(a: DeviceMetadata, b: DeviceMetadata) -> bool {
    text_lt(lowercase(a.name@), lowercase(b.name@)) || (lowercase(a.name@) == lowercase(b.name@)
        && text_lt(a.path@, b.path@))
}

/// The one order of keyboards: by lowercase name, then by path.
#[derive(Clone, Copy, Debug, PartialEq, Eq, Structural)]
pub enum DeviceOrder {
    NameThenPath,
}

impl Ranked for DeviceMetadata {
    type Mode = DeviceOrder;

    open spec fn ranks_before(mode: DeviceOrder, a: Self, b: Self) -> bool {
        device_before(a, b)
    }

    open spec fn comparable(mode: DeviceOrder, a: Self, b: Self) -> bool {
        true
    }

    proof fn lemma_ranks_before_transitive(mode: DeviceOrder, a: Self, b: Self, c: Self) {
        let (x, y, z) = (lowercase(a.name@), lowercase(b.name@), lowercase(c.name@));
        lemma_text_order_equal(x, y);
        lemma_text_order_equal(y, z);
        lemma_text_order_equal(x, z);
        if text_lt(x, y) && text_lt(y, z) {
            lemma_text_lt_transitive(x, y, z);
        }
        if text_lt(a.path@, b.path@) && text_lt(b.path@, c.path@) {
            lemma_text_lt_transitive(a.path@, b.path@, c.path@);
        }
    }

    proof fn lemma_ranks_before_asymmetric(mode: DeviceOrder, a: Self, b: Self) {
        let (x, y) = (lowercase(a.name@), lowercase(b.name@));
        lemma_text_order_antisymmetric(x, y);
        lemma_text_order_equal(x, y);
        lemma_text_order_antisymmetric(a.path@, b.path@);
    }

    fn precedes(mode: DeviceOrder, a: &Self, b: &Self) -> (r: bool) {
        let x = to_lowercase(a.name.as_str());
        let y = to_lowercase(b.name.as_str());
        let c = compare_text(x.as_str(), y.as_str());
        proof {
            lemma_text_order_equal(x@, y@);
        }
        c < 0 || (c == 0 && compare_text(a.path.as_str(), b.path.as_str()) < 0)
    }
}

/// The keyboards of a scan, listed by lowercase name and then by path.
pub fn sort_devices(devices: Vec<DeviceMetadata>) -> (r: Vec<DeviceMetadata>)
    ensures
        r@.to_multiset() == devices@.to_multiset(),
        ranked(DeviceOrder::NameThenPath, r@),
{
    sort_ranked(DeviceOrder::NameThenPath, devices)
}

/// A warning about a scan's result.
#[derive(Clone, Copy, Debug, PartialEq, Eq, Structural)]
pub enum ScanWarning {
    NoKeyboardDetected,
    PermissionDenied { count: usize },
    Unavailable { count: usize },
    Incomplete { issue_count: usize, permission_denied: usize },
}

/// The number of issues whose device refused permission.
pub open spec fn denied_count(issues: Seq<DeviceScanIssue>) -> nat
    decreases issues.len(),
{
    if issues.len() == 0 {
        0
    } else {
        denied_count(issues.drop_last()) + if issues.last().kind
            == DeviceScanIssueKind::PermissionDenied {
            1nat
        } else {
            0nat
        }
    }
}

proof fn lemma_denied_count_bounded(issues: Seq<DeviceScanIssue>)
    ensures
        denied_count(issues) <= issues.len(),
    decreases issues.len(),
{
    if issues.len() > 0 {
        lemma_denied_count_bounded(issues.drop_last());
    }
}

/// The warning a scan gives: none when keyboards were found and nothing failed.
pub open spec fn warning_for(devices: nat, issues: nat, denied: nat) -> Option<ScanWarning> {
    if devices == 0 {
        if denied > 0 {
            Some(ScanWarning::PermissionDenied { count: denied as usize })
        } else if issues > 0 {
            Some(ScanWarning::Unavailable { count: issues as usize })
        } else {
            Some(ScanWarning::NoKeyboardDetected)
        }
    } else if issues > 0 {
        Some(ScanWarning::Incomplete { issue_count: issues as usize, permission_denied: denied as usize })
    } else {
        None
    }
}

/// The warning for a scan report.
pub fn scan_warning(report: &ScanReport) -> (r: Option<ScanWarning>)
    ensures
        r == warning_for(
            report.devices@.len(),
            report.issues@.len(),
            denied_count(report.issues@),
        ),
{
    let issues = &report.issues;
    let mut denied: usize = 0;
    let mut i: usize = 0;
    while i < issues.len()
        invariant
            i <= issues.len(),
            denied == denied_count(issues@.take(i as int)),
        decreases issues.len() - i,
    {
        proof {
            assert(issues@.take(i as int + 1).drop_last() =~= issues@.take(i as int));
            lemma_denied_count_bounded(issues@.take(i as int));
        }
        if issues[i].kind == DeviceScanIssueKind::PermissionDenied {
            denied = denied + 1;
        }
        i += 1;
    }
    proof {
        assert(issues@.take(i as int) =~= issues@);
    }
    let issue_count = issues.len();
    if report.devices.len() == 0 {
        if denied > 0 {
            Some(ScanWarning::PermissionDenied { count: denied })
        } else if issue_count > 0 {
            Some(ScanWarning::Unavailable { count: issue_count })
        } else {
            Some(ScanWarning::NoKeyboardDetected)
        }
    } else if issue_count > 0 {
        Some(ScanWarning::Incomplete { issue_count, permission_denied: denied })
    } else {
        None
    }
}

/// The banner of a scan warning: title, detail, and whether permission help applies.
pub open spec fn warning_banner(w: ScanWarning) -> (Seq<char>, Seq<char>, bool) {
    match w {
        ScanWarning::NoKeyboardDetected => (
            "No keyboard detected"@,
            "No keyboard-like evdev device was found. Connect a keyboard, then rescan."@,
            false,
        ),
        ScanWarning::PermissionDenied { count } => (
            "Keyboard permission needed"@,
            if count == 1 {
                "One keyboard was detected but cannot be read. Check Linux /dev/input permissions, then rescan."@
            } else {
                "Multiple keyboards were detected but cannot be read. Check Linux /dev/input permissions, then rescan."@
            },
            true,
        ),
        ScanWarning::Unavailable { count } => (
            "No readable keyboard"@,
            if count == 1 {
                "One possible keyboard could not be inspected. Reconnect it, then rescan."@
            } else {
                "Possible keyboards could not be inspected. Reconnect them, then rescan."@
            },
            false,
        ),
        ScanWarning::Incomplete { issue_count, permission_denied } => (
            "Keyboard list may be incomplete"@,
            if issue_count == 1 {
                "One additional possible keyboard could not be inspected."@
            } else {
                "Some additional possible keyboards could not be inspected."@
            },
            permission_denied > 0,
        ),
    }
}

impl ScanWarning {
    /// The banner shown for the warning.
    pub fn banner(&self) -> (r: (&'static str, &'static str, bool))
        ensures
            (r.0@, r.1@, r.2) == warning_banner(*self),
    {
        match *self {
            ScanWarning::NoKeyboardDetected => (
                "No keyboard detected",
                "No keyboard-like evdev device was found. Connect a keyboard, then rescan.",
                false,
            ),
            ScanWarning::PermissionDenied { count } => (
                "Keyboard permission needed",
                if count == 1 {
                    "One keyboard was detected but cannot be read. Check Linux /dev/input permissions, then rescan."
                } else {
                    "Multiple keyboards were detected but cannot be read. Check Linux /dev/input permissions, then rescan."
                },
                true,
            ),
            ScanWarning::Unavailable { count } => (
                "No readable keyboard",
                if count == 1 {
                    "One possible keyboard could not be inspected. Reconnect it, then rescan."
                } else {
                    "Possible keyboards could not be inspected. Reconnect them, then rescan."
                },
                false,
            ),
            ScanWarning::Incomplete { issue_count, permission_denied } => (
                "Keyboard list may be incomplete",
                if issue_count == 1 {
                    "One additional possible keyboard could not be inspected."
                } else {
                    "Some additional possible keyboards could not be inspected."
                },
                permission_denied > 0,
            ),
        }
    }
}

/// `i` is the only device named `name`.
pub open spec fn only_match(devices: Seq<DeviceMetadata>, name: Seq<char>, i: int) -> bool {
    0 <= i < devices.len() && devices[i].name@ == name && forall|j: int|
        0 <= j < devices.len() && j != i ==> #[trigger] devices[j].name@ != name
}

/// The device to select for a remembered keyboard name: the one device with
/// that name, or none when no device or several devices have it.
pub fn remembered_device_index(devices: &Vec<DeviceMetadata>, name: &str) -> (r: Option<usize>)
    ensures
        match r {
            Some(i) => only_match(devices@, name@, i as int),
            None => forall|i: int| !only_match(devices@, name@, i),
        },
{
    let mut first: Option<usize> = None;
    let mut i: usize = 0;
    while i < devices.len()
        invariant
            i <= devices.len(),
            match first {
                Some(f) => f < i && devices@[f as int].name@ == name@ && forall|j: int|
                    0 <= j < i && j != f ==> #[trigger] devices@[j].name@ != name@,
                None => forall|j: int| 0 <= j < i ==> #[trigger] devices@[j].name@ != name@,
            },
        decreases devices.len() - i,
    {
        if same_text(devices[i].name.as_str(), name) {
            match first {
                Some(f) => {
                    proof {
                        assert forall|k: int| !only_match(devices@, name@, k) by {
                            if only_match(devices@, name@, k) {
                                if k != f as int {
                                    assert(devices@[f as int].name@ != name@);
                                } else {
                                    assert(devices@[i as int].name@ != name@);
                                }
                            }
                        }
                    }
                    return None;
                },
                None => {
                    first = Some(i);
                },
            }
        }
        i += 1;
    }
    match first {
        Some(f) => Some(f),
        None => {
            proof {
                assert forall|k: int| !only_match(devices@, name@, k) by {
                    if only_match(devices@, name@, k) {
                        assert(devices@[k].name@ != name@);
                    }
                }
            }
            None
        },
    }
}

} // verus!
