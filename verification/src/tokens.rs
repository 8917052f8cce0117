//! Readable descriptions of produced text and key labels: escapes, code
//! points, Unicode names and an accessible label.
use vstd::prelude::*;

use crate::database::{char_is_whitespace, unicode_white_space};
use crate::labels::{whitespace_label, whitespace_name};
use crate::text::{append_chars, append_str, chars_of, push_char};

verus! {

// Hexadecimal digits

pub open spec fn lower_hex_digits() -> Seq<char> {
    seq!['0', '1', '2', '3', '4', '5', '6', '7', '8', '9', 'a', 'b', 'c', 'd', 'e', 'f']
}

pub open spec fn upper_hex_digits() -> Seq<char> {
    seq!['0', '1', '2', '3', '4', '5', '6', '7', '8', '9', 'A', 'B', 'C', 'D', 'E', 'F']
}

/// The digit of `d` in either case.
pub open spec fn hex_digit_char(d: nat, upper: bool) -> char {
    if upper {
        upper_hex_digits()[d as int]
    } else {
        lower_hex_digits()[d as int]
    }
}

/// `n` in hexadecimal, without leading zeros.
pub open spec fn hex_text(n: nat, upper: bool) -> Seq<char>
    decreases n,
{
    if n < 16 {
        seq![hex_digit_char(n, upper)]
    } else {
        hex_text(n / 16, upper).push(hex_digit_char(n % 16, upper))
    }
}

fn hex_digit_of(d: u32, upper: bool) -> (r: char)
    requires
        d < 16,
    ensures
        r == hex_digit_char(d as nat, upper),
{
    let r = if d == 0 {
        '0'
    } else if d == 1 {
        '1'
    } else if d == 2 {
        '2'
    } else if d == 3 {
        '3'
    } else if d == 4 {
        '4'
    } else if d == 5 {
        '5'
    } else if d == 6 {
        '6'
    } else if d == 7 {
        '7'
    } else if d == 8 {
        '8'
    } else if d == 9 {
        '9'
    } else if d == 10 {
        if upper { 'A' } else { 'a' }
    } else if d == 11 {
        if upper { 'B' } else { 'b' }
    } else if d == 12 {
        if upper { 'C' } else { 'c' }
    } else if d == 13 {
        if upper { 'D' } else { 'd' }
    } else if d == 14 {
        if upper { 'E' } else { 'e' }
    } else {
        if upper { 'F' } else { 'f' }
    };
    r
}

/// The hexadecimal digits of `n`.
fn hex_chars(n: u32, upper: bool) -> (r: Vec<char>)
    ensures
        r@ == hex_text(n as nat, upper),
    decreases n,
{
    if n < 16 {
        let mut r = Vec::new();
        r.push(hex_digit_of(n, upper));
        assert(r@ =~= hex_text(n as nat, upper));
        r
    } else {
        let mut r = hex_chars(n / 16, upper);
        r.push(hex_digit_of(n % 16, upper));
        r
    }
}

// Escapes

/// `char::escape_default`: the common escapes, printable ASCII as it is, and
/// `\u{..}` with lowercase hexadecimal for every other character.
pub open spec fn escape_char(c: char) -> Seq<char> {
    if c == '\t' {
        seq!['\\', 't']
    } else if c == '\r' {
        seq!['\\', 'r']
    } else if c == '\n' {
        seq!['\\', 'n']
    } else if c == '\\' {
        seq!['\\', '\\']
    } else if c == '\'' {
        seq!['\\', '\'']
    } else if c == '"' {
        seq!['\\', '"']
    } else if ' ' <= c <= '~' {
        seq![c]
    } else {
        seq!['\\', 'u', '{'] + hex_text(c as nat, false) + seq!['}']
    }
}

/// The escapes of every character, in order.
pub open spec fn escape_all(s: Seq<char>) -> Seq<char>
    decreases s.len(),
{
    if s.len() == 0 {
        Seq::empty()
    } else {
        escape_all(s.drop_last()) + escape_char(s.last())
    }
}

/// The escaped text, quoted.
pub open spec fn escaped_text(s: Seq<char>) -> Seq<char> {
    seq!['"'] + escape_all(s) + seq!['"']
}

fn append_escape(r: &mut String, c: char)
    ensures
        final(r)@ == old(r)@ + escape_char(c),
{
    let ghost start = r@;
    if c == '\t' {
        push_char(r, '\\');
        push_char(r, 't');
    } else if c == '\r' {
        push_char(r, '\\');
        push_char(r, 'r');
    } else if c == '\n' {
        push_char(r, '\\');
        push_char(r, 'n');
    } else if c == '\\' {
        push_char(r, '\\');
        push_char(r, '\\');
    } else if c == '\'' {
        push_char(r, '\\');
        push_char(r, '\'');
    } else if c == '"' {
        push_char(r, '\\');
        push_char(r, '"');
    } else if ' ' <= c && c <= '~' {
        push_char(r, c);
    } else {
        push_char(r, '\\');
        push_char(r, 'u');
        push_char(r, '{');
        let digits = hex_chars(c as u32, false);
        append_chars(r, &digits);
        push_char(r, '}');
    }
    assert(r@ =~= start + escape_char(c));
}

// Code points

/// `n` zeros.
pub open spec fn zeros(n: nat) -> Seq<char>
    decreases n,
{
    if n == 0 {
        Seq::empty()
    } else {
        zeros((n - 1) as nat).push('0')
    }
}

/// `U+` and the code point in uppercase hexadecimal, at least four digits.
pub open spec fn code_point_text(c: char) -> Seq<char> {
    let h = hex_text(c as nat, true);
    seq!['U', '+'] + if h.len() < 4 {
        zeros((4 - h.len()) as nat) + h
    } else {
        h
    }
}

/// The parts, with `sep` between each two.
pub open spec fn joined(parts: Seq<Seq<char>>, sep: Seq<char>) -> Seq<char>
    decreases parts.len(),
{
    if parts.len() == 0 {
        Seq::empty()
    } else if parts.len() == 1 {
        parts[0]
    } else {
        joined(parts.drop_last(), sep) + sep + parts.last()
    }
}

/// The code points of a text, or `(empty)`.
pub open spec fn code_points_text(s: Seq<char>) -> Seq<char> {
    if s.len() == 0 {
        "(empty)"@
    } else {
        joined(s.map_values(|c: char| code_point_text(c)), " "@)
    }
}

fn append_code_point(r: &mut String, c: char)
    ensures
        final(r)@ == old(r)@ + code_point_text(c),
{
    let ghost start = r@;
    push_char(r, 'U');
    push_char(r, '+');
    let digits = hex_chars(c as u32, true);
    let mut k = digits.len();
    while k < 4
        invariant
            digits.len() <= k,
            k <= 4 || k == digits.len(),
            r@ == start + seq!['U', '+'] + zeros((k - digits.len()) as nat),
        decreases 4 - k,
    {
        push_char(r, '0');
        k += 1;
    }
    append_chars(r, &digits);
    proof {
        if digits.len() >= 4 {
            assert(zeros(0) =~= Seq::<char>::empty());
        }
    }
    assert(r@ =~= start + code_point_text(c));
}

// Unicode names

/// What `unicode_names2::name` gives for a character, as text: its Unicode
/// name, or `None` when it has none.
pub uninterp spec fn unicode_name(c: char) -> Option<Seq<char>>;

/// `unicode_names2::name`, formatted with `to_string`.
#[verifier::external_body]
fn char_unicode_name(c: char) -> (r: Option<String>)
    ensures
        match r {
            Some(n) => unicode_name(c) == Some(n@),
            None => unicode_name(c) is None,
        },
{
    unicode_names2::name(c).map(|name| name.to_string())
}

/// A character's name, or a placeholder when it has none.
pub open spec fn name_or_placeholder(c: char) -> Seq<char> {
    match unicode_name(c) {
        Some(n) => n,
        None => "(name unavailable)"@,
    }
}

/// The names of a text's characters joined by ` + `, or `(none)`.
pub open spec fn unicode_names_text(s: Seq<char>) -> Seq<char> {
    if s.len() == 0 {
        "(none)"@
    } else {
        joined(s.map_values(|c: char| name_or_placeholder(c)), " + "@)
    }
}

// Printable texts

/// `char::is_control`: the control codes of category `Cc`.
pub open spec fn is_control(c: char) -> bool {
    c <= '\u{1f}' || ('\u{7f}' <= c && c <= '\u{9f}')
}

/// A character shown as it is: not a control code, whitespace or a zero-width space.
pub open spec fn shows_as_itself(c: char) -> bool {
    !is_control(c) && !unicode_white_space(c) && c != '\u{200B}'
}

/// A non-empty text of characters that show as themselves.
pub open spec fn printable_text(s: Seq<char>) -> bool {
    s.len() > 0 && forall|i: int| 0 <= i < s.len() ==> shows_as_itself(#[trigger] s[i])
}

/// Where a token comes from.
#[derive(Clone, Copy, Debug, PartialEq, Eq, Structural)]
pub enum TextTokenContext {
    ProducedText,
    PhysicalKey,
}

pub open spec fn context_text(context: TextTokenContext) -> Seq<char> {
    match context {
        TextTokenContext::ProducedText => "Produced text"@,
        TextTokenContext::PhysicalKey => "Physical key identity"@,
    }
}

/// The ways of showing and reading one token.
#[derive(Clone, Debug, PartialEq, Eq)]
pub struct TextTokenDescription {
    pub visible: String,
    pub escaped: String,
    pub code_points: String,
    pub unicode_names: String,
    pub accessible_label: String,
    pub context_label: &'static str,
    pub printable: bool,
}

/// The shown text: the name of an invisible text, a printable text as it
/// is, or else its code points.
pub open spec fn visible_text(s: Seq<char>) -> Seq<char> {
    match whitespace_name(s) {
        Some(n) => n,
        None => if printable_text(s) {
            s
        } else {
            code_points_text(s)
        },
    }
}

/// The accessible label: the context, the shown text and, for a printable
/// text, the Unicode names.
pub open spec fn accessible_text(s: Seq<char>, context: TextTokenContext) -> Seq<char> {
    if printable_text(s) {
        context_text(context) + ": "@ + visible_text(s) + ". "@ + unicode_names_text(s)
    } else {
        context_text(context) + ": "@ + visible_text(s)
    }
}

/// The characters of one part, appended with `sep` before every part but the first.
fn append_joined_part(
    r: &mut String,
    parts_before: Ghost<Seq<Seq<char>>>,
    first: bool,
    part: &str,
    sep: &str,
)
    requires
        old(r)@ == joined(parts_before@, sep@),
        first == (parts_before@.len() == 0),
    ensures
        final(r)@ == joined(parts_before@.push(part@), sep@),
{
    if !first {
        append_str(r, sep);
    }
    append_str(r, part);
    proof {
        let p = parts_before@.push(part@);
        assert(p.drop_last() =~= parts_before@);
        if parts_before@.len() == 0 {
            assert(p[0] == part@);
            assert(r@ =~= part@);
        }
    }
}

/// Describes a token of produced text or a key label.
pub fn describe_text_token(value: &str, context: TextTokenContext) -> (r: TextTokenDescription)
    ensures
        r.escaped@ == escaped_text(value@),
        r.code_points@ == code_points_text(value@),
        r.unicode_names@ == unicode_names_text(value@),
        r.printable == printable_text(value@),
        r.visible@ == visible_text(value@),
        r.context_label@ == context_text(context),
        r.accessible_label@ == accessible_text(value@, context),
{
    let chars = chars_of(value);
    let ghost s = value@;
    let mut escaped = String::new();
    push_char(&mut escaped, '"');
    let mut code_points = String::new();
    let mut names = String::new();
    let mut printable = true;
    let mut i: usize = 0;
    while i < chars.len()
        invariant
            chars@ == s,
            i <= chars.len(),
            escaped@ == seq!['"'] + escape_all(s.take(i as int)),
            code_points@ == joined(s.take(i as int).map_values(|c: char| code_point_text(c)), " "@),
            names@ == joined(s.take(i as int).map_values(|c: char| name_or_placeholder(c)), " + "@),
            printable == forall|j: int| 0 <= j < i ==> shows_as_itself(#[trigger] s[j]),
        decreases chars.len() - i,
    {
        let c = chars[i];
        let ghost t = s.take(i as int + 1);
        proof {
            assert(t.drop_last() =~= s.take(i as int));
            assert(t.last() == c);
        }
        append_escape(&mut escaped, c);
        proof {
            assert(escaped@ =~= seq!['"'] + escape_all(t));
        }
        let mut point = String::new();
        append_code_point(&mut point, c);
        append_joined_part(
            &mut code_points,
            Ghost(s.take(i as int).map_values(|c: char| code_point_text(c))),
            i == 0,
            point.as_str(),
            " ",
        );
        proof {
            assert(s.take(i as int).map_values(|c: char| code_point_text(c)).push(point@)
                =~= t.map_values(|c: char| code_point_text(c)));
        }
        let name = match char_unicode_name(c) {
            Some(n) => n,
            None => "(name unavailable)".to_string(),
        };
        append_joined_part(
            &mut names,
            Ghost(s.take(i as int).map_values(|c: char| name_or_placeholder(c))),
            i == 0,
            name.as_str(),
            " + ",
        );
        proof {
            assert(s.take(i as int).map_values(|c: char| name_or_placeholder(c)).push(name@)
                =~= t.map_values(|c: char| name_or_placeholder(c)));
        }
        let control = c <= '\u{1f}' || ('\u{7f}' <= c && c <= '\u{9f}');
        if control || char_is_whitespace(c) || c == '\u{200B}' {
            printable = false;
        }
        i += 1;
    }
    push_char(&mut escaped, '"');
    proof {
        assert(s.take(i as int) =~= s);
    }
    let code_points = if i == 0 {
        "(empty)".to_string()
    } else {
        code_points
    };
    let names = if i == 0 {
        "(none)".to_string()
    } else {
        names
    };
    let printable = printable && i > 0;
    let special = whitespace_label(value);
    let visible = match special {
        Some(l) => l.to_string(),
        None => if printable {
            value.to_string()
        } else {
            code_points.clone()
        },
    };
    let context_label = match context {
        TextTokenContext::ProducedText => "Produced text",
        TextTokenContext::PhysicalKey => "Physical key identity",
    };
    let mut accessible_label = String::new();
    append_str(&mut accessible_label, context_label);
    append_str(&mut accessible_label, ": ");
    append_str(&mut accessible_label, visible.as_str());
    if printable {
        append_str(&mut accessible_label, ". ");
        append_str(&mut accessible_label, names.as_str());
    }
    TextTokenDescription {
        visible,
        escaped,
        code_points,
        unicode_names: names,
        accessible_label,
        context_label,
        printable,
    }
}

/// The text a token is drawn as: a printable text without glyphs in the
/// font falls back to its code points.
pub fn rendered_text_token(description: &TextTokenDescription, glyphs_available: bool) -> (r: String)
    ensures
        r@ == if description.printable && !glyphs_available {
            description.code_points@
        } else {
            description.visible@
        },
{
    if description.printable && !glyphs_available {
        description.code_points.clone()
    } else {
        description.visible.clone()
    }
}

} // verus!
