//! The metric snapshot payload format: JSON text holding one record of named
//! fields, where each field is an unsigned count or a list of flat rows.
//!
//! A record is read from a JSON object (every field exactly once, no other
//! key) or from a JSON array holding the fields in declaration order.
//! Whitespace is allowed between tokens; nothing may follow the record.
use vstd::prelude::*;

use crate::text::{
    chars_of, compare_chars, decimal, decimal_chars, lemma_text_order_equal, string_from_chars,
};

verus! {

// ---------------------------------------------------------------------------
// Lexical grammar
// ---------------------------------------------------------------------------

/// JSON insignificant whitespace.
pub open spec fn is_ws(c: char) -> bool {
    c == ' ' || c == '\t' || c == '\n' || c == '\r'
}

/// The first position at or after `i` that is not whitespace.
pub open spec fn skip_ws(s: Seq<char>, i: int) -> int
    decreases s.len() - i,
{
    if 0 <= i < s.len() && is_ws(s[i]) {
        skip_ws(s, i + 1)
    } else {
        i
    }
}

pub open spec fn is_digit(c: char) -> bool {
    '0' <= c && c <= '9'
}

pub open spec fn digit_value(c: char) -> nat {
    (c as int - '0' as int) as nat
}

/// The end of the run of decimal digits that starts at `i`.
pub open spec fn digits_end(s: Seq<char>, i: int) -> int
    decreases s.len() - i,
{
    if 0 <= i < s.len() && is_digit(s[i]) {
        digits_end(s, i + 1)
    } else {
        i
    }
}

/// The value of the decimal digits `s[i..j]`.
pub open spec fn digits_value(s: Seq<char>, i: int, j: int) -> nat
    decreases j - i,
{
    if j <= i {
        0
    } else {
        digits_value(s, i, j - 1) * 10 + digit_value(s[j - 1])
    }
}

/// What a JSON number token means for an unsigned field: its value when it is
/// a non-negative integer literal that fits in `u64`, otherwise nothing usable.
#[derive(Clone, Copy, Debug, PartialEq, Eq, Structural)]
pub enum NumberToken {
    Unsigned(u64),
    Other,
}

/// Reads a JSON number token at `i`: `-? (0 | [1-9][0-9]*) (. [0-9]+)? ([eE] [+-]? [0-9]+)?`.
#[verifier::opaque]
pub open spec fn parse_number(s: Seq<char>, i: int) -> Option<(NumberToken, int)> {
    let negative = 0 <= i < s.len() && s[i] == '-';
    let a = if negative {
        i + 1
    } else {
        i
    };
    if !(0 <= a < s.len() && is_digit(s[a])) {
        None
    } else {
        let b = if s[a] == '0' {
            a + 1
        } else {
            digits_end(s, a)
        };
        let has_fraction = b < s.len() && s[b] == '.';
        let c = if has_fraction {
            digits_end(s, b + 1)
        } else {
            b
        };
        if has_fraction && c == b + 1 {
            None
        } else {
            let has_exponent = c < s.len() && (s[c] == 'e' || s[c] == 'E');
            let c1 = if has_exponent && c + 1 < s.len() && (s[c + 1] == '+' || s[c + 1] == '-') {
                c + 2
            } else {
                c + 1
            };
            let d = if has_exponent {
                digits_end(s, c1)
            } else {
                c
            };
            if has_exponent && d == c1 {
                None
            } else {
                let v = digits_value(s, a, b);
                if !negative && !has_fraction && !has_exponent && v <= u64::MAX {
                    Some((NumberToken::Unsigned(v as u64), d))
                } else {
                    Some((NumberToken::Other, d))
                }
            }
        }
    }
}

/// The value of a hexadecimal digit, or -1.
pub open spec fn hex_value(c: char) -> int {
    if '0' <= c && c <= '9' {
        c as int - '0' as int
    } else if 'a' <= c && c <= 'f' {
        c as int - 'a' as int + 10
    } else if 'A' <= c && c <= 'F' {
        c as int - 'A' as int + 10
    } else {
        -1
    }
}

/// The value of the four hexadecimal digits at `i`, or -1.
pub open spec fn hex4(s: Seq<char>, i: int) -> int {
    if 0 <= i && i + 4 <= s.len() && hex_value(s[i]) >= 0 && hex_value(s[i + 1]) >= 0
        && hex_value(s[i + 2]) >= 0 && hex_value(s[i + 3]) >= 0 {
        ((hex_value(s[i]) * 16 + hex_value(s[i + 1])) * 16 + hex_value(s[i + 2])) * 16
            + hex_value(s[i + 3])
    } else {
        -1
    }
}

/// The character a simple (non-`u`) escape letter stands for.
pub open spec fn simple_escape(e: char) -> Option<char> {
    if e == '"' {
        Some('"')
    } else if e == '\\' {
        Some('\\')
    } else if e == '/' {
        Some('/')
    } else if e == 'b' {
        Some('\u{8}')
    } else if e == 'f' {
        Some('\u{c}')
    } else if e == 'n' {
        Some('\n')
    } else if e == 'r' {
        Some('\r')
    } else if e == 't' {
        Some('\t')
    } else {
        None
    }
}

/// Reads the rest of a string literal from `i` (just after the opening quote),
/// appending decoded characters to `acc`; returns the text and the position
/// after the closing quote.
pub open spec fn parse_string_body(s: Seq<char>, i: int, acc: Seq<char>) -> Option<
    (Seq<char>, int),
>
    decreases s.len() - i,
{
    if !(0 <= i < s.len()) {
        None
    } else if s[i] == '"' {
        Some((acc, i + 1))
    } else if s[i] == '\\' {
        if i + 1 >= s.len() {
            None
        } else if s[i + 1] == 'u' {
            let h = hex4(s, i + 2);
            if h < 0 {
                None
            } else if 0xD800 <= h && h <= 0xDBFF {
                let l = hex4(s, i + 8);
                if i + 7 < s.len() && s[i + 6] == '\\' && s[i + 7] == 'u' && 0xDC00 <= l && l
                    <= 0xDFFF {
                    let code = 0x10000 + (h - 0xD800) * 0x400 + (l - 0xDC00);
                    parse_string_body(s, i + 12, acc.push(code as char))
                } else {
                    None
                }
            } else if 0xDC00 <= h && h <= 0xDFFF {
                None
            } else {
                parse_string_body(s, i + 6, acc.push(h as char))
            }
        } else {
            match simple_escape(s[i + 1]) {
                Some(c) => parse_string_body(s, i + 2, acc.push(c)),
                None => None,
            }
        }
    } else if (s[i] as u32) < 0x20 {
        None
    } else {
        parse_string_body(s, i + 1, acc.push(s[i]))
    }
}

/// Reads a string literal at `i`.
pub open spec fn parse_string(s: Seq<char>, i: int) -> Option<(Seq<char>, int)> {
    if 0 <= i < s.len() && s[i] == '"' {
        parse_string_body(s, i + 1, seq![])
    } else {
        None
    }
}

// ---------------------------------------------------------------------------
// Executable lexing
// ---------------------------------------------------------------------------

fn exec_is_ws(c: char) -> (r: bool)
    ensures
        r == is_ws(c),
{
    c == ' ' || c == '\t' || c == '\n' || c == '\r'
}

/// Skips whitespace from `i`.
pub fn skip_whitespace(s: &Vec<char>, i: usize) -> (r: usize)
    requires
        i <= s.len(),
    ensures
        r as int == skip_ws(s@, i as int),
        i <= r <= s.len(),
{
    let mut j = i;
    while j < s.len() && exec_is_ws(s[j])
        invariant
            i <= j <= s.len(),
            skip_ws(s@, i as int) == skip_ws(s@, j as int),
        decreases s.len() - j,
    {
        j += 1;
    }
    j
}

fn exec_is_digit(c: char) -> (r: bool)
    ensures
        r == is_digit(c),
{
    '0' <= c && c <= '9'
}

fn skip_digits(s: &Vec<char>, i: usize) -> (r: usize)
    requires
        i <= s.len(),
    ensures
        r as int == digits_end(s@, i as int),
        i <= r <= s.len(),
{
    let mut j = i;
    while j < s.len() && exec_is_digit(s[j])
        invariant
            i <= j <= s.len(),
            digits_end(s@, i as int) == digits_end(s@, j as int),
        decreases s.len() - j,
    {
        j += 1;
    }
    j
}

proof fn lemma_digits_value_grows(s: Seq<char>, i: int, j: int)
    requires
        i < j,
        is_digit(s[j - 1]),
    ensures
        digits_value(s, i, j) >= digits_value(s, i, j - 1),
        digit_value(s[j - 1]) <= 9,
{
}

/// The value of the digit run `s[a..b]`, or `None` when it exceeds `u64`.
fn digits_to_u64(s: &Vec<char>, a: usize, b: usize) -> (r: Option<u64>)
    requires
        a <= b <= s.len(),
        forall|k: int| a <= k < b ==> is_digit(#[trigger] s@[k]),
    ensures
        r == (if digits_value(s@, a as int, b as int) <= u64::MAX {
            Some(digits_value(s@, a as int, b as int) as u64)
        } else {
            None::<u64>
        }),
{
    let mut value: u64 = 0;
    let mut overflow = false;
    let mut j = a;
    while j < b
        invariant
            a <= j <= b <= s.len(),
            forall|k: int| a <= k < b ==> is_digit(#[trigger] s@[k]),
            !overflow ==> value as int == digits_value(s@, a as int, j as int),
            overflow ==> digits_value(s@, a as int, j as int) > u64::MAX,
        decreases b - j,
    {
        let d = (s[j] as u32 - '0' as u32) as u64;
        proof {
            lemma_digits_value_grows(s@, a as int, j as int + 1);
            assert(d as int == digit_value(s@[j as int]));
        }
        if !overflow {
            if value > (u64::MAX - d) / 10 {
                overflow = true;
                proof {
                    assert(value * 10 + d > u64::MAX) by (nonlinear_arith)
                        requires
                            value > (u64::MAX - d) / 10,
                            d <= 9,
                    ;
                }
            } else {
                proof {
                    assert(value * 10 + d <= u64::MAX) by (nonlinear_arith)
                        requires
                            value <= (u64::MAX - d) / 10,
                            d <= 9,
                    ;
                }
                value = value * 10 + d;
            }
        }
        j += 1;
    }
    if overflow {
        None
    } else {
        Some(value)
    }
}

/// Reads a JSON number token at `i`.
pub fn read_number(s: &Vec<char>, i: usize) -> (r: Option<(NumberToken, usize)>)
    requires
        i <= s.len(),
    ensures
        match r {
            Some((t, e)) => parse_number(s@, i as int) == Some((t, e as int)) && e <= s.len(),
            None => parse_number(s@, i as int) is None,
        },
{
    reveal(parse_number);
    let negative = i < s.len() && s[i] == '-';
    let a = if negative {
        i + 1
    } else {
        i
    };
    if !(a < s.len() && exec_is_digit(s[a])) {
        return None;
    }
    let b = if s[a] == '0' {
        a + 1
    } else {
        skip_digits(s, a)
    };
    let has_fraction = b < s.len() && s[b] == '.';
    let c = if has_fraction {
        skip_digits(s, b + 1)
    } else {
        b
    };
    if has_fraction && c == b + 1 {
        return None;
    }
    let has_exponent = c < s.len() && (s[c] == 'e' || s[c] == 'E');
    let mut d = c;
    if has_exponent {
        let c1 = if c + 1 < s.len() && (s[c + 1] == '+' || s[c + 1] == '-') {
            c + 2
        } else {
            c + 1
        };
        d = skip_digits(s, c1);
        if d == c1 {
            return None;
        }
    }
    proof {
        if s@[a as int] != '0' {
            lemma_digits_end_all_digits(s@, a as int);
        }
    }
    let value = digits_to_u64(s, a, b);
    if !negative && !has_fraction && !has_exponent {
        match value {
            Some(v) => Some((NumberToken::Unsigned(v), d)),
            None => Some((NumberToken::Other, d)),
        }
    } else {
        Some((NumberToken::Other, d))
    }
}

proof fn lemma_digits_end_all_digits(s: Seq<char>, i: int)
    requires
        0 <= i <= s.len(),
    ensures
        i <= digits_end(s, i) <= s.len(),
        forall|k: int| i <= k < digits_end(s, i) ==> is_digit(#[trigger] s[k]),
    decreases s.len() - i,
{
    if i < s.len() && is_digit(s[i]) {
        lemma_digits_end_all_digits(s, i + 1);
    }
}

fn exec_hex_value(c: char) -> (r: i64)
    ensures
        r as int == hex_value(c),
{
    if '0' <= c && c <= '9' {
        (c as u32 - '0' as u32) as i64
    } else if 'a' <= c && c <= 'f' {
        (c as u32 - 'a' as u32) as i64 + 10
    } else if 'A' <= c && c <= 'F' {
        (c as u32 - 'A' as u32) as i64 + 10
    } else {
        -1
    }
}

fn read_hex4(s: &Vec<char>, i: usize) -> (r: i64)
    requires
        i <= s.len(),
    ensures
        r as int == hex4(s@, i as int),
        -1 <= r < 0x10000,
{
    if i <= s.len() && s.len() - i >= 4 {
        let a = exec_hex_value(s[i]);
        let b = exec_hex_value(s[i + 1]);
        let c = exec_hex_value(s[i + 2]);
        let d = exec_hex_value(s[i + 3]);
        if a >= 0 && b >= 0 && c >= 0 && d >= 0 {
            ((a * 16 + b) * 16 + c) * 16 + d
        } else {
            -1
        }
    } else {
        -1
    }
}

/// `char::from_u32`: the character with scalar value `v`, if `v` is one.
#[verifier::external_body]
fn char_from_u32(v: u32) -> (r: Option<char>)
    ensures
        r == (if v <= 0x10FFFF && !(0xD800 <= v && v <= 0xDFFF) {
            Some(v as char)
        } else {
            None::<char>
        }),
{
    char::from_u32(v)
}

fn exec_simple_escape(e: char) -> (r: Option<char>)
    ensures
        r == simple_escape(e),
{
    if e == '"' {
        Some('"')
    } else if e == '\\' {
        Some('\\')
    } else if e == '/' {
        Some('/')
    } else if e == 'b' {
        Some('\u{8}')
    } else if e == 'f' {
        Some('\u{c}')
    } else if e == 'n' {
        Some('\n')
    } else if e == 'r' {
        Some('\r')
    } else if e == 't' {
        Some('\t')
    } else {
        None
    }
}

/// Reads a string literal at `i`.
pub fn read_string(s: &Vec<char>, i: usize) -> (r: Option<(Vec<char>, usize)>)
    requires
        i <= s.len(),
    ensures
        match r {
            Some((t, e)) => parse_string(s@, i as int) == Some((t@, e as int)) && e <= s.len(),
            None => parse_string(s@, i as int) is None,
        },
{
    if !(i < s.len() && s[i] == '"') {
        return None;
    }
    let mut acc: Vec<char> = Vec::new();
    let mut j = i + 1;
    while j < s.len()
        invariant
            i < j <= s.len(),
            parse_string(s@, i as int) == parse_string_body(s@, j as int, acc@),
        decreases s.len() - j,
    {
        let c = s[j];
        if c == '"' {
            return Some((acc, j + 1));
        } else if c == '\\' {
            if j + 1 >= s.len() {
                return None;
            }
            if s[j + 1] == 'u' {
                let h = read_hex4(s, j + 2);
                if h < 0 {
                    return None;
                } else if 0xD800 <= h && h <= 0xDBFF {
                    if !(s.len() - j > 7 && s[j + 6] == '\\' && s[j + 7] == 'u') {
                        return None;
                    }
                    let l = read_hex4(s, j + 8);
                    if !(0xDC00 <= l && l <= 0xDFFF) {
                        return None;
                    }
                    let code = (0x10000 + (h - 0xD800) * 0x400 + (l - 0xDC00)) as u32;
                    match char_from_u32(code) {
                        Some(ch) => acc.push(ch),
                        None => return None,
                    }
                    j = j + 12;
                    if j > s.len() {
                        return None;
                    }
                } else if 0xDC00 <= h && h <= 0xDFFF {
                    return None;
                } else {
                    match char_from_u32(h as u32) {
                        Some(ch) => acc.push(ch),
                        None => return None,
                    }
                    j = j + 6;
                }
            } else {
                match exec_simple_escape(s[j + 1]) {
                    Some(ch) => acc.push(ch),
                    None => return None,
                }
                j = j + 2;
            }
        } else if (c as u32) < 0x20 {
            return None;
        } else {
            acc.push(c);
            j = j + 1;
        }
    }
    None
}

// ---------------------------------------------------------------------------
// Records
// ---------------------------------------------------------------------------

/// The JSON type a row field holds.
#[derive(Clone, Copy, Debug, PartialEq, Eq, Structural)]
pub enum CellKind {
    /// An unsigned 64-bit count.
    Count,
    /// An unsigned 16-bit Linux key code.
    KeyCode,
    /// A text string.
    Text,
}

/// A value read from, or written to, one row field.
#[derive(Debug)]
pub enum Cell {
    Count(u64),
    Text(String),
}

/// The mathematical value of a [`Cell`].
pub enum CellView {
    Count(u64),
    Text(Seq<char>),
}

impl View for Cell {
    type V = CellView;

    open spec fn view(&self) -> CellView {
        match self {
            Cell::Count(n) => CellView::Count(*n),
            Cell::Text(t) => CellView::Text(t@),
        }
    }
}

impl Cell {
    /// A copy of this cell.
    pub fn duplicate(&self) -> (r: Cell)
        ensures
            r@ == self@,
    {
        match self {
            Cell::Count(n) => Cell::Count(*n),
            Cell::Text(t) => Cell::Text(t.clone()),
        }
    }
}

pub open spec fn cells_view(v: Seq<Cell>) -> Seq<CellView> {
    v.map_values(|c: Cell| c@)
}

pub open spec fn optional_cells_view(v: Seq<Option<Cell>>) -> Seq<Option<CellView>> {
    v.map_values(|c: Option<Cell>| match c {
        Some(x) => Some(x@),
        None => None,
    })
}

pub open spec fn rows_view(v: Seq<Vec<Cell>>) -> Seq<Seq<CellView>> {
    v.map_values(|r: Vec<Cell>| cells_view(r@))
}

/// Reads one field value of the given kind at `i`.
#[verifier::opaque]
pub open spec fn parse_cell(s: Seq<char>, i: int, kind: CellKind) -> Option<(CellView, int)> {
    match kind {
        CellKind::Count => match parse_number(s, i) {
            Some((NumberToken::Unsigned(v), e)) => Some((CellView::Count(v), e)),
            _ => None,
        },
        CellKind::KeyCode => match parse_number(s, i) {
            Some((NumberToken::Unsigned(v), e)) => if v <= 0xFFFF {
                Some((CellView::Count(v), e))
            } else {
                None
            },
            _ => None,
        },
        CellKind::Text => match parse_string(s, i) {
            Some((t, e)) => Some((CellView::Text(t), e)),
            None => None,
        },
    }
}

/// The position of the field named `key` at or after `k`, or -1.
pub open spec fn field_index_from<K>(fields: Seq<(Seq<char>, K)>, key: Seq<char>, k: int) -> int
    decreases fields.len() - k,
{
    if k < 0 || k >= fields.len() {
        -1
    } else if fields[k].0 == key {
        k
    } else {
        field_index_from(fields, key, k + 1)
    }
}

pub open spec fn field_index<K>(fields: Seq<(Seq<char>, K)>, key: Seq<char>) -> int {
    field_index_from(fields, key, 0)
}

pub open spec fn all_filled<T>(acc: Seq<Option<T>>) -> bool {
    forall|k: int| 0 <= k < acc.len() ==> #[trigger] acc[k] is Some
}

pub open spec fn unwrap_all<T>(acc: Seq<Option<T>>) -> Seq<T> {
    Seq::new(acc.len(), |k: int| acc[k]->0)
}

pub open spec fn no_fields<T>(n: nat) -> Seq<Option<T>> {
    Seq::new(n, |k: int| None::<T>)
}

/// Reads the members of a row object from `i` (a key is expected there),
/// with the fields read so far in `acc`.
pub open spec fn parse_row_members(
    s: Seq<char>,
    i: int,
    fields: Seq<(Seq<char>, CellKind)>,
    acc: Seq<Option<CellView>>,
) -> Option<(Seq<CellView>, int)>
    decreases s.len() - i,
{
    match parse_string(s, i) {
        None => None,
        Some((key, k)) => {
            let c = skip_ws(s, k);
            let idx = field_index(fields, key);
            if !(0 <= c < s.len() && s[c] == ':') || idx < 0 || acc[idx] is Some {
                None
            } else {
                match parse_cell(s, skip_ws(s, c + 1), fields[idx].1) {
                    None => None,
                    Some((v, m)) => {
                        let m2 = skip_ws(s, m);
                        let acc2 = acc.update(idx, Some(v));
                        if !(0 <= m2 < s.len()) {
                            None
                        } else if s[m2] == ',' {
                            let n = skip_ws(s, m2 + 1);
                            if n > i && n <= s.len() {
                                parse_row_members(s, n, fields, acc2)
                            } else {
                                None
                            }
                        } else if s[m2] == '}' {
                            if all_filled(acc2) {
                                Some((unwrap_all(acc2), m2 + 1))
                            } else {
                                None
                            }
                        } else {
                            None
                        }
                    },
                }
            }
        },
    }
}

/// Reads the elements of a row array from `i` (just after `[` or a comma).
pub open spec fn parse_row_items(
    s: Seq<char>,
    i: int,
    fields: Seq<(Seq<char>, CellKind)>,
    acc: Seq<CellView>,
) -> Option<(Seq<CellView>, int)>
    decreases s.len() - i,
{
    let j = skip_ws(s, i);
    if acc.len() >= fields.len() {
        None
    } else {
        match parse_cell(s, j, fields[acc.len() as int].1) {
            None => None,
            Some((v, m)) => {
                let m2 = skip_ws(s, m);
                let acc2 = acc.push(v);
                if !(0 <= m2 < s.len()) {
                    None
                } else if acc2.len() == fields.len() {
                    if s[m2] == ']' {
                        Some((acc2, m2 + 1))
                    } else {
                        None
                    }
                } else if s[m2] == ',' && m2 + 1 > i {
                    parse_row_items(s, m2 + 1, fields, acc2)
                } else {
                    None
                }
            },
        }
    }
}

/// Reads a row (an object or an array) at `i`.
#[verifier::opaque]
pub open spec fn parse_row(s: Seq<char>, i: int, fields: Seq<(Seq<char>, CellKind)>) -> Option<
    (Seq<CellView>, int),
> {
    if !(0 <= i < s.len()) {
        None
    } else if s[i] == '{' {
        let j = skip_ws(s, i + 1);
        if 0 <= j < s.len() && s[j] == '}' {
            if fields.len() == 0 {
                Some((seq![], j + 1))
            } else {
                None
            }
        } else {
            parse_row_members(s, j, fields, no_fields(fields.len()))
        }
    } else if s[i] == '[' {
        if fields.len() == 0 {
            let j = skip_ws(s, i + 1);
            if 0 <= j < s.len() && s[j] == ']' {
                Some((seq![], j + 1))
            } else {
                None
            }
        } else {
            parse_row_items(s, i + 1, fields, seq![])
        }
    } else {
        None
    }
}

/// Reads the rows of a list from `i` (a row is expected there).
pub open spec fn parse_rows_items(
    s: Seq<char>,
    i: int,
    fields: Seq<(Seq<char>, CellKind)>,
    acc: Seq<Seq<CellView>>,
) -> Option<(Seq<Seq<CellView>>, int)>
    decreases s.len() - i,
{
    match parse_row(s, i, fields) {
        None => None,
        Some((r, m)) => {
            let m2 = skip_ws(s, m);
            let acc2 = acc.push(r);
            if !(0 <= m2 < s.len()) {
                None
            } else if s[m2] == ',' {
                let n = skip_ws(s, m2 + 1);
                if n > i && n <= s.len() {
                    parse_rows_items(s, n, fields, acc2)
                } else {
                    None
                }
            } else if s[m2] == ']' {
                Some((acc2, m2 + 1))
            } else {
                None
            }
        },
    }
}

/// Reads a list of rows (a JSON array) at `i`.
pub open spec fn parse_rows(s: Seq<char>, i: int, fields: Seq<(Seq<char>, CellKind)>) -> Option<
    (Seq<Seq<CellView>>, int),
> {
    if !(0 <= i < s.len() && s[i] == '[') {
        None
    } else {
        let j = skip_ws(s, i + 1);
        if 0 <= j < s.len() && s[j] == ']' {
            Some((seq![], j + 1))
        } else {
            parse_rows_items(s, j, fields, seq![])
        }
    }
}

// ---------------------------------------------------------------------------
// Payload layouts
// ---------------------------------------------------------------------------

/// The shape of one row in a list field.
#[derive(Clone, Copy, Debug, PartialEq, Eq, Structural)]
pub enum RowLayout {
    /// `{code, label, count}`: presses of one physical key.
    KeyCounts,
    /// `{text, total_ns, samples}`: timing of one produced text.
    TextDurations,
    /// `{first, second, total_ns, samples}`: timing of one text pair.
    PairDurations,
    /// `{text, count}`: deletions of one text.
    TextCounts,
    /// `{deleted, typed, count}`: one inferred correction.
    PairCounts,
}

/// The JSON type a top-level field holds.
#[derive(Clone, Copy, Debug, PartialEq, Eq, Structural)]
pub enum TopKind {
    Count,
    Rows(RowLayout),
}

/// The shape of a whole payload.
#[derive(Clone, Copy, Debug, PartialEq, Eq, Structural)]
pub enum PayloadLayout {
    /// `{count}`
    Count,
    /// `{keys: [KeyCounts]}`
    KeyCounts,
    /// `{entries: [TextDurations]}`
    TextDurations,
    /// `{pairs: [PairDurations]}`
    PairDurations,
    /// `{deletions: [TextCounts], corrections: [PairCounts]}`
    Corrections,
}

/// A value read from, or written to, one top-level field.
#[derive(Debug)]
pub enum TopValue {
    Count(u64),
    Rows(Vec<Vec<Cell>>),
}

/// The mathematical value of a [`TopValue`].
pub enum TopView {
    Count(u64),
    Rows(Seq<Seq<CellView>>),
}

impl View for TopValue {
    type V = TopView;

    open spec fn view(&self) -> TopView {
        match self {
            TopValue::Count(n) => TopView::Count(*n),
            TopValue::Rows(r) => TopView::Rows(rows_view(r@)),
        }
    }
}

pub open spec fn tops_view(v: Seq<TopValue>) -> Seq<TopView> {
    v.map_values(|t: TopValue| t@)
}

pub open spec fn optional_tops_view(v: Seq<Option<TopValue>>) -> Seq<Option<TopView>> {
    v.map_values(|c: Option<TopValue>| match c {
        Some(x) => Some(x@),
        None => None,
    })
}

/// The fields of a row, in declaration order.
pub open spec fn row_fields(l: RowLayout) -> Seq<(Seq<char>, CellKind)> {
    match l {
        RowLayout::KeyCounts => seq![
            ("code"@, CellKind::KeyCode),
            ("label"@, CellKind::Text),
            ("count"@, CellKind::Count),
        ],
        RowLayout::TextDurations => seq![
            ("text"@, CellKind::Text),
            ("total_ns"@, CellKind::Count),
            ("samples"@, CellKind::Count),
        ],
        RowLayout::PairDurations => seq![
            ("first"@, CellKind::Text),
            ("second"@, CellKind::Text),
            ("total_ns"@, CellKind::Count),
            ("samples"@, CellKind::Count),
        ],
        RowLayout::TextCounts => seq![("text"@, CellKind::Text), ("count"@, CellKind::Count)],
        RowLayout::PairCounts => seq![
            ("deleted"@, CellKind::Text),
            ("typed"@, CellKind::Text),
            ("count"@, CellKind::Count),
        ],
    }
}

/// The top-level fields of a payload, in declaration order.
pub open spec fn top_fields(l: PayloadLayout) -> Seq<(Seq<char>, TopKind)> {
    match l {
        PayloadLayout::Count => seq![("count"@, TopKind::Count)],
        PayloadLayout::KeyCounts => seq![("keys"@, TopKind::Rows(RowLayout::KeyCounts))],
        PayloadLayout::TextDurations => seq![
            ("entries"@, TopKind::Rows(RowLayout::TextDurations)),
        ],
        PayloadLayout::PairDurations => seq![("pairs"@, TopKind::Rows(RowLayout::PairDurations))],
        PayloadLayout::Corrections => seq![
            ("deletions"@, TopKind::Rows(RowLayout::TextCounts)),
            ("corrections"@, TopKind::Rows(RowLayout::PairCounts)),
        ],
    }
}

/// Reads one top-level field value of the given kind at `i`.
#[verifier::opaque]
pub open spec fn parse_top_value(s: Seq<char>, i: int, kind: TopKind) -> Option<(TopView, int)> {
    match kind {
        TopKind::Count => match parse_number(s, i) {
            Some((NumberToken::Unsigned(v), e)) => Some((TopView::Count(v), e)),
            _ => None,
        },
        TopKind::Rows(l) => match parse_rows(s, i, row_fields(l)) {
            Some((r, e)) => Some((TopView::Rows(r), e)),
            None => None,
        },
    }
}

/// Reads the members of the top-level object from `i` (a key is expected there).
pub open spec fn parse_top_members(
    s: Seq<char>,
    i: int,
    fields: Seq<(Seq<char>, TopKind)>,
    acc: Seq<Option<TopView>>,
) -> Option<(Seq<TopView>, int)>
    decreases s.len() - i,
{
    match parse_string(s, i) {
        None => None,
        Some((key, k)) => {
            let c = skip_ws(s, k);
            let idx = field_index(fields, key);
            if !(0 <= c < s.len() && s[c] == ':') || idx < 0 || acc[idx] is Some {
                None
            } else {
                match parse_top_value(s, skip_ws(s, c + 1), fields[idx].1) {
                    None => None,
                    Some((v, m)) => {
                        let m2 = skip_ws(s, m);
                        let acc2 = acc.update(idx, Some(v));
                        if !(0 <= m2 < s.len()) {
                            None
                        } else if s[m2] == ',' {
                            let n = skip_ws(s, m2 + 1);
                            if n > i && n <= s.len() {
                                parse_top_members(s, n, fields, acc2)
                            } else {
                                None
                            }
                        } else if s[m2] == '}' {
                            if all_filled(acc2) {
                                Some((unwrap_all(acc2), m2 + 1))
                            } else {
                                None
                            }
                        } else {
                            None
                        }
                    },
                }
            }
        },
    }
}

/// Reads the elements of the top-level array from `i` (just after `[` or a comma).
pub open spec fn parse_top_items(
    s: Seq<char>,
    i: int,
    fields: Seq<(Seq<char>, TopKind)>,
    acc: Seq<TopView>,
) -> Option<(Seq<TopView>, int)>
    decreases s.len() - i,
{
    let j = skip_ws(s, i);
    if acc.len() >= fields.len() {
        None
    } else {
        match parse_top_value(s, j, fields[acc.len() as int].1) {
            None => None,
            Some((v, m)) => {
                let m2 = skip_ws(s, m);
                let acc2 = acc.push(v);
                if !(0 <= m2 < s.len()) {
                    None
                } else if acc2.len() == fields.len() {
                    if s[m2] == ']' {
                        Some((acc2, m2 + 1))
                    } else {
                        None
                    }
                } else if s[m2] == ',' && m2 + 1 > i {
                    parse_top_items(s, m2 + 1, fields, acc2)
                } else {
                    None
                }
            },
        }
    }
}

/// Reads the top-level record (an object or an array) at `i`.
pub open spec fn parse_top_record(s: Seq<char>, i: int, fields: Seq<(Seq<char>, TopKind)>) -> Option<
    (Seq<TopView>, int),
> {
    if !(0 <= i < s.len()) {
        None
    } else if s[i] == '{' {
        let j = skip_ws(s, i + 1);
        if 0 <= j < s.len() && s[j] == '}' {
            if fields.len() == 0 {
                Some((seq![], j + 1))
            } else {
                None
            }
        } else {
            parse_top_members(s, j, fields, no_fields(fields.len()))
        }
    } else if s[i] == '[' {
        if fields.len() == 0 {
            let j = skip_ws(s, i + 1);
            if 0 <= j < s.len() && s[j] == ']' {
                Some((seq![], j + 1))
            } else {
                None
            }
        } else {
            parse_top_items(s, i + 1, fields, seq![])
        }
    } else {
        None
    }
}

/// The field values a payload text holds, when it is a valid payload of the layout.
pub open spec fn parse_payload(s: Seq<char>, layout: PayloadLayout) -> Option<Seq<TopView>> {
    match parse_top_record(s, skip_ws(s, 0), top_fields(layout)) {
        Some((v, m)) => if skip_ws(s, m) == s.len() {
            Some(v)
        } else {
            None
        },
        None => None,
    }
}

// ---------------------------------------------------------------------------
// Executable reading
// ---------------------------------------------------------------------------

/// The field table with each name taken by its characters.
pub open spec fn names_view<K>(f: Seq<(Vec<char>, K)>) -> Seq<(Seq<char>, K)> {
    f.map_values(|p: (Vec<char>, K)| (p.0@, p.1))
}

/// The executable field table of a row layout.
pub fn row_field_table(l: RowLayout) -> (r: Vec<(Vec<char>, CellKind)>)
    ensures
        names_view(r@) == row_fields(l),
{
    let r = match l {
        RowLayout::KeyCounts => vec![
            (chars_of("code"), CellKind::KeyCode),
            (chars_of("label"), CellKind::Text),
            (chars_of("count"), CellKind::Count),
        ],
        RowLayout::TextDurations => vec![
            (chars_of("text"), CellKind::Text),
            (chars_of("total_ns"), CellKind::Count),
            (chars_of("samples"), CellKind::Count),
        ],
        RowLayout::PairDurations => vec![
            (chars_of("first"), CellKind::Text),
            (chars_of("second"), CellKind::Text),
            (chars_of("total_ns"), CellKind::Count),
            (chars_of("samples"), CellKind::Count),
        ],
        RowLayout::TextCounts => vec![
            (chars_of("text"), CellKind::Text),
            (chars_of("count"), CellKind::Count),
        ],
        RowLayout::PairCounts => vec![
            (chars_of("deleted"), CellKind::Text),
            (chars_of("typed"), CellKind::Text),
            (chars_of("count"), CellKind::Count),
        ],
    };
    assert(names_view(r@) =~= row_fields(l));
    r
}

/// The executable field table of a payload layout.
pub fn top_field_table(l: PayloadLayout) -> (r: Vec<(Vec<char>, TopKind)>)
    ensures
        names_view(r@) == top_fields(l),
{
    let r = match l {
        PayloadLayout::Count => vec![(chars_of("count"), TopKind::Count)],
        PayloadLayout::KeyCounts => vec![(chars_of("keys"), TopKind::Rows(RowLayout::KeyCounts))],
        PayloadLayout::TextDurations => vec![
            (chars_of("entries"), TopKind::Rows(RowLayout::TextDurations)),
        ],
        PayloadLayout::PairDurations => vec![
            (chars_of("pairs"), TopKind::Rows(RowLayout::PairDurations)),
        ],
        PayloadLayout::Corrections => vec![
            (chars_of("deletions"), TopKind::Rows(RowLayout::TextCounts)),
            (chars_of("corrections"), TopKind::Rows(RowLayout::PairCounts)),
        ],
    };
    assert(names_view(r@) =~= top_fields(l));
    r
}

/// The index of the field named `key`.
fn find_field<K: Copy>(fields: &Vec<(Vec<char>, K)>, key: &Vec<char>) -> (r: Option<usize>)
    ensures
        match r {
            Some(k) => k < fields.len() && k as int == field_index(names_view(fields@), key@),
            None => field_index(names_view(fields@), key@) == -1,
        },
{
    let ghost nv = names_view(fields@);
    let mut k: usize = 0;
    while k < fields.len()
        invariant
            k <= fields.len(),
            nv == names_view(fields@),
            field_index(nv, key@) == field_index_from(nv, key@, k as int),
        decreases fields.len() - k,
    {
        let c = compare_chars(&fields[k].0, key);
        proof {
            lemma_text_order_equal(fields@[k as int].0@, key@);
        }
        if c == 0 {
            return Some(k);
        }
        k += 1;
    }
    None
}

/// Reads one field value of the given kind at `i`.
fn read_cell(s: &Vec<char>, i: usize, kind: CellKind) -> (r: Option<(Cell, usize)>)
    requires
        i <= s.len(),
    ensures
        match r {
            Some((c, e)) => parse_cell(s@, i as int, kind) == Some((c@, e as int)) && e <= s.len(),
            None => parse_cell(s@, i as int, kind) is None,
        },
{
    reveal(parse_cell);
    match kind {
        CellKind::Count => match read_number(s, i) {
            Some((NumberToken::Unsigned(v), e)) => Some((Cell::Count(v), e)),
            _ => None,
        },
        CellKind::KeyCode => match read_number(s, i) {
            Some((NumberToken::Unsigned(v), e)) => if v <= 0xFFFF {
                Some((Cell::Count(v), e))
            } else {
                None
            },
            _ => None,
        },
        CellKind::Text => match read_string(s, i) {
            Some((t, e)) => Some((Cell::Text(string_from_chars(&t)), e)),
            None => None,
        },
    }
}

/// The cells of a fully read record.
fn unwrap_cells(acc: &Vec<Option<Cell>>) -> (r: Option<Vec<Cell>>)
    ensures
        r is Some <==> all_filled(optional_cells_view(acc@)),
        r matches Some(v) ==> cells_view(v@) == unwrap_all(optional_cells_view(acc@)),
{
    let ghost ov = optional_cells_view(acc@);
    let mut out: Vec<Cell> = Vec::new();
    let mut k: usize = 0;
    while k < acc.len()
        invariant
            k <= acc.len(),
            ov == optional_cells_view(acc@),
            out.len() == k,
            forall|j: int| 0 <= j < k ==> #[trigger] ov[j] is Some,
            cells_view(out@) =~= unwrap_all(ov).take(k as int),
        decreases acc.len() - k,
    {
        match &acc[k] {
            Some(c) => out.push(c.duplicate()),
            None => {
                assert(ov[k as int] is None);
                assert(!all_filled(ov));
                return None;
            },
        }
        assert(cells_view(out@) =~= unwrap_all(ov).take(k as int + 1));
        k += 1;
    }
    assert(unwrap_all(ov).take(acc.len() as int) =~= unwrap_all(ov));
    Some(out)
}

fn empty_cells(n: usize) -> (r: Vec<Option<Cell>>)
    ensures
        optional_cells_view(r@) == no_fields::<CellView>(n as nat),
        r.len() == n,
{
    let mut r: Vec<Option<Cell>> = Vec::new();
    let mut k: usize = 0;
    while k < n
        invariant
            k <= n,
            r.len() == k,
            forall|j: int| 0 <= j < k ==> #[trigger] r@[j] is None,
        decreases n - k,
    {
        r.push(None);
        k += 1;
    }
    assert(optional_cells_view(r@) =~= no_fields::<CellView>(n as nat));
    r
}

/// Reads the members of a row object from `j`.
#[verifier::rlimit(40)]
fn read_row_members(s: &Vec<char>, j0: usize, fields: &Vec<(Vec<char>, CellKind)>) -> (r: Option<
    (Vec<Cell>, usize),
>)
    requires
        j0 <= s.len(),
    ensures
        match r {
            Some((c, e)) => parse_row_members(
                s@,
                j0 as int,
                names_view(fields@),
                no_fields(fields.len() as nat),
            ) == Some((cells_view(c@), e as int)) && e <= s.len(),
            None => parse_row_members(
                s@,
                j0 as int,
                names_view(fields@),
                no_fields(fields.len() as nat),
            ) is None,
        },
{
    let ghost fv = names_view(fields@);
    let ghost goal = parse_row_members(s@, j0 as int, fv, no_fields(fields.len() as nat));
    let mut acc = empty_cells(fields.len());
    let mut j = j0;
    loop
        invariant
            j <= s.len(),
            acc.len() == fields.len(),
            fv == names_view(fields@),
            fv.len() == fields.len(),
            goal == parse_row_members(s@, j0 as int, fv, no_fields(fields.len() as nat)),
            goal == parse_row_members(s@, j as int, fv, optional_cells_view(acc@)),
        decreases s.len() - j,
    {
        let (key, k) = match read_string(s, j) {
            Some(x) => x,
            None => return None,
        };
        let c = skip_whitespace(s, k);
        let idx = match find_field(fields, &key) {
            Some(x) => x,
            None => return None,
        };
        if !(c < s.len() && s[c] == ':') {
            return None;
        }
        if acc[idx].is_some() {
            return None;
        }
        let start = skip_whitespace(s, c + 1);
        let (v, m) = match read_cell(s, start, fields[idx].1) {
            Some(x) => x,
            None => return None,
        };
        let m2 = skip_whitespace(s, m);
        let ghost before = optional_cells_view(acc@);
        acc.set(idx, Some(v));
        proof {
            assert(optional_cells_view(acc@) =~= before.update(idx as int, Some(v@)));
        }
        if m2 >= s.len() {
            return None;
        }
        if s[m2] == ',' {
            let n = skip_whitespace(s, m2 + 1);
            if n > j {
                j = n;
            } else {
                return None;
            }
        } else if s[m2] == '}' {
            return match unwrap_cells(&acc) {
                Some(cells) => Some((cells, m2 + 1)),
                None => None,
            };
        } else {
            return None;
        }
    }
}

/// Reads the elements of a row array from `i`.
fn read_row_items(s: &Vec<char>, i0: usize, fields: &Vec<(Vec<char>, CellKind)>) -> (r: Option<
    (Vec<Cell>, usize),
>)
    requires
        i0 <= s.len(),
    ensures
        match r {
            Some((c, e)) => parse_row_items(s@, i0 as int, names_view(fields@), seq![]) == Some(
                (cells_view(c@), e as int),
            ) && e <= s.len(),
            None => parse_row_items(s@, i0 as int, names_view(fields@), seq![]) is None,
        },
{
    let ghost fv = names_view(fields@);
    let ghost goal = parse_row_items(s@, i0 as int, fv, seq![]);
    let mut acc: Vec<Cell> = Vec::new();
    let mut i = i0;
    assert(cells_view(acc@) =~= seq![]);
    loop
        invariant
            i <= s.len(),
            fv == names_view(fields@),
            fv.len() == fields.len(),
            goal == parse_row_items(s@, i0 as int, fv, seq![]),
            goal == parse_row_items(s@, i as int, fv, cells_view(acc@)),
        decreases s.len() - i,
    {
        let j = skip_whitespace(s, i);
        let ghost cv = cells_view(acc@);
        assert(cv.len() == acc.len());
        if acc.len() >= fields.len() {
            assert(parse_row_items(s@, i as int, fv, cv) is None);
            return None;
        }
        assert(fv[acc.len() as int].1 == fields@[acc.len() as int].1);
        let (v, m) = match read_cell(s, j, fields[acc.len()].1) {
            Some(x) => x,
            None => {
                assert(parse_row_items(s@, i as int, fv, cv) is None);
                return None;
            },
        };
        let m2 = skip_whitespace(s, m);
        let ghost before = cells_view(acc@);
        acc.push(v);
        proof {
            assert(cells_view(acc@) =~= before.push(v@));
        }
        if m2 >= s.len() {
            return None;
        }
        if acc.len() == fields.len() {
            if s[m2] == ']' {
                return Some((acc, m2 + 1));
            } else {
                return None;
            }
        } else if s[m2] == ',' && m2 + 1 > i {
            i = m2 + 1;
        } else {
            return None;
        }
    }
}

/// Reads a row at `i`.
fn read_row(s: &Vec<char>, i: usize, fields: &Vec<(Vec<char>, CellKind)>) -> (r: Option<
    (Vec<Cell>, usize),
>)
    requires
        i <= s.len(),
    ensures
        match r {
            Some((c, e)) => parse_row(s@, i as int, names_view(fields@)) == Some(
                (cells_view(c@), e as int),
            ) && e <= s.len(),
            None => parse_row(s@, i as int, names_view(fields@)) is None,
        },
{
    reveal(parse_row);
    if i >= s.len() {
        return None;
    }
    if s[i] == '{' {
        let j = skip_whitespace(s, i + 1);
        if j < s.len() && s[j] == '}' {
            if fields.len() == 0 {
                let v: Vec<Cell> = Vec::new();
                assert(cells_view(v@) =~= seq![]);
                Some((v, j + 1))
            } else {
                None
            }
        } else {
            read_row_members(s, j, fields)
        }
    } else if s[i] == '[' {
        if fields.len() == 0 {
            let j = skip_whitespace(s, i + 1);
            if j < s.len() && s[j] == ']' {
                let v: Vec<Cell> = Vec::new();
                assert(cells_view(v@) =~= seq![]);
                Some((v, j + 1))
            } else {
                None
            }
        } else {
            read_row_items(s, i + 1, fields)
        }
    } else {
        None
    }
}

/// Reads a list of rows at `i`.
#[verifier::rlimit(40)]
fn read_rows(s: &Vec<char>, i: usize, fields: &Vec<(Vec<char>, CellKind)>) -> (r: Option<
    (Vec<Vec<Cell>>, usize),
>)
    requires
        i <= s.len(),
    ensures
        match r {
            Some((c, e)) => parse_rows(s@, i as int, names_view(fields@)) == Some(
                (rows_view(c@), e as int),
            ) && e <= s.len(),
            None => parse_rows(s@, i as int, names_view(fields@)) is None,
        },
{
    let ghost fv = names_view(fields@);
    if !(i < s.len() && s[i] == '[') {
        return None;
    }
    let j0 = skip_whitespace(s, i + 1);
    let mut acc: Vec<Vec<Cell>> = Vec::new();
    assert(rows_view(acc@) =~= seq![]);
    if j0 < s.len() && s[j0] == ']' {
        return Some((acc, j0 + 1));
    }
    let ghost goal = parse_rows(s@, i as int, fv);
    let mut j = j0;
    loop
        invariant
            j <= s.len(),
            fv == names_view(fields@),
            goal == parse_rows(s@, i as int, fv),
            goal == parse_rows_items(s@, j as int, fv, rows_view(acc@)),
        decreases s.len() - j,
    {
        let (row, m) = match read_row(s, j, fields) {
            Some(x) => x,
            None => return None,
        };
        let m2 = skip_whitespace(s, m);
        let ghost before = rows_view(acc@);
        acc.push(row);
        proof {
            assert(rows_view(acc@) =~= before.push(cells_view(row@)));
        }
        if m2 >= s.len() {
            return None;
        }
        if s[m2] == ',' {
            let n = skip_whitespace(s, m2 + 1);
            if n > j {
                j = n;
            } else {
                return None;
            }
        } else if s[m2] == ']' {
            return Some((acc, m2 + 1));
        } else {
            return None;
        }
    }
}


/// Reads one top-level field value of the given kind at `i`.
fn read_top_value(s: &Vec<char>, i: usize, kind: TopKind) -> (r: Option<(TopValue, usize)>)
    requires
        i <= s.len(),
    ensures
        match r {
            Some((v, e)) => parse_top_value(s@, i as int, kind) == Some((v@, e as int)) && e
                <= s.len(),
            None => parse_top_value(s@, i as int, kind) is None,
        },
{
    reveal(parse_top_value);
    match kind {
        TopKind::Count => match read_number(s, i) {
            Some((NumberToken::Unsigned(v), e)) => Some((TopValue::Count(v), e)),
            _ => None,
        },
        TopKind::Rows(l) => {
            let fields = row_field_table(l);
            match read_rows(s, i, &fields) {
                Some((rows, e)) => Some((TopValue::Rows(rows), e)),
                None => None,
            }
        },
    }
}

/// The values of a fully read record.
fn unwrap_tops(acc: Vec<Option<TopValue>>) -> (r: Option<Vec<TopValue>>)
    ensures
        r is Some <==> all_filled(optional_tops_view(acc@)),
        r matches Some(v) ==> tops_view(v@) == unwrap_all(optional_tops_view(acc@)),
{
    let ghost ov = optional_tops_view(acc@);
    let n = acc.len();
    let mut rest = acc;
    let mut out: Vec<TopValue> = Vec::new();
    let mut k: usize = 0;
    while k < n
        invariant
            k <= n,
            n == ov.len(),
            ov == optional_tops_view(acc@),
            rest.len() == n - k,
            forall|j: int| 0 <= j < n - k ==> #[trigger] optional_tops_view(rest@)[j] == ov[j + k],
            out.len() == k,
            forall|j: int| 0 <= j < k ==> #[trigger] ov[j] is Some,
            tops_view(out@) =~= unwrap_all(ov).take(k as int),
        decreases n - k,
    {
        let ghost old_rest = rest@;
        let item = rest.remove(0);
        proof {
            assert(optional_tops_view(old_rest)[0] == ov[k as int]);
            assert forall|j: int| 0 <= j < n - k - 1 implies #[trigger] optional_tops_view(rest@)[j]
                == ov[j + k + 1] by {
                assert(rest@[j] == old_rest[j + 1]);
                assert(optional_tops_view(old_rest)[j + 1] == ov[j + 1 + k]);
            }
        }
        match item {
            Some(v) => {
                out.push(v);
            },
            None => {
                assert(ov[k as int] is None);
                assert(!all_filled(ov));
                return None;
            },
        }
        assert(tops_view(out@) =~= unwrap_all(ov).take(k as int + 1));
        k += 1;
    }
    assert(unwrap_all(ov).take(n as int) =~= unwrap_all(ov));
    Some(out)
}

fn empty_tops(n: usize) -> (r: Vec<Option<TopValue>>)
    ensures
        optional_tops_view(r@) == no_fields::<TopView>(n as nat),
        r.len() == n,
{
    let mut r: Vec<Option<TopValue>> = Vec::new();
    let mut k: usize = 0;
    while k < n
        invariant
            k <= n,
            r.len() == k,
            forall|j: int| 0 <= j < k ==> #[trigger] r@[j] is None,
        decreases n - k,
    {
        r.push(None);
        k += 1;
    }
    assert(optional_tops_view(r@) =~= no_fields::<TopView>(n as nat));
    r
}

/// Reads the members of the top-level object from `j0`.
#[verifier::rlimit(40)]
fn read_top_members(s: &Vec<char>, j0: usize, fields: &Vec<(Vec<char>, TopKind)>) -> (r: Option<
    (Vec<TopValue>, usize),
>)
    requires
        j0 <= s.len(),
    ensures
        match r {
            Some((c, e)) => parse_top_members(
                s@,
                j0 as int,
                names_view(fields@),
                no_fields(fields.len() as nat),
            ) == Some((tops_view(c@), e as int)) && e <= s.len(),
            None => parse_top_members(
                s@,
                j0 as int,
                names_view(fields@),
                no_fields(fields.len() as nat),
            ) is None,
        },
{
    let ghost fv = names_view(fields@);
    let ghost goal = parse_top_members(s@, j0 as int, fv, no_fields(fields.len() as nat));
    let mut acc = empty_tops(fields.len());
    let mut j = j0;
    loop
        invariant
            j <= s.len(),
            acc.len() == fields.len(),
            fv == names_view(fields@),
            fv.len() == fields.len(),
            goal == parse_top_members(s@, j0 as int, fv, no_fields(fields.len() as nat)),
            goal == parse_top_members(s@, j as int, fv, optional_tops_view(acc@)),
        decreases s.len() - j,
    {
        let (key, k) = match read_string(s, j) {
            Some(x) => x,
            None => return None,
        };
        let c = skip_whitespace(s, k);
        let idx = match find_field(fields, &key) {
            Some(x) => x,
            None => return None,
        };
        if !(c < s.len() && s[c] == ':') {
            return None;
        }
        if acc[idx].is_some() {
            return None;
        }
        let start = skip_whitespace(s, c + 1);
        let (v, m) = match read_top_value(s, start, fields[idx].1) {
            Some(x) => x,
            None => return None,
        };
        let m2 = skip_whitespace(s, m);
        let ghost before = optional_tops_view(acc@);
        acc.set(idx, Some(v));
        proof {
            assert(optional_tops_view(acc@) =~= before.update(idx as int, Some(v@)));
        }
        if m2 >= s.len() {
            return None;
        }
        if s[m2] == ',' {
            let n = skip_whitespace(s, m2 + 1);
            if n > j {
                j = n;
            } else {
                return None;
            }
        } else if s[m2] == '}' {
            return match unwrap_tops(acc) {
                Some(values) => Some((values, m2 + 1)),
                None => None,
            };
        } else {
            return None;
        }
    }
}

/// Reads the elements of the top-level array from `i0`.
#[verifier::rlimit(40)]
fn read_top_items(s: &Vec<char>, i0: usize, fields: &Vec<(Vec<char>, TopKind)>) -> (r: Option<
    (Vec<TopValue>, usize),
>)
    requires
        i0 <= s.len(),
    ensures
        match r {
            Some((c, e)) => parse_top_items(s@, i0 as int, names_view(fields@), seq![]) == Some(
                (tops_view(c@), e as int),
            ) && e <= s.len(),
            None => parse_top_items(s@, i0 as int, names_view(fields@), seq![]) is None,
        },
{
    let ghost fv = names_view(fields@);
    let ghost goal = parse_top_items(s@, i0 as int, fv, seq![]);
    let mut acc: Vec<TopValue> = Vec::new();
    let mut i = i0;
    assert(tops_view(acc@) =~= seq![]);
    loop
        invariant
            i <= s.len(),
            fv == names_view(fields@),
            fv.len() == fields.len(),
            goal == parse_top_items(s@, i0 as int, fv, seq![]),
            goal == parse_top_items(s@, i as int, fv, tops_view(acc@)),
        decreases s.len() - i,
    {
        let j = skip_whitespace(s, i);
        let ghost cv = tops_view(acc@);
        assert(cv.len() == acc.len());
        if acc.len() >= fields.len() {
            assert(parse_top_items(s@, i as int, fv, cv) is None);
            return None;
        }
        assert(fv[acc.len() as int].1 == fields@[acc.len() as int].1);
        let (v, m) = match read_top_value(s, j, fields[acc.len()].1) {
            Some(x) => x,
            None => {
                assert(parse_top_items(s@, i as int, fv, cv) is None);
                return None;
            },
        };
        let m2 = skip_whitespace(s, m);
        let ghost before = tops_view(acc@);
        acc.push(v);
        proof {
            assert(tops_view(acc@) =~= before.push(v@));
        }
        if m2 >= s.len() {
            return None;
        }
        if acc.len() == fields.len() {
            if s[m2] == ']' {
                return Some((acc, m2 + 1));
            } else {
                return None;
            }
        } else if s[m2] == ',' && m2 + 1 > i {
            i = m2 + 1;
        } else {
            return None;
        }
    }
}

/// Reads the top-level record at `i`.
fn read_top_record(s: &Vec<char>, i: usize, fields: &Vec<(Vec<char>, TopKind)>) -> (r: Option<
    (Vec<TopValue>, usize),
>)
    requires
        i <= s.len(),
    ensures
        match r {
            Some((c, e)) => parse_top_record(s@, i as int, names_view(fields@)) == Some(
                (tops_view(c@), e as int),
            ) && e <= s.len(),
            None => parse_top_record(s@, i as int, names_view(fields@)) is None,
        },
{
    if i >= s.len() {
        return None;
    }
    if s[i] == '{' {
        let j = skip_whitespace(s, i + 1);
        if j < s.len() && s[j] == '}' {
            if fields.len() == 0 {
                let v: Vec<TopValue> = Vec::new();
                assert(tops_view(v@) =~= seq![]);
                Some((v, j + 1))
            } else {
                None
            }
        } else {
            read_top_members(s, j, fields)
        }
    } else if s[i] == '[' {
        if fields.len() == 0 {
            let j = skip_whitespace(s, i + 1);
            if j < s.len() && s[j] == ']' {
                let v: Vec<TopValue> = Vec::new();
                assert(tops_view(v@) =~= seq![]);
                Some((v, j + 1))
            } else {
                None
            }
        } else {
            read_top_items(s, i + 1, fields)
        }
    } else {
        None
    }
}

/// Reads a whole payload of the given layout; `None` when the text is not one.
pub fn read_payload(text: &str, layout: PayloadLayout) -> (r: Option<Vec<TopValue>>)
    ensures
        match r {
            Some(v) => parse_payload(text@, layout) == Some(tops_view(v@)),
            None => parse_payload(text@, layout) is None,
        },
{
    let s = chars_of(text);
    let fields = top_field_table(layout);
    let start = skip_whitespace(&s, 0);
    match read_top_record(&s, start, &fields) {
        Some((v, m)) => {
            let end = skip_whitespace(&s, m);
            if end == s.len() {
                Some(v)
            } else {
                None
            }
        },
        None => None,
    }
}


// ---------------------------------------------------------------------------
// Writing
// ---------------------------------------------------------------------------

/// A lowercase hexadecimal digit.
pub open spec fn hex_digit(d: int) -> char {
    if d < 10 {
        ('0' as int + d) as char
    } else {
        ('a' as int + d - 10) as char
    }
}

/// How one character is written inside a string literal.
pub open spec fn escape_char(c: char) -> Seq<char> {
    if c == '"' {
        seq!['\\', '"']
    } else if c == '\\' {
        seq!['\\', '\\']
    } else if c == '\u{8}' {
        seq!['\\', 'b']
    } else if c == '\u{c}' {
        seq!['\\', 'f']
    } else if c == '\n' {
        seq!['\\', 'n']
    } else if c == '\r' {
        seq!['\\', 'r']
    } else if c == '\t' {
        seq!['\\', 't']
    } else if (c as u32) < 0x20 {
        seq!['\\', 'u', '0', '0', hex_digit(c as int / 16), hex_digit(c as int % 16)]
    } else {
        seq![c]
    }
}

/// The escaped characters of a text.
pub open spec fn escape_text(t: Seq<char>) -> Seq<char>
    decreases t.len(),
{
    if t.len() == 0 {
        seq![]
    } else {
        escape_text(t.drop_last()) + escape_char(t.last())
    }
}

/// A string literal holding `t`.
pub open spec fn quoted(t: Seq<char>) -> Seq<char> {
    seq!['"'] + escape_text(t) + seq!['"']
}

/// The parts joined with commas, from part `k` on.
pub open spec fn join_from(parts: Seq<Seq<char>>, k: int) -> Seq<char>
    decreases parts.len() - k,
{
    if k < 0 || k >= parts.len() {
        seq![]
    } else if k + 1 == parts.len() {
        parts[k]
    } else {
        parts[k] + seq![','] + join_from(parts, k + 1)
    }
}

/// The first `k` parts, each followed by a comma.
pub open spec fn join_prefix(parts: Seq<Seq<char>>, k: int) -> Seq<char>
    decreases k,
{
    if k <= 0 {
        seq![]
    } else {
        join_prefix(parts, k - 1) + parts[k - 1] + seq![',']
    }
}

pub open spec fn joined(parts: Seq<Seq<char>>) -> Seq<char> {
    join_from(parts, 0)
}

/// `"name":value`
pub open spec fn member(name: Seq<char>, value: Seq<char>) -> Seq<char> {
    quoted(name) + seq![':'] + value
}

pub open spec fn encode_cell(c: CellView) -> Seq<char> {
    match c {
        CellView::Count(n) => decimal(n as nat),
        CellView::Text(t) => quoted(t),
    }
}

pub open spec fn row_parts(fields: Seq<(Seq<char>, CellKind)>, cells: Seq<CellView>) -> Seq<
    Seq<char>,
> {
    Seq::new(cells.len(), |j: int| member(fields[j].0, encode_cell(cells[j])))
}

/// A row written as an object with its fields in declaration order.
pub open spec fn encode_row(fields: Seq<(Seq<char>, CellKind)>, cells: Seq<CellView>) -> Seq<
    char,
> {
    seq!['{'] + joined(row_parts(fields, cells)) + seq!['}']
}

pub open spec fn rows_parts(fields: Seq<(Seq<char>, CellKind)>, rows: Seq<Seq<CellView>>) -> Seq<
    Seq<char>,
> {
    Seq::new(rows.len(), |j: int| encode_row(fields, rows[j]))
}

pub open spec fn encode_rows(fields: Seq<(Seq<char>, CellKind)>, rows: Seq<Seq<CellView>>) -> Seq<
    char,
> {
    seq!['['] + joined(rows_parts(fields, rows)) + seq![']']
}

pub open spec fn encode_top_value(kind: TopKind, v: TopView) -> Seq<char> {
    match v {
        TopView::Count(n) => decimal(n as nat),
        TopView::Rows(r) => match kind {
            TopKind::Rows(l) => encode_rows(row_fields(l), r),
            TopKind::Count => encode_rows(seq![], r),
        },
    }
}

pub open spec fn top_parts(fields: Seq<(Seq<char>, TopKind)>, values: Seq<TopView>) -> Seq<
    Seq<char>,
> {
    Seq::new(values.len(), |j: int| member(fields[j].0, encode_top_value(fields[j].1, values[j])))
}

/// The compact text of a payload: an object with its fields in declaration order.
pub open spec fn encode_payload(layout: PayloadLayout, values: Seq<TopView>) -> Seq<char> {
    seq!['{'] + joined(top_parts(top_fields(layout), values)) + seq!['}']
}

proof fn lemma_join_split(parts: Seq<Seq<char>>, k: int)
    requires
        0 <= k < parts.len(),
    ensures
        joined(parts) == join_prefix(parts, k) + join_from(parts, k),
    decreases k,
{
    if k > 0 {
        lemma_join_split(parts, k - 1);
        assert(join_from(parts, k - 1) == parts[k - 1] + seq![','] + join_from(parts, k));
        assert(join_prefix(parts, k) == join_prefix(parts, k - 1) + parts[k - 1] + seq![',']);
        assert(join_prefix(parts, k) + join_from(parts, k) =~= join_prefix(parts, k - 1)
            + join_from(parts, k - 1));
    } else {
        assert(join_prefix(parts, 0) + join_from(parts, 0) =~= join_from(parts, 0));
    }
}

/// The whole join, from the prefix before the last part.
proof fn lemma_join_last(parts: Seq<Seq<char>>)
    requires
        parts.len() > 0,
    ensures
        joined(parts) == join_prefix(parts, parts.len() - 1) + parts[parts.len() - 1],
{
    lemma_join_split(parts, parts.len() - 1);
}

fn exec_hex_digit(d: u32) -> (c: char)
    requires
        d < 16,
    ensures
        c == hex_digit(d as int),
{
    let v = if d < 10 {
        '0' as u32 + d
    } else {
        'a' as u32 + d - 10
    };
    match char_from_u32(v) {
        Some(c) => c,
        None => '0',
    }
}

/// Appends the escaped form of `c`.
fn push_escaped(out: &mut Vec<char>, c: char)
    ensures
        final(out)@ == old(out)@ + escape_char(c),
{
    let ghost start = out@;
    if c == '"' {
        out.push('\\');
        out.push('"');
    } else if c == '\\' {
        out.push('\\');
        out.push('\\');
    } else if c == '\u{8}' {
        out.push('\\');
        out.push('b');
    } else if c == '\u{c}' {
        out.push('\\');
        out.push('f');
    } else if c == '\n' {
        out.push('\\');
        out.push('n');
    } else if c == '\r' {
        out.push('\\');
        out.push('r');
    } else if c == '\t' {
        out.push('\\');
        out.push('t');
    } else if (c as u32) < 0x20 {
        let v = c as u32;
        out.push('\\');
        out.push('u');
        out.push('0');
        out.push('0');
        out.push(exec_hex_digit(v / 16));
        out.push(exec_hex_digit(v % 16));
    } else {
        out.push(c);
    }
    assert(out@ =~= start + escape_char(c));
}

/// Appends `t` as a string literal.
fn push_quoted(out: &mut Vec<char>, t: &Vec<char>)
    ensures
        final(out)@ == old(out)@ + quoted(t@),
{
    let ghost start = out@;
    out.push('"');
    let mut i: usize = 0;
    assert(t@.take(0) =~= seq![]);
    while i < t.len()
        invariant
            i <= t.len(),
            out@ == start + seq!['"'] + escape_text(t@.take(i as int)),
        decreases t.len() - i,
    {
        push_escaped(out, t[i]);
        proof {
            let next = t@.take(i as int + 1);
            assert(next.drop_last() =~= t@.take(i as int));
            assert(next.last() == t@[i as int]);
        }
        i += 1;
    }
    out.push('"');
    assert(t@.take(t.len() as int) =~= t@);
    assert(out@ =~= start + quoted(t@));
}

fn push_decimal(out: &mut Vec<char>, n: u64)
    ensures
        final(out)@ == old(out)@ + decimal(n as nat),
{
    let d = decimal_chars(n as u128);
    let ghost start = out@;
    let mut i: usize = 0;
    while i < d.len()
        invariant
            i <= d.len(),
            out@ == start + d@.take(i as int),
        decreases d.len() - i,
    {
        out.push(d[i]);
        assert(d@.take(i as int + 1) =~= d@.take(i as int).push(d@[i as int]));
        i += 1;
    }
    assert(d@.take(d.len() as int) =~= d@);
}

fn push_cell(out: &mut Vec<char>, c: &Cell)
    ensures
        final(out)@ == old(out)@ + encode_cell(c@),
{
    match c {
        Cell::Count(n) => push_decimal(out, *n),
        Cell::Text(t) => {
            let cs = chars_of(t.as_str());
            push_quoted(out, &cs);
        },
    }
}

fn push_row(out: &mut Vec<char>, fields: &Vec<(Vec<char>, CellKind)>, cells: &Vec<Cell>)
    requires
        cells.len() <= fields.len(),
    ensures
        final(out)@ == old(out)@ + encode_row(names_view(fields@), cells_view(cells@)),
{
    let ghost fv = names_view(fields@);
    let ghost parts = row_parts(fv, cells_view(cells@));
    let ghost start = out@;
    out.push('{');
    let n = cells.len();
    let mut k: usize = 0;
    while k < n
        invariant
            n == cells.len(),
            n <= fields.len(),
            k <= n,
            fv == names_view(fields@),
            parts == row_parts(fv, cells_view(cells@)),
            parts.len() == n,
            out@ == start + seq!['{'] + join_prefix(parts, k as int),
            start == old(out)@,
            n == 0 || k < n,
        decreases n - k,
    {
        push_quoted(out, &fields[k].0);
        out.push(':');
        push_cell(out, &cells[k]);
        assert(out@ =~= start + seq!['{'] + join_prefix(parts, k as int) + parts[k as int]);
        if k + 1 < n {
            out.push(',');
            assert(out@ =~= start + seq!['{'] + join_prefix(parts, k as int + 1));
        } else {
            proof {
                lemma_join_last(parts);
            }
            out.push('}');
            assert(out@ =~= start + encode_row(fv, cells_view(cells@)));
            return;
        }
        k += 1;
    }
    out.push('}');
    assert(parts.len() == 0);
    assert(out@ =~= start + encode_row(fv, cells_view(cells@)));
}

fn push_rows(out: &mut Vec<char>, fields: &Vec<(Vec<char>, CellKind)>, rows: &Vec<Vec<Cell>>)
    requires
        forall|j: int| 0 <= j < rows.len() ==> #[trigger] rows@[j].len() <= fields.len(),
    ensures
        final(out)@ == old(out)@ + encode_rows(names_view(fields@), rows_view(rows@)),
{
    let ghost fv = names_view(fields@);
    let ghost parts = rows_parts(fv, rows_view(rows@));
    let ghost start = out@;
    out.push('[');
    let n = rows.len();
    let mut k: usize = 0;
    while k < n
        invariant
            n == rows.len(),
            k <= n,
            forall|j: int| 0 <= j < rows.len() ==> #[trigger] rows@[j].len() <= fields.len(),
            fv == names_view(fields@),
            parts == rows_parts(fv, rows_view(rows@)),
            parts.len() == n,
            out@ == start + seq!['['] + join_prefix(parts, k as int),
            start == old(out)@,
            n == 0 || k < n,
        decreases n - k,
    {
        push_row(out, fields, &rows[k]);
        assert(out@ =~= start + seq!['['] + join_prefix(parts, k as int) + parts[k as int]);
        if k + 1 < n {
            out.push(',');
            assert(out@ =~= start + seq!['['] + join_prefix(parts, k as int + 1));
        } else {
            proof {
                lemma_join_last(parts);
            }
            out.push(']');
            assert(out@ =~= start + encode_rows(fv, rows_view(rows@)));
            return;
        }
        k += 1;
    }
    out.push(']');
    assert(parts.len() == 0);
    assert(out@ =~= start + encode_rows(fv, rows_view(rows@)));
}

/// The kinds of the values fit the fields: counts where counts are read, rows
/// no wider than their layout.
pub open spec fn values_fit(layout: PayloadLayout, values: Seq<TopView>) -> bool {
    &&& values.len() == top_fields(layout).len()
    &&& forall|j: int| 0 <= j < values.len() ==> #[trigger] value_fits(top_fields(layout)[j].1, values[j])
}

pub open spec fn value_fits(kind: TopKind, v: TopView) -> bool {
    match (kind, v) {
        (TopKind::Count, TopView::Count(_)) => true,
        (TopKind::Rows(l), TopView::Rows(r)) => forall|j: int| 0 <= j < r.len() ==> row_fits(
            row_fields(l),
            #[trigger] r[j],
        ),
        _ => false,
    }
}

pub open spec fn row_fits(fields: Seq<(Seq<char>, CellKind)>, cells: Seq<CellView>) -> bool {
    &&& cells.len() == fields.len()
    &&& forall|j: int| 0 <= j < cells.len() ==> #[trigger] cell_fits(fields[j].1, cells[j])
}

pub open spec fn cell_fits(kind: CellKind, c: CellView) -> bool {
    match (kind, c) {
        (CellKind::Count, CellView::Count(_)) => true,
        (CellKind::KeyCode, CellView::Count(n)) => n <= 0xFFFF,
        (CellKind::Text, CellView::Text(_)) => true,
        _ => false,
    }
}

/// Writes a payload of the given layout.
pub fn write_payload(layout: PayloadLayout, values: &Vec<TopValue>) -> (r: String)
    requires
        values_fit(layout, tops_view(values@)),
    ensures
        r@ == encode_payload(layout, tops_view(values@)),
{
    let fields = top_field_table(layout);
    let ghost fv = names_view(fields@);
    let ghost tv = tops_view(values@);
    let ghost parts = top_parts(fv, tv);
    let mut out: Vec<char> = Vec::new();
    out.push('{');
    let n = values.len();
    assert(n == fields.len());
    let mut k: usize = 0;
    while k < n
        invariant
            n == values.len(),
            n == fields.len(),
            k <= n,
            fv == names_view(fields@),
            fv == top_fields(layout),
            tv == tops_view(values@),
            values_fit(layout, tv),
            parts == top_parts(fv, tv),
            parts.len() == n,
            out@ == seq!['{'] + join_prefix(parts, k as int),
            n == 0 || k < n,
        decreases n - k,
    {
        push_quoted(&mut out, &fields[k].0);
        out.push(':');
        match &values[k] {
            TopValue::Count(c) => push_decimal(&mut out, *c),
            TopValue::Rows(rows) => {
                assert(value_fits(fv[k as int].1, tv[k as int]));
                match fields[k].1 {
                    TopKind::Rows(l) => {
                        let row_fields_exec = row_field_table(l);
                        assert forall|j: int| 0 <= j < rows.len() implies #[trigger] rows@[j].len()
                            <= row_fields_exec.len() by {
                            assert(row_fits(row_fields(l), rows_view(rows@)[j]));
                        }
                        push_rows(&mut out, &row_fields_exec, rows);
                    },
                    TopKind::Count => {
                        assert(false);
                    },
                }
            },
        }
        assert(out@ =~= seq!['{'] + join_prefix(parts, k as int) + parts[k as int]);
        if k + 1 < n {
            out.push(',');
            assert(out@ =~= seq!['{'] + join_prefix(parts, k as int + 1));
        } else {
            proof {
                lemma_join_last(parts);
            }
            out.push('}');
            assert(out@ =~= encode_payload(layout, tv));
            return string_from_chars(&out);
        }
        k += 1;
    }
    out.push('}');
    assert(out@ =~= encode_payload(layout, tv));
    string_from_chars(&out)
}

// ---------------------------------------------------------------------------
// The shape of what is read
// ---------------------------------------------------------------------------

proof fn lemma_cell_fits(s: Seq<char>, i: int, kind: CellKind)
    ensures
        parse_cell(s, i, kind) matches Some((c, _)) ==> cell_fits(kind, c),
{
    reveal(parse_cell);
}

pub open spec fn partial_row_fits(fields: Seq<(Seq<char>, CellKind)>, acc: Seq<Option<CellView>>) -> bool {
    &&& acc.len() == fields.len()
    &&& forall|j: int| 0 <= j < acc.len() ==> (#[trigger] acc[j] matches Some(x) ==> cell_fits(fields[j].1, x))
}

proof fn lemma_row_members_fit(s: Seq<char>, i: int, fields: Seq<(Seq<char>, CellKind)>, acc: Seq<Option<CellView>>)
    requires
        partial_row_fits(fields, acc),
    ensures
        parse_row_members(s, i, fields, acc) matches Some((v, _)) ==> row_fits(fields, v),
    decreases s.len() - i,
{
    match parse_string(s, i) {
        None => {},
        Some((key, k)) => {
            let c = skip_ws(s, k);
            let idx = field_index(fields, key);
            if !(0 <= c < s.len() && s[c] == ':') || idx < 0 || acc[idx] is Some {
            } else {
                lemma_field_index_bounds(fields, key, 0);
                lemma_cell_fits(s, skip_ws(s, c + 1), fields[idx].1);
                match parse_cell(s, skip_ws(s, c + 1), fields[idx].1) {
                    None => {},
                    Some((v, m)) => {
                        let m2 = skip_ws(s, m);
                        let acc2 = acc.update(idx, Some(v));
                        assert(partial_row_fits(fields, acc2)) by {
                            assert forall|j: int| 0 <= j < acc2.len() implies (#[trigger] acc2[j] matches Some(x) ==> cell_fits(fields[j].1, x)) by {
                                if j != idx {
                                    assert(acc2[j] == acc[j]);
                                }
                            }
                        }
                        if 0 <= m2 < s.len() && s[m2] == ',' {
                            let n = skip_ws(s, m2 + 1);
                            if n > i && n <= s.len() {
                                lemma_row_members_fit(s, n, fields, acc2);
                            }
                        } else if 0 <= m2 < s.len() && s[m2] == '}' && all_filled(acc2) {
                            let v2 = unwrap_all(acc2);
                            assert forall|j: int| 0 <= j < v2.len() implies #[trigger] cell_fits(fields[j].1, v2[j]) by {
                                assert(acc2[j] is Some);
                            }
                        }
                    },
                }
            }
        },
    }
}

proof fn lemma_field_index_bounds<K>(fields: Seq<(Seq<char>, K)>, key: Seq<char>, k: int)
    ensures
        field_index_from(fields, key, k) == -1 || (0 <= field_index_from(fields, key, k) < fields.len()),
    decreases fields.len() - k,
{
    if k >= 0 && k < fields.len() && fields[k].0 != key {
        lemma_field_index_bounds(fields, key, k + 1);
    }
}

proof fn lemma_row_items_fit(s: Seq<char>, i: int, fields: Seq<(Seq<char>, CellKind)>, acc: Seq<CellView>)
    requires
        acc.len() <= fields.len(),
        forall|j: int| 0 <= j < acc.len() ==> #[trigger] cell_fits(fields[j].1, acc[j]),
    ensures
        parse_row_items(s, i, fields, acc) matches Some((v, _)) ==> row_fits(fields, v),
    decreases s.len() - i,
{
    let j = skip_ws(s, i);
    if acc.len() < fields.len() {
        lemma_cell_fits(s, j, fields[acc.len() as int].1);
        match parse_cell(s, j, fields[acc.len() as int].1) {
            None => {},
            Some((v, m)) => {
                let m2 = skip_ws(s, m);
                let acc2 = acc.push(v);
                assert forall|q: int| 0 <= q < acc2.len() implies #[trigger] cell_fits(fields[q].1, acc2[q]) by {
                    if q < acc.len() {
                        assert(acc2[q] == acc[q]);
                    }
                }
                if 0 <= m2 < s.len() && acc2.len() < fields.len() && s[m2] == ',' && m2 + 1 > i {
                    lemma_row_items_fit(s, m2 + 1, fields, acc2);
                }
            },
        }
    }
}

proof fn lemma_row_fits(s: Seq<char>, i: int, fields: Seq<(Seq<char>, CellKind)>)
    ensures
        parse_row(s, i, fields) matches Some((v, _)) ==> row_fits(fields, v),
{
    reveal(parse_row);
    let n = fields.len();
    assert(partial_row_fits(fields, no_fields(n)));
    lemma_row_members_fit(s, skip_ws(s, i + 1), fields, no_fields(n));
    lemma_row_items_fit(s, i + 1, fields, seq![]);
}

proof fn lemma_rows_items_fit(s: Seq<char>, i: int, fields: Seq<(Seq<char>, CellKind)>, acc: Seq<Seq<CellView>>)
    requires
        forall|j: int| 0 <= j < acc.len() ==> row_fits(fields, #[trigger] acc[j]),
    ensures
        parse_rows_items(s, i, fields, acc) matches Some((v, _)) ==> forall|j: int| 0 <= j < v.len() ==> row_fits(fields, #[trigger] v[j]),
    decreases s.len() - i,
{
    lemma_row_fits(s, i, fields);
    match parse_row(s, i, fields) {
        None => {},
        Some((r, m)) => {
            let m2 = skip_ws(s, m);
            let acc2 = acc.push(r);
            assert forall|q: int| 0 <= q < acc2.len() implies row_fits(fields, #[trigger] acc2[q]) by {
                if q < acc.len() {
                    assert(acc2[q] == acc[q]);
                }
            }
            if 0 <= m2 < s.len() && s[m2] == ',' {
                let n = skip_ws(s, m2 + 1);
                if n > i && n <= s.len() {
                    lemma_rows_items_fit(s, n, fields, acc2);
                }
            }
        },
    }
}

proof fn lemma_top_value_fits(s: Seq<char>, i: int, kind: TopKind)
    ensures
        parse_top_value(s, i, kind) matches Some((v, _)) ==> value_fits(kind, v),
{
    reveal(parse_top_value);
    match kind {
        TopKind::Count => {},
        TopKind::Rows(l) => {
            let fields = row_fields(l);
            lemma_rows_items_fit(s, skip_ws(s, i + 1), fields, seq![]);
        },
    }
}

pub open spec fn partial_top_fits(fields: Seq<(Seq<char>, TopKind)>, acc: Seq<Option<TopView>>) -> bool {
    &&& acc.len() == fields.len()
    &&& forall|j: int| 0 <= j < acc.len() ==> (#[trigger] acc[j] matches Some(x) ==> value_fits(fields[j].1, x))
}

proof fn lemma_top_members_fit(s: Seq<char>, i: int, fields: Seq<(Seq<char>, TopKind)>, acc: Seq<Option<TopView>>)
    requires
        partial_top_fits(fields, acc),
    ensures
        parse_top_members(s, i, fields, acc) matches Some((v, _)) ==> (v.len() == fields.len() && forall|j: int| 0 <= j < v.len() ==> #[trigger] value_fits(fields[j].1, v[j])),
    decreases s.len() - i,
{
    match parse_string(s, i) {
        None => {},
        Some((key, k)) => {
            let c = skip_ws(s, k);
            let idx = field_index(fields, key);
            if !(0 <= c < s.len() && s[c] == ':') || idx < 0 || acc[idx] is Some {
            } else {
                lemma_field_index_bounds(fields, key, 0);
                lemma_top_value_fits(s, skip_ws(s, c + 1), fields[idx].1);
                match parse_top_value(s, skip_ws(s, c + 1), fields[idx].1) {
                    None => {},
                    Some((v, m)) => {
                        let m2 = skip_ws(s, m);
                        let acc2 = acc.update(idx, Some(v));
                        assert(partial_top_fits(fields, acc2)) by {
                            assert forall|j: int| 0 <= j < acc2.len() implies (#[trigger] acc2[j] matches Some(x) ==> value_fits(fields[j].1, x)) by {
                                if j != idx {
                                    assert(acc2[j] == acc[j]);
                                }
                            }
                        }
                        if 0 <= m2 < s.len() && s[m2] == ',' {
                            let n = skip_ws(s, m2 + 1);
                            if n > i && n <= s.len() {
                                lemma_top_members_fit(s, n, fields, acc2);
                            }
                        } else if 0 <= m2 < s.len() && s[m2] == '}' && all_filled(acc2) {
                            let v2 = unwrap_all(acc2);
                            assert forall|j: int| 0 <= j < v2.len() implies #[trigger] value_fits(fields[j].1, v2[j]) by {
                                assert(acc2[j] is Some);
                            }
                        }
                    },
                }
            }
        },
    }
}

proof fn lemma_top_items_fit(s: Seq<char>, i: int, fields: Seq<(Seq<char>, TopKind)>, acc: Seq<TopView>)
    requires
        acc.len() <= fields.len(),
        forall|j: int| 0 <= j < acc.len() ==> #[trigger] value_fits(fields[j].1, acc[j]),
    ensures
        parse_top_items(s, i, fields, acc) matches Some((v, _)) ==> (v.len() == fields.len() && forall|j: int| 0 <= j < v.len() ==> #[trigger] value_fits(fields[j].1, v[j])),
    decreases s.len() - i,
{
    let j = skip_ws(s, i);
    if acc.len() < fields.len() {
        lemma_top_value_fits(s, j, fields[acc.len() as int].1);
        match parse_top_value(s, j, fields[acc.len() as int].1) {
            None => {},
            Some((v, m)) => {
                let m2 = skip_ws(s, m);
                let acc2 = acc.push(v);
                assert forall|q: int| 0 <= q < acc2.len() implies #[trigger] value_fits(fields[q].1, acc2[q]) by {
                    if q < acc.len() {
                        assert(acc2[q] == acc[q]);
                    }
                }
                if 0 <= m2 < s.len() && acc2.len() < fields.len() && s[m2] == ',' && m2 + 1 > i {
                    lemma_top_items_fit(s, m2 + 1, fields, acc2);
                }
            },
        }
    }
}

/// What a valid payload holds fits its layout.
pub proof fn lemma_payload_shape(s: Seq<char>, layout: PayloadLayout)
    ensures
        parse_payload(s, layout) matches Some(v) ==> values_fit(layout, v),
{
    let fields = top_fields(layout);
    let i = skip_ws(s, 0);
    let n = fields.len();
    assert(partial_top_fits(fields, no_fields(n)));
    lemma_top_members_fit(s, skip_ws(s, i + 1), fields, no_fields(n));
    lemma_top_items_fit(s, i + 1, fields, seq![]);
}

} // verus!
