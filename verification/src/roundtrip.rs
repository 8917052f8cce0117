//! What is written as a payload reads back as the same values.
use vstd::prelude::*;

use crate::payload::{
    all_filled, cell_fits, digit_value, digits_end, digits_value, encode_cell, encode_row,
    encode_rows, escape_char, escape_text, field_index, field_index_from, hex4, hex_digit,
    hex_value, is_digit, is_ws, join_from, member, no_fields, parse_cell, parse_number,
    parse_row, parse_row_members, parse_rows, parse_rows_items, parse_string, parse_string_body,
    quoted, row_fits, row_parts, rows_parts, simple_escape, skip_ws, unwrap_all, CellKind,
    CellView, NumberToken, encode_payload, encode_top_value, parse_payload, parse_top_members,
    parse_top_record, parse_top_value, row_fields, top_fields, top_parts, value_fits, values_fit,
    PayloadLayout, RowLayout, TopKind, TopView,
};
use crate::text::{decimal, digit_char};

verus! {

/// `x` occurs in `s` at position `a`.
pub open spec fn at(s: Seq<char>, a: int, x: Seq<char>) -> bool {
    &&& 0 <= a
    &&& a + x.len() <= s.len()
    &&& forall|j: int| 0 <= j < x.len() ==> s[a + j] == #[trigger] x[j]
}

proof fn lemma_at_split(s: Seq<char>, a: int, x: Seq<char>, y: Seq<char>)
    requires
        at(s, a, x + y),
    ensures
        at(s, a, x),
        at(s, a + x.len(), y),
{
    assert forall|j: int| 0 <= j < x.len() implies s[a + j] == #[trigger] x[j] by {
        assert((x + y)[j] == x[j]);
    }
    assert forall|j: int| 0 <= j < y.len() implies s[a + x.len() + j] == #[trigger] y[j] by {
        assert((x + y)[x.len() + j] == y[j]);
    }
}

// ---------------------------------------------------------------------------
// Numbers
// ---------------------------------------------------------------------------

proof fn lemma_digit_char(d: nat)
    requires
        d < 10,
    ensures
        is_digit(digit_char(d)),
        digit_value(digit_char(d)) == d,
        digit_char(d) == '0' <==> d == 0,
{
}

proof fn lemma_decimal_digits(n: nat)
    ensures
        decimal(n).len() >= 1,
        forall|j: int| 0 <= j < decimal(n).len() ==> is_digit(#[trigger] decimal(n)[j]),
        decimal(n)[0] == '0' ==> n == 0,
        n == 0 ==> decimal(n) == seq!['0'],
    decreases n,
{
    if n < 10 {
        lemma_digit_char(n);
    } else {
        lemma_decimal_digits(n / 10);
        lemma_digit_char(n % 10);
        let d = decimal(n);
        assert(d == decimal(n / 10).push(digit_char(n % 10)));
        assert forall|j: int| 0 <= j < d.len() implies is_digit(#[trigger] d[j]) by {
            if j < d.len() - 1 {
                assert(d[j] == decimal(n / 10)[j]);
            }
        }
        assert(d[0] == decimal(n / 10)[0]);
    }
}

proof fn lemma_digits_run(s: Seq<char>, a: int, n: nat)
    requires
        at(s, a, decimal(n)),
    ensures
        digits_value(s, a, a + decimal(n).len()) == n,
        forall|k: int| a <= k < a + decimal(n).len() ==> is_digit(#[trigger] s[k]),
    decreases n,
{
    lemma_decimal_digits(n);
    let d = decimal(n);
    assert forall|k: int| a <= k < a + d.len() implies is_digit(#[trigger] s[k]) by {
        assert(s[a + (k - a)] == d[k - a]);
    }
    if n < 10 {
        lemma_digit_char(n);
        assert(s[a + 0] == d[0]);
        assert(digits_value(s, a, a) == 0);
    } else {
        let m = n / 10;
        let dm = decimal(m);
        assert(d == dm + seq![digit_char(n % 10)]);
        lemma_at_split(s, a, dm, seq![digit_char(n % 10)]);
        lemma_digits_run(s, a, m);
        lemma_digit_char(n % 10);
        let last = seq![digit_char(n % 10)];
        assert(last[0] == digit_char(n % 10));
        assert(s[a + dm.len() + 0] == last[0]);
        assert(digits_value(s, a, a + d.len()) == digits_value(s, a, a + dm.len()) * 10
            + digit_value(s[a + d.len() - 1]));
    }
}

proof fn lemma_digits_end_run(s: Seq<char>, a: int, b: int)
    requires
        0 <= a <= b <= s.len(),
        forall|k: int| a <= k < b ==> is_digit(#[trigger] s[k]),
        b == s.len() || !is_digit(s[b]),
    ensures
        digits_end(s, a) == b,
    decreases b - a,
{
    if a < b {
        lemma_digits_end_run(s, a + 1, b);
    }
}

/// A count written in decimal, followed by a delimiter, reads back as itself.
pub proof fn lemma_number_round_trip(s: Seq<char>, a: int, n: u64)
    requires
        at(s, a, decimal(n as nat)),
        a + decimal(n as nat).len() < s.len(),
        s[a + decimal(n as nat).len()] == ',' || s[a + decimal(n as nat).len()] == '}'
            || s[a + decimal(n as nat).len()] == ']',
    ensures
        parse_number(s, a) == Some((NumberToken::Unsigned(n), a + decimal(n as nat).len())),
{
    reveal(parse_number);
    let d = decimal(n as nat);
    let e = a + d.len();
    lemma_decimal_digits(n as nat);
    lemma_digits_run(s, a, n as nat);
    assert(s[a + 0] == d[0]);
    assert(s[a] != '-');
    if s[a] == '0' {
        assert(n == 0);
        assert(d.len() == 1);
    } else {
        lemma_digits_end_run(s, a, e);
    }
}

// ---------------------------------------------------------------------------
// Strings
// ---------------------------------------------------------------------------

proof fn lemma_escape_concat(x: Seq<char>, y: Seq<char>)
    ensures
        escape_text(x + y) == escape_text(x) + escape_text(y),
    decreases y.len(),
{
    if y.len() == 0 {
        assert(x + y =~= x);
        assert(escape_text(x) + escape_text(y) =~= escape_text(x));
    } else {
        let y2 = y.drop_last();
        lemma_escape_concat(x, y2);
        assert((x + y).drop_last() =~= x + y2);
        assert((x + y).last() == y.last());
        assert(escape_text(x + y) == escape_text(x + y2) + escape_char(y.last()));
        assert(escape_text(y) == escape_text(y2) + escape_char(y.last()));
        assert(escape_text(x) + escape_text(y) =~= escape_text(x) + escape_text(y2) + escape_char(y.last()));
    }
}

proof fn lemma_escape_single(c: char)
    ensures
        escape_text(seq![c]) == escape_char(c),
{
    assert(seq![c].drop_last() =~= Seq::<char>::empty());
    assert(escape_text(Seq::<char>::empty()) + escape_char(c) =~= escape_char(c));
}

/// The escaped text splits at the `k`-th character.
proof fn lemma_escape_at(t: Seq<char>, k: int)
    requires
        0 <= k < t.len(),
    ensures
        escape_text(t) == escape_text(t.take(k)) + escape_char(t[k]) + escape_text(t.skip(k + 1)),
{
    assert(t =~= t.take(k) + (seq![t[k]] + t.skip(k + 1)));
    lemma_escape_concat(t.take(k), seq![t[k]] + t.skip(k + 1));
    lemma_escape_concat(seq![t[k]], t.skip(k + 1));
    lemma_escape_single(t[k]);
    assert(escape_text(t.take(k)) + (escape_char(t[k]) + escape_text(t.skip(k + 1))) =~= escape_text(t.take(k)) + escape_char(t[k]) + escape_text(t.skip(k + 1)));
}

proof fn lemma_hex_digit(d: int)
    requires
        0 <= d < 16,
    ensures
        hex_value(hex_digit(d)) == d,
{
    if d < 10 {
        assert(hex_digit(d) as int == '0' as int + d);
    } else {
        assert(hex_digit(d) as int == 'a' as int + d - 10);
    }
}

/// Reading an escaped character appends that character.
proof fn lemma_escape_step(s: Seq<char>, p: int, c: char, acc: Seq<char>)
    requires
        at(s, p, escape_char(c)),
    ensures
        parse_string_body(s, p, acc) == parse_string_body(s, p + escape_char(c).len(), acc.push(c)),
{
    let e = escape_char(c);
    assert(s[p + 0] == e[0]);
    if e.len() >= 2 {
        assert(s[p + 1] == e[1]);
    }
    if c == '"' || c == '\\' || c == '\u{8}' || c == '\u{c}' || c == '\n' || c == '\r' || c == '\t' {
        assert(simple_escape(s[p + 1]) == Some(c));
    } else if (c as u32) < 0x20 {
        let hi = c as int / 16;
        let lo = c as int % 16;
        assert(s[p + 2] == e[2]);
        assert(s[p + 3] == e[3]);
        assert(s[p + 4] == e[4]);
        assert(s[p + 5] == e[5]);
        lemma_hex_digit(hi);
        lemma_hex_digit(lo);
        assert(hex_value('0') == 0);
        assert(hex4(s, p + 2) == c as int);
        assert((hex4(s, p + 2) as char) == c);
    } else {
        assert(e == seq![c]);
    }
}

proof fn lemma_string_body_run(s: Seq<char>, p0: int, t: Seq<char>, k: int)
    requires
        at(s, p0, escape_text(t)),
        0 <= k <= t.len(),
    ensures
        parse_string_body(s, p0, Seq::empty()) == parse_string_body(s, p0 + escape_text(t.take(k)).len(), t.take(k)),
    decreases k,
{
    if k == 0 {
        assert(t.take(0) =~= Seq::<char>::empty());
        assert(escape_text(Seq::<char>::empty()).len() == 0);
    } else {
        lemma_string_body_run(s, p0, t, k - 1);
        let pre = escape_text(t.take(k - 1));
        lemma_escape_at(t, k - 1);
        let e = escape_char(t[k - 1]);
        lemma_at_split(s, p0, pre + e, escape_text(t.skip(k)));
        lemma_at_split(s, p0, pre, e);
        lemma_escape_step(s, p0 + pre.len(), t[k - 1], t.take(k - 1));
        assert(t.take(k).drop_last() =~= t.take(k - 1));
        assert(t.take(k).last() == t[k - 1]);
        assert(escape_text(t.take(k)) == pre + e);
        assert(t.take(k - 1).push(t[k - 1]) =~= t.take(k));
    }
}

/// A text written as a string literal reads back as itself.
pub proof fn lemma_string_round_trip(s: Seq<char>, a: int, t: Seq<char>)
    requires
        at(s, a, quoted(t)),
    ensures
        parse_string(s, a) == Some((t, a + quoted(t).len())),
{
    let q = quoted(t);
    let e = escape_text(t);
    assert(q == seq!['"'] + e + seq!['"']);
    lemma_at_split(s, a, seq!['"'] + e, seq!['"']);
    lemma_at_split(s, a, seq!['"'], e);
    assert(s[a + 0] == seq!['"'][0]);
    assert(s[a + 1 + e.len() + 0] == seq!['"'][0]);
    lemma_string_body_run(s, a + 1, t, t.len() as int);
    assert(t.take(t.len() as int) =~= t);
}

// ---------------------------------------------------------------------------
// Records
// ---------------------------------------------------------------------------

proof fn lemma_skip_none(s: Seq<char>, i: int)
    requires
        0 <= i < s.len(),
        !is_ws(s[i]),
    ensures
        skip_ws(s, i) == i,
{
}

/// No two fields share a name.
pub open spec fn names_distinct<K>(fields: Seq<(Seq<char>, K)>) -> bool {
    forall|i: int, j: int| 0 <= i < fields.len() && 0 <= j < fields.len() && i != j ==> #[trigger] fields[i].0 != #[trigger] fields[j].0
}

proof fn lemma_field_index<K>(fields: Seq<(Seq<char>, K)>, k: int, from: int)
    requires
        names_distinct(fields),
        0 <= from <= k < fields.len(),
    ensures
        field_index_from(fields, fields[k].0, from) == k,
    decreases k - from,
{
    if from < k {
        assert(fields[from].0 != fields[k].0);
        lemma_field_index(fields, k, from + 1);
    }
}

/// The first character a cell is written with: a digit or a quote.
proof fn lemma_cell_start(c: CellView)
    ensures
        encode_cell(c).len() > 0,
        !is_ws(encode_cell(c)[0]),
        encode_cell(c)[0] != '}' && encode_cell(c)[0] != ']',
{
    match c {
        CellView::Count(n) => {
            lemma_decimal_digits(n as nat);
        },
        CellView::Text(t) => {
            assert(quoted(t)[0] == '"');
        },
    }
}

/// A cell written at `a` and followed by a delimiter reads back as itself.
proof fn lemma_cell_round_trip(s: Seq<char>, a: int, kind: CellKind, c: CellView)
    requires
        cell_fits(kind, c),
        at(s, a, encode_cell(c)),
        a + encode_cell(c).len() < s.len(),
        s[a + encode_cell(c).len()] == ',' || s[a + encode_cell(c).len()] == '}'
            || s[a + encode_cell(c).len()] == ']',
    ensures
        parse_cell(s, a, kind) == Some((c, a + encode_cell(c).len())),
{
    reveal(parse_cell);
    match c {
        CellView::Count(n) => {
            lemma_number_round_trip(s, a, n);
        },
        CellView::Text(t) => {
            lemma_string_round_trip(s, a, t);
        },
    }
}

/// The fields of a row read so far: the first `k` cells.
pub open spec fn partial<T>(cells: Seq<T>, k: int) -> Seq<Option<T>> {
    Seq::new(cells.len(), |j: int| if j < k { Some(cells[j]) } else { None })
}

proof fn lemma_member_parts(name: Seq<char>, value: Seq<char>)
    ensures
        member(name, value) == quoted(name) + seq![':'] + value,
        quoted(name)[0] == '"',
{
}

#[verifier::rlimit(40)]
proof fn lemma_row_members_round_trip(s: Seq<char>, i: int, fields: Seq<(Seq<char>, CellKind)>, cells: Seq<CellView>, k: int)
    requires
        row_fits(fields, cells),
        names_distinct(fields),
        0 <= k < cells.len(),
        at(s, i, join_from(row_parts(fields, cells), k) + seq!['}']),
    ensures
        parse_row_members(s, i, fields, partial(cells, k)) == Some((cells, i + join_from(row_parts(fields, cells), k).len() + 1)),
    decreases cells.len() - k,
{
    let parts = row_parts(fields, cells);
    let n = cells.len();
    let name = fields[k].0;
    let v = encode_cell(cells[k]);
    let q = quoted(name);
    let rest = if k + 1 < n {
        seq![','] + join_from(parts, k + 1)
    } else {
        Seq::<char>::empty()
    };
    assert(parts[k] == member(name, v));
    assert(join_from(parts, k) == parts[k] + rest) by {
        if k + 1 >= n {
            assert(parts[k] + rest =~= parts[k]);
        } else {
            assert(join_from(parts, k) == parts[k] + seq![','] + join_from(parts, k + 1));
            assert(parts[k] + seq![','] + join_from(parts, k + 1) =~= parts[k] + rest);
        }
    }
    lemma_member_parts(name, v);
    let whole = q + seq![':'] + v + (rest + seq!['}']);
    assert(join_from(parts, k) + seq!['}'] =~= whole);
    lemma_at_split(s, i, q + seq![':'] + v, rest + seq!['}']);
    lemma_at_split(s, i, q + seq![':'], v);
    lemma_at_split(s, i, q, seq![':']);
    lemma_string_round_trip(s, i, name);
    let c = i + q.len();
    assert(s[c + 0] == seq![':'][0]);
    lemma_skip_none(s, c);
    lemma_field_index(fields, k, 0);
    let acc = partial(cells, k);
    assert(acc[k] is None);
    lemma_cell_start(cells[k]);
    assert(s[c + 1 + 0] == v[0]);
    lemma_skip_none(s, c + 1);
    let m = c + 1 + v.len();
    let after = rest + seq!['}'];
    assert(s[m + 0] == after[0]);
    assert(cell_fits(fields[k].1, cells[k]));
    lemma_cell_round_trip(s, c + 1, fields[k].1, cells[k]);
    lemma_skip_none(s, m);
    let acc2 = acc.update(k, Some(cells[k]));
    assert(acc2 =~= partial(cells, k + 1));
    if k + 1 < n {
        assert(s[m] == ',');
        assert(after =~= seq![','] + (join_from(parts, k + 1) + seq!['}']));
        lemma_at_split(s, m, seq![','], join_from(parts, k + 1) + seq!['}']);
        assert(join_from(parts, k + 1) == parts[k + 1] + (if k + 2 < n { seq![','] + join_from(parts, k + 2) } else { Seq::<char>::empty() })) by {
            if k + 2 >= n {
                assert(parts[k + 1] + Seq::<char>::empty() =~= parts[k + 1]);
            } else {
                assert(parts[k + 1] + seq![','] + join_from(parts, k + 2) =~= parts[k + 1] + (seq![','] + join_from(parts, k + 2)));
            }
        }
        lemma_member_parts(fields[k + 1].0, encode_cell(cells[k + 1]));
        assert(s[m + 1 + 0] == (join_from(parts, k + 1) + seq!['}'])[0]);
        lemma_skip_none(s, m + 1);
        lemma_row_members_round_trip(s, m + 1, fields, cells, k + 1);
        assert(join_from(parts, k).len() == parts[k].len() + 1 + join_from(parts, k + 1).len());
    } else {
        assert(s[m] == '}');
        assert(all_filled(acc2));
        assert(unwrap_all(acc2) =~= cells);
    }
}

/// A row written at `p` reads back as itself.
proof fn lemma_row_round_trip(s: Seq<char>, p: int, fields: Seq<(Seq<char>, CellKind)>, cells: Seq<CellView>)
    requires
        row_fits(fields, cells),
        names_distinct(fields),
        cells.len() > 0,
        at(s, p, encode_row(fields, cells)),
    ensures
        parse_row(s, p, fields) == Some((cells, p + encode_row(fields, cells).len())),
{
    reveal(parse_row);
    let parts = row_parts(fields, cells);
    let j = crate::payload::joined(parts);
    assert(encode_row(fields, cells) == seq!['{'] + (j + seq!['}'])) by {
        assert(seq!['{'] + j + seq!['}'] =~= seq!['{'] + (j + seq!['}']));
    }
    lemma_at_split(s, p, seq!['{'], j + seq!['}']);
    assert(s[p + 0] == seq!['{'][0]);
    assert(parts[0] == member(fields[0].0, encode_cell(cells[0])));
    lemma_member_parts(fields[0].0, encode_cell(cells[0]));
    assert(j == parts[0] + (if 1 < cells.len() { seq![','] + join_from(parts, 1) } else { Seq::<char>::empty() })) by {
        if 1 >= cells.len() {
            assert(parts[0] + Seq::<char>::empty() =~= parts[0]);
        } else {
            assert(parts[0] + seq![','] + join_from(parts, 1) =~= parts[0] + (seq![','] + join_from(parts, 1)));
        }
    }
    assert(s[p + 1 + 0] == (j + seq!['}'])[0]);
    lemma_skip_none(s, p + 1);
    assert(partial(cells, 0) =~= no_fields(fields.len()));
    lemma_row_members_round_trip(s, p + 1, fields, cells, 0);
}

#[verifier::rlimit(40)]
proof fn lemma_rows_items_round_trip(s: Seq<char>, i: int, fields: Seq<(Seq<char>, CellKind)>, rows: Seq<Seq<CellView>>, k: int)
    requires
        forall|r: int| 0 <= r < rows.len() ==> row_fits(fields, #[trigger] rows[r]),
        fields.len() > 0,
        names_distinct(fields),
        0 <= k < rows.len(),
        at(s, i, join_from(rows_parts(fields, rows), k) + seq![']']),
    ensures
        parse_rows_items(s, i, fields, rows.take(k)) == Some((rows, i + join_from(rows_parts(fields, rows), k).len() + 1)),
    decreases rows.len() - k,
{
    let parts = rows_parts(fields, rows);
    let n = rows.len();
    let row = encode_row(fields, rows[k]);
    let rest = if k + 1 < n {
        seq![','] + join_from(parts, k + 1)
    } else {
        Seq::<char>::empty()
    };
    assert(parts[k] == row);
    assert(join_from(parts, k) == row + rest) by {
        if k + 1 >= n {
            assert(row + rest =~= row);
        } else {
            assert(row + seq![','] + join_from(parts, k + 1) =~= row + rest);
        }
    }
    assert(join_from(parts, k) + seq![']'] =~= row + (rest + seq![']']));
    lemma_at_split(s, i, row, rest + seq![']']);
    assert(row_fits(fields, rows[k]));
    lemma_row_round_trip(s, i, fields, rows[k]);
    let m = i + row.len();
    let after = rest + seq![']'];
    assert(s[m + 0] == after[0]);
    lemma_skip_none(s, m);
    assert(rows.take(k).push(rows[k]) =~= rows.take(k + 1));
    if k + 1 < n {
        assert(after =~= seq![','] + (join_from(parts, k + 1) + seq![']']));
        lemma_at_split(s, m, seq![','], join_from(parts, k + 1) + seq![']']);
        assert(join_from(parts, k + 1)[0] == '{') by {
            assert(parts[k + 1] == encode_row(fields, rows[k + 1]));
            if k + 2 >= n {
                assert(join_from(parts, k + 1) == parts[k + 1]);
            } else {
                assert(join_from(parts, k + 1) == parts[k + 1] + seq![','] + join_from(parts, k + 2));
            }
        }
        assert(s[m + 1 + 0] == (join_from(parts, k + 1) + seq![']'])[0]);
        lemma_skip_none(s, m + 1);
        lemma_rows_items_round_trip(s, m + 1, fields, rows, k + 1);
        assert(join_from(parts, k).len() == row.len() + 1 + join_from(parts, k + 1).len());
    } else {
        assert(s[m] == ']');
        assert(rows.take(k + 1) =~= rows);
    }
}

/// A list of rows written at `p` reads back as itself.
pub proof fn lemma_rows_round_trip(s: Seq<char>, p: int, fields: Seq<(Seq<char>, CellKind)>, rows: Seq<Seq<CellView>>)
    requires
        forall|r: int| 0 <= r < rows.len() ==> row_fits(fields, #[trigger] rows[r]),
        fields.len() > 0,
        names_distinct(fields),
        at(s, p, encode_rows(fields, rows)),
    ensures
        parse_rows(s, p, fields) == Some((rows, p + encode_rows(fields, rows).len())),
{
    let parts = rows_parts(fields, rows);
    let j = crate::payload::joined(parts);
    assert(encode_rows(fields, rows) == seq!['['] + (j + seq![']'])) by {
        assert(seq!['['] + j + seq![']'] =~= seq!['['] + (j + seq![']']));
    }
    lemma_at_split(s, p, seq!['['], j + seq![']']);
    assert(s[p + 0] == seq!['['][0]);
    if rows.len() == 0 {
        assert(j =~= Seq::<char>::empty());
        assert(s[p + 1 + 0] == (j + seq![']'])[0]);
        lemma_skip_none(s, p + 1);
    } else {
        assert(parts[0] == encode_row(fields, rows[0]));
        assert(j[0] == '{') by {
            if 1 >= rows.len() {
                assert(j == parts[0]);
            } else {
                assert(j == parts[0] + seq![','] + join_from(parts, 1));
            }
        }
        assert(s[p + 1 + 0] == (j + seq![']'])[0]);
        lemma_skip_none(s, p + 1);
        assert(rows.take(0) =~= Seq::<Seq<CellView>>::empty());
        lemma_rows_items_round_trip(s, p + 1, fields, rows, 0);
    }
}

// ---------------------------------------------------------------------------
// Payloads
// ---------------------------------------------------------------------------

proof fn lemma_row_names(l: RowLayout)
    ensures
        names_distinct(row_fields(l)),
        row_fields(l).len() > 0,
{
    reveal_strlit("code");
    reveal_strlit("label");
    reveal_strlit("count");
    reveal_strlit("text");
    reveal_strlit("total_ns");
    reveal_strlit("samples");
    reveal_strlit("first");
    reveal_strlit("second");
    reveal_strlit("deleted");
    reveal_strlit("typed");
    let f = row_fields(l);
    assert forall|i: int, j: int| 0 <= i < f.len() && 0 <= j < f.len() && i != j implies #[trigger] f[i].0 != #[trigger] f[j].0 by {
        if f[i].0 == f[j].0 {
            assert(f[i].0.len() == f[j].0.len());
            assert(f[i].0[0] == f[j].0[0]);
        }
    }
}

proof fn lemma_top_names(l: PayloadLayout)
    ensures
        names_distinct(top_fields(l)),
        top_fields(l).len() > 0,
{
    reveal_strlit("deletions");
    reveal_strlit("corrections");
    let f = top_fields(l);
    assert forall|i: int, j: int| 0 <= i < f.len() && 0 <= j < f.len() && i != j implies #[trigger] f[i].0 != #[trigger] f[j].0 by {
        if f[i].0 == f[j].0 {
            assert(f[i].0.len() == f[j].0.len());
        }
    }
}

proof fn lemma_top_value_start(kind: TopKind, v: TopView)
    requires
        value_fits(kind, v),
    ensures
        encode_top_value(kind, v).len() > 0,
        !is_ws(encode_top_value(kind, v)[0]),
        encode_top_value(kind, v)[0] != '}' && encode_top_value(kind, v)[0] != ']',
{
    match v {
        TopView::Count(n) => {
            lemma_decimal_digits(n as nat);
        },
        TopView::Rows(r) => {
            match kind {
                TopKind::Rows(l) => {
                    let e = encode_rows(row_fields(l), r);
                    assert(e[0] == '[');
                },
                TopKind::Count => {},
            }
        },
    }
}

proof fn lemma_top_value_round_trip(s: Seq<char>, a: int, kind: TopKind, v: TopView)
    requires
        value_fits(kind, v),
        at(s, a, encode_top_value(kind, v)),
        a + encode_top_value(kind, v).len() < s.len(),
        s[a + encode_top_value(kind, v).len()] == ',' || s[a + encode_top_value(kind, v).len()] == '}',
    ensures
        parse_top_value(s, a, kind) == Some((v, a + encode_top_value(kind, v).len())),
{
    reveal(parse_top_value);
    match v {
        TopView::Count(n) => {
            lemma_number_round_trip(s, a, n);
        },
        TopView::Rows(r) => {
            match kind {
                TopKind::Rows(l) => {
                    lemma_row_names(l);
                    lemma_rows_round_trip(s, a, row_fields(l), r);
                },
                TopKind::Count => {},
            }
        },
    }
}

#[verifier::rlimit(40)]
proof fn lemma_top_members_round_trip(s: Seq<char>, i: int, fields: Seq<(Seq<char>, TopKind)>, values: Seq<TopView>, k: int)
    requires
        values.len() == fields.len(),
        forall|j: int| 0 <= j < values.len() ==> #[trigger] value_fits(fields[j].1, values[j]),
        names_distinct(fields),
        0 <= k < values.len(),
        at(s, i, join_from(top_parts(fields, values), k) + seq!['}']),
    ensures
        parse_top_members(s, i, fields, partial(values, k)) == Some((values, i + join_from(top_parts(fields, values), k).len() + 1)),
    decreases values.len() - k,
{
    let parts = top_parts(fields, values);
    let n = values.len();
    let name = fields[k].0;
    let v = encode_top_value(fields[k].1, values[k]);
    let q = quoted(name);
    let rest = if k + 1 < n {
        seq![','] + join_from(parts, k + 1)
    } else {
        Seq::<char>::empty()
    };
    assert(parts[k] == member(name, v));
    assert(join_from(parts, k) == parts[k] + rest) by {
        if k + 1 >= n {
            assert(parts[k] + rest =~= parts[k]);
        } else {
            assert(join_from(parts, k) == parts[k] + seq![','] + join_from(parts, k + 1));
            assert(parts[k] + seq![','] + join_from(parts, k + 1) =~= parts[k] + rest);
        }
    }
    lemma_member_parts(name, v);
    let whole = q + seq![':'] + v + (rest + seq!['}']);
    assert(join_from(parts, k) + seq!['}'] =~= whole);
    lemma_at_split(s, i, q + seq![':'] + v, rest + seq!['}']);
    lemma_at_split(s, i, q + seq![':'], v);
    lemma_at_split(s, i, q, seq![':']);
    lemma_string_round_trip(s, i, name);
    let c = i + q.len();
    assert(s[c + 0] == seq![':'][0]);
    lemma_skip_none(s, c);
    lemma_field_index(fields, k, 0);
    let acc = partial(values, k);
    assert(acc[k] is None);
    assert(value_fits(fields[k].1, values[k]));
    lemma_top_value_start(fields[k].1, values[k]);
    assert(s[c + 1 + 0] == v[0]);
    lemma_skip_none(s, c + 1);
    let m = c + 1 + v.len();
    let after = rest + seq!['}'];
    assert(s[m + 0] == after[0]);
    lemma_top_value_round_trip(s, c + 1, fields[k].1, values[k]);
    lemma_skip_none(s, m);
    let acc2 = acc.update(k, Some(values[k]));
    assert(acc2 =~= partial(values, k + 1));
    if k + 1 < n {
        assert(s[m] == ',');
        assert(after =~= seq![','] + (join_from(parts, k + 1) + seq!['}']));
        lemma_at_split(s, m, seq![','], join_from(parts, k + 1) + seq!['}']);
        assert(join_from(parts, k + 1) == parts[k + 1] + (if k + 2 < n { seq![','] + join_from(parts, k + 2) } else { Seq::<char>::empty() })) by {
            if k + 2 >= n {
                assert(parts[k + 1] + Seq::<char>::empty() =~= parts[k + 1]);
            } else {
                assert(parts[k + 1] + seq![','] + join_from(parts, k + 2) =~= parts[k + 1] + (seq![','] + join_from(parts, k + 2)));
            }
        }
        lemma_member_parts(fields[k + 1].0, encode_top_value(fields[k + 1].1, values[k + 1]));
        assert(s[m + 1 + 0] == (join_from(parts, k + 1) + seq!['}'])[0]);
        lemma_skip_none(s, m + 1);
        lemma_top_members_round_trip(s, m + 1, fields, values, k + 1);
        assert(join_from(parts, k).len() == parts[k].len() + 1 + join_from(parts, k + 1).len());
    } else {
        assert(s[m] == '}');
        assert(all_filled(acc2));
        assert(unwrap_all(acc2) =~= values);
    }
}

/// Values that fit a layout, written as a payload, read back as themselves.
pub proof fn lemma_payload_round_trip(layout: PayloadLayout, values: Seq<TopView>)
    requires
        values_fit(layout, values),
    ensures
        parse_payload(encode_payload(layout, values), layout) == Some(values),
{
    let s = encode_payload(layout, values);
    let fields = top_fields(layout);
    lemma_top_names(layout);
    let parts = top_parts(fields, values);
    let j = crate::payload::joined(parts);
    assert(s == seq!['{'] + (j + seq!['}'])) by {
        assert(seq!['{'] + j + seq!['}'] =~= seq!['{'] + (j + seq!['}']));
    }
    assert(at(s, 0, s));
    lemma_at_split(s, 0, seq!['{'], j + seq!['}']);
    assert(s[0] == '{');
    lemma_skip_none(s, 0);
    assert(parts[0] == member(fields[0].0, encode_top_value(fields[0].1, values[0])));
    lemma_member_parts(fields[0].0, encode_top_value(fields[0].1, values[0]));
    assert(j == parts[0] + (if 1 < values.len() { seq![','] + join_from(parts, 1) } else { Seq::<char>::empty() })) by {
        if 1 >= values.len() {
            assert(parts[0] + Seq::<char>::empty() =~= parts[0]);
        } else {
            assert(parts[0] + seq![','] + join_from(parts, 1) =~= parts[0] + (seq![','] + join_from(parts, 1)));
        }
    }
    assert(s[1int] == (j + seq!['}'])[0]);
    lemma_skip_none(s, 1);
    assert(partial(values, 0) =~= no_fields(fields.len()));
    lemma_top_members_round_trip(s, 1, fields, values, 0);
    assert(s.len() == 1 + j.len() + 1);
}

} // verus!
