//! Character-level text helpers: conversion between strings and character
//! vectors, a code-point lexicographic order, and decimal digits.
use vstd::prelude::*;

verus! {

broadcast use vstd::string::group_string_axioms;

/// The characters of a string slice, in order.
pub fn chars_of(s: &str) -> (r: Vec<char>)
    ensures
        r@ == s@,
{
    let mut r: Vec<char> = Vec::new();
    for c in iter: s.chars()
        invariant
            r@ == iter.seq().take(iter.index() as int),
            iter.seq() == s@,
    {
        r.push(c);
    }
    r
}

/// `String::push`: appends one character.
#[verifier::external_body]
pub(crate) fn push_char(s: &mut String, c: char)
    ensures
        final(s)@ == old(s)@.push(c),
{
    s.push(c);
}

/// Appends every character of `cs` to `s`.
pub fn append_chars(s: &mut String, cs: &Vec<char>)
    ensures
        final(s)@ == old(s)@ + cs@,
{
    let ghost start = s@;
    let mut i: usize = 0;
    while i < cs.len()
        invariant
            i <= cs.len(),
            s@ == start + cs@.take(i as int),
        decreases cs.len() - i,
    {
        push_char(s, cs[i]);
        proof {
            assert(cs@.take(i as int + 1) =~= cs@.take(i as int).push(cs@[i as int]));
        }
        i += 1;
    }
    proof {
        assert(cs@.take(cs.len() as int) =~= cs@);
    }
}

/// A string holding exactly the characters of `cs`.
pub fn string_from_chars(cs: &Vec<char>) -> (r: String)
    ensures
        r@ == cs@,
{
    let mut r = String::new();
    append_chars(&mut r, cs);
    assert(r@ =~= cs@);
    r
}

/// Appends the characters of `t` to `s`.
pub fn append_str(s: &mut String, t: &str)
    ensures
        final(s)@ == old(s)@ + t@,
{
    let cs = chars_of(t);
    append_chars(s, &cs);
}

/// Three-way code-point lexicographic comparison: negative, zero or positive.
pub open spec fn text_order(a: Seq<char>, b: Seq<char>) -> int
    decreases a.len(),
{
    if a.len() == 0 {
        if b.len() == 0 {
            0
        } else {
            -1
        }
    } else if b.len() == 0 {
        1
    } else if a[0] < b[0] {
        -1
    } else if a[0] > b[0] {
        1
    } else {
        text_order(a.drop_first(), b.drop_first())
    }
}

/// `a` sorts strictly before `b` in code-point order (the order of `str`).
pub open spec fn text_lt(a: Seq<char>, b: Seq<char>) -> bool {
    text_order(a, b) < 0
}

/// The comparison is one of -1, 0, 1 and swapping the arguments negates it.
pub proof fn lemma_text_order_antisymmetric(a: Seq<char>, b: Seq<char>)
    ensures
        text_order(a, b) == -text_order(b, a),
        -1 <= text_order(a, b) <= 1,
    decreases a.len(),
{
    if a.len() > 0 && b.len() > 0 && a[0] == b[0] {
        lemma_text_order_antisymmetric(a.drop_first(), b.drop_first());
    }
}

/// The comparison is zero exactly on equal texts.
pub proof fn lemma_text_order_equal(a: Seq<char>, b: Seq<char>)
    ensures
        (text_order(a, b) == 0) == (a == b),
    decreases a.len(),
{
    if a.len() > 0 && b.len() > 0 {
        if a[0] == b[0] {
            lemma_text_order_equal(a.drop_first(), b.drop_first());
            if a.drop_first() == b.drop_first() {
                assert(a =~= seq![a[0]] + a.drop_first());
                assert(b =~= seq![b[0]] + b.drop_first());
            }
            if a == b {
                assert(a.drop_first() =~= b.drop_first());
            }
        } else {
            if a == b {
                assert(a[0] == b[0]);
            }
        }
    } else if a.len() == 0 && b.len() == 0 {
        assert(a =~= b);
    }
}

/// The strict order is transitive.
pub proof fn lemma_text_lt_transitive(a: Seq<char>, b: Seq<char>, c: Seq<char>)
    requires
        text_lt(a, b),
        text_lt(b, c),
    ensures
        text_lt(a, c),
    decreases a.len(),
{
    if a.len() > 0 && b.len() > 0 && c.len() > 0 && a[0] == b[0] && b[0] == c[0] {
        lemma_text_lt_transitive(a.drop_first(), b.drop_first(), c.drop_first());
    }
}

/// Code-point comparison of two character vectors.
pub fn compare_chars(a: &Vec<char>, b: &Vec<char>) -> (r: i8)
    ensures
        r as int == text_order(a@, b@),
{
    let mut i: usize = 0;
    assert(a@.skip(0) =~= a@);
    assert(b@.skip(0) =~= b@);
    while i < a.len() && i < b.len()
        invariant
            i <= a.len(),
            i <= b.len(),
            text_order(a@, b@) == text_order(a@.skip(i as int), b@.skip(i as int)),
        decreases a.len() - i,
    {
        let x = a[i];
        let y = b[i];
        if x < y {
            return -1;
        }
        if x > y {
            return 1;
        }
        proof {
            assert(a@.skip(i as int).drop_first() =~= a@.skip(i as int + 1));
            assert(b@.skip(i as int).drop_first() =~= b@.skip(i as int + 1));
        }
        i += 1;
    }
    if i == a.len() && i == b.len() {
        0
    } else if i == a.len() {
        -1
    } else {
        1
    }
}

/// Code-point comparison of two string slices (the order of `str`).
pub fn compare_text(a: &str, b: &str) -> (r: i8)
    ensures
        r as int == text_order(a@, b@),
{
    let x = chars_of(a);
    let y = chars_of(b);
    compare_chars(&x, &y)
}

/// Whether two strings hold the same characters.
pub fn same_text(a: &str, b: &str) -> (r: bool)
    ensures
        r == (a@ == b@),
{
    let c = compare_text(a, b);
    proof {
        lemma_text_order_equal(a@, b@);
    }
    c == 0
}

/// The decimal digit for `d`.
pub open spec fn digit_char(d: nat) -> char {
    if d == 0 {
        '0'
    } else if d == 1 {
        '1'
    } else if d == 2 {
        '2'
    } else if d == 3 {
        '3'
    } else if d == 4 {
        '4'
    } else if d == 5 {
        '5'
    } else if d == 6 {
        '6'
    } else if d == 7 {
        '7'
    } else if d == 8 {
        '8'
    } else {
        '9'
    }
}

/// The decimal representation of `n`, without leading zeros.
pub open spec fn decimal(n: nat) -> Seq<char>
    decreases n,
{
    if n < 10 {
        seq![digit_char(n)]
    } else {
        decimal(n / 10).push(digit_char(n % 10))
    }
}

fn exec_digit_char(d: u128) -> (c: char)
    requires
        d < 10,
    ensures
        c == digit_char(d as nat),
{
    if d == 0 {
        '0'
    } else if d == 1 {
        '1'
    } else if d == 2 {
        '2'
    } else if d == 3 {
        '3'
    } else if d == 4 {
        '4'
    } else if d == 5 {
        '5'
    } else if d == 6 {
        '6'
    } else if d == 7 {
        '7'
    } else if d == 8 {
        '8'
    } else {
        '9'
    }
}

/// The decimal digits of `n`.
pub fn decimal_chars(n: u128) -> (r: Vec<char>)
    ensures
        r@ == decimal(n as nat),
    decreases n,
{
    if n < 10 {
        let mut r = Vec::new();
        r.push(exec_digit_char(n));
        assert(r@ =~= decimal(n as nat));
        r
    } else {
        let mut r = decimal_chars(n / 10);
        r.push(exec_digit_char(n % 10));
        r
    }
}

/// Digits grouped in threes from the right with commas, e.g. `1,234,567`.
pub open spec fn grouped_thousands(d: Seq<char>) -> Seq<char>
    decreases d.len(),
{
    if d.len() <= 3 {
        d
    } else {
        grouped_thousands(d.take(d.len() - 3)) + seq![','] + d.skip(d.len() - 3)
    }
}

/// The first `i` characters of `d`, with a comma before every index `k > 0`
/// whose remainder mod 3 is `first`.
spec fn grouped_prefix(d: Seq<char>, i: int, first: int) -> Seq<char>
    decreases i,
{
    if i <= 0 {
        seq![]
    } else if i - 1 > 0 && (i - 1) % 3 == first {
        grouped_prefix(d, i - 1, first) + seq![','] + seq![d[i - 1]]
    } else {
        grouped_prefix(d, i - 1, first) + seq![d[i - 1]]
    }
}

proof fn lemma_grouped_prefix_take(d: Seq<char>, m: int, i: int, first: int)
    requires
        0 <= i <= m <= d.len(),
    ensures
        grouped_prefix(d, i, first) == grouped_prefix(d.take(m), i, first),
    decreases i,
{
    if i > 0 {
        lemma_grouped_prefix_take(d, m, i - 1, first);
    }
}

proof fn lemma_grouped_prefix_full(d: Seq<char>)
    ensures
        grouped_prefix(d, d.len() as int, (d.len() % 3) as int) == grouped_thousands(d),
    decreases d.len(),
{
    let n = d.len() as int;
    let first = n % 3;
    reveal_with_fuel(grouped_prefix, 4);
    if n <= 3 {
        // No index in 1..n is congruent to n mod 3 when n <= 3.
        if n >= 1 {
            assert(grouped_prefix(d, 1, first) =~= seq![d[0]]);
        }
        if n >= 2 {
            assert(grouped_prefix(d, 2, first) =~= seq![d[0], d[1]]);
        }
        if n == 3 {
            assert(grouped_prefix(d, 3, first) =~= seq![d[0], d[1], d[2]]);
        }
        assert(grouped_prefix(d, n, first) =~= d);
    } else {
        let m = n - 3;
        lemma_grouped_prefix_full(d.take(m));
        lemma_grouped_prefix_take(d, m, m, first);
        assert(m % 3 == first);
        assert(grouped_prefix(d, m + 1, first) =~= grouped_prefix(d, m, first) + seq![','] + seq![d[m]]);
        assert(grouped_prefix(d, m + 2, first) =~= grouped_prefix(d, m + 1, first) + seq![d[m + 1]]);
        assert(grouped_prefix(d, n, first) =~= grouped_prefix(d, m + 2, first) + seq![d[m + 2]]);
        assert(grouped_prefix(d, n, first) =~= grouped_prefix(d, m, first) + seq![','] + d.skip(m));
    }
}

/// Groups a digit string with commas, walking the digits from the left.
pub fn group_digits(d: &Vec<char>) -> (r: Vec<char>)
    ensures
        r@ == grouped_thousands(d@),
{
    let n = d.len();
    let first = n % 3;
    let mut r: Vec<char> = Vec::new();
    let mut i: usize = 0;
    while i < n
        invariant
            n == d.len(),
            first == n % 3,
            i <= n,
            r@ == grouped_prefix(d@, i as int, first as int),
        decreases n - i,
    {
        if i > 0 && i % 3 == first {
            r.push(',');
        }
        r.push(d[i]);
        proof {
            assert(r@ =~= grouped_prefix(d@, i as int + 1, first as int));
        }
        i += 1;
    }
    proof {
        lemma_grouped_prefix_full(d@);
    }
    r
}

/// The decimal representation of a signed number, with a leading minus when negative.
pub open spec fn signed_decimal(n: int) -> Seq<char> {
    if n < 0 {
        seq!['-'] + decimal((-n) as nat)
    } else {
        decimal(n as nat)
    }
}

/// Appends the decimal digits of `n`.
pub fn append_decimal(s: &mut String, n: u128)
    ensures
        final(s)@ == old(s)@ + decimal(n as nat),
{
    let d = decimal_chars(n);
    append_chars(s, &d);
}

/// Appends `n` in decimal, with a leading minus when negative.
pub fn append_signed(s: &mut String, n: i64)
    ensures
        final(s)@ == old(s)@ + signed_decimal(n as int),
{
    if n < 0 {
        push_char(s, '-');
        let m: u128 = (0i128 - n as i128) as u128;
        append_decimal(s, m);
        assert(s@ =~= old(s)@ + signed_decimal(n as int));
    } else {
        append_decimal(s, n as u128);
    }
}

} // verus!
