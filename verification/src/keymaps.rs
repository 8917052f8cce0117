//! The XKB models, layouts and variants offered for keyboard configuration:
//! the entries `localectl` lists, or built-in fallbacks when it cannot.
use vstd::prelude::*;

use crate::database::{char_is_whitespace, unicode_white_space};
use crate::text::{chars_of, push_char, same_text};

verus! {

/// `s` without leading whitespace.
pub open spec fn trim_start(s: Seq<char>) -> Seq<char>
    decreases s.len(),
{
    if s.len() > 0 && unicode_white_space(s[0]) {
        trim_start(s.drop_first())
    } else {
        s
    }
}

/// `s` without trailing whitespace.
pub open spec fn trim_end(s: Seq<char>) -> Seq<char>
    decreases s.len(),
{
    if s.len() > 0 && unicode_white_space(s.last()) {
        trim_end(s.drop_last())
    } else {
        s
    }
}

/// `str::trim`: `s` without leading or trailing whitespace.
pub open spec fn trimmed(s: Seq<char>) -> Seq<char> {
    trim_end(trim_start(s))
}

proof fn lemma_trim_start_at(s: Seq<char>, i: int)
    requires
        0 <= i <= s.len(),
        forall|k: int| 0 <= k < i ==> unicode_white_space(#[trigger] s[k]),
        i == s.len() || !unicode_white_space(s[i]),
    ensures
        trim_start(s) == s.skip(i),
    decreases i,
{
    if i > 0 {
        assert forall|k: int| 0 <= k < i - 1 implies unicode_white_space(
            #[trigger] s.drop_first()[k],
        ) by {
            assert(s.drop_first()[k] == s[k + 1]);
        }
        lemma_trim_start_at(s.drop_first(), i - 1);
        assert(s.drop_first().skip(i - 1) =~= s.skip(i));
    } else {
        assert(s.skip(0) =~= s);
    }
}

proof fn lemma_trim_end_at(s: Seq<char>, j: int)
    requires
        0 <= j <= s.len(),
        forall|k: int| j <= k < s.len() ==> unicode_white_space(#[trigger] s[k]),
        j == 0 || !unicode_white_space(s[j - 1]),
    ensures
        trim_end(s) == s.take(j),
    decreases s.len() - j,
{
    if j < s.len() {
        assert forall|k: int| j <= k < s.len() - 1 implies unicode_white_space(
            #[trigger] s.drop_last()[k],
        ) by {
            assert(s.drop_last()[k] == s[k]);
        }
        lemma_trim_end_at(s.drop_last(), j);
        assert(s.drop_last().take(j) =~= s.take(j));
    } else {
        assert(s.take(j) =~= s);
    }
}

/// `str::trim`.
pub fn trim_text(s: &Vec<char>) -> (r: Vec<char>)
    ensures
        r@ == trimmed(s@),
{
    let n = s.len();
    let mut i: usize = 0;
    while i < n && char_is_whitespace(s[i])
        invariant
            n == s.len(),
            i <= n,
            forall|k: int| 0 <= k < i ==> unicode_white_space(#[trigger] s@[k]),
        decreases n - i,
    {
        i += 1;
    }
    proof {
        lemma_trim_start_at(s@, i as int);
    }
    let ghost t = s@.skip(i as int);
    let mut j: usize = n;
    while j > i && char_is_whitespace(s[j - 1])
        invariant
            n == s.len(),
            i <= j <= n,
            forall|k: int| j <= k < n ==> unicode_white_space(#[trigger] s@[k]),
        decreases j,
    {
        j -= 1;
    }
    proof {
        assert forall|k: int| j - i <= k < t.len() implies unicode_white_space(#[trigger] t[k]) by {
            assert(t[k] == s@[k + i]);
        }
        if j > i {
            assert(t[j - i - 1] == s@[j - 1]);
        }
        lemma_trim_end_at(t, j - i);
    }
    let mut r: Vec<char> = Vec::new();
    let mut k: usize = i;
    while k < j
        invariant
            i <= k <= j <= n,
            n == s.len(),
            r@ == s@.subrange(i as int, k as int),
        decreases j - k,
    {
        r.push(s[k]);
        proof {
            assert(s@.subrange(i as int, k as int + 1) =~= s@.subrange(i as int, k as int).push(
                s@[k as int],
            ));
        }
        k += 1;
    }
    proof {
        assert(t.take(j - i) =~= s@.subrange(i as int, j as int));
    }
    r
}

/// `s` split at each newline, as `str::split('\n')` splits it.
pub open spec fn pieces(s: Seq<char>) -> Seq<Seq<char>>
    decreases s.len(),
{
    if s.len() == 0 {
        seq![Seq::empty()]
    } else {
        let p = pieces(s.drop_last());
        if s.last() == '\n' {
            p.push(Seq::empty())
        } else {
            p.update(p.len() - 1, p.last().push(s.last()))
        }
    }
}

proof fn lemma_pieces_nonempty(s: Seq<char>)
    ensures
        pieces(s).len() >= 1,
    decreases s.len(),
{
    if s.len() > 0 {
        lemma_pieces_nonempty(s.drop_last());
    }
}

/// The trimmed pieces that are not empty.
pub open spec fn entries_of(ps: Seq<Seq<char>>) -> Seq<Seq<char>>
    decreases ps.len(),
{
    if ps.len() == 0 {
        Seq::empty()
    } else {
        let rest = entries_of(ps.drop_last());
        let t = trimmed(ps.last());
        if t.len() > 0 {
            rest.push(t)
        } else {
            rest
        }
    }
}

/// The entries `localectl` lists: its lines, trimmed, without empty ones.
pub open spec fn listed_entries(text: Seq<char>) -> Seq<Seq<char>> {
    entries_of(pieces(text))
}

/// The characters of each string.
pub open spec fn strings_view(v: Seq<String>) -> Seq<Seq<char>> {
    v.map_values(|t: String| t@)
}

fn push_entry(out: &mut Vec<String>, piece: &Vec<char>, done: Ghost<Seq<Seq<char>>>)
    requires
        strings_view(old(out)@) == entries_of(done@),
    ensures
        strings_view(final(out)@) == entries_of(done@.push(piece@)),
{
    let t = trim_text(piece);
    proof {
        assert(done@.push(piece@).drop_last() =~= done@);
    }
    if t.len() > 0 {
        let mut line = String::new();
        let mut k: usize = 0;
        while k < t.len()
            invariant
                k <= t.len(),
                line@ == t@.take(k as int),
            decreases t.len() - k,
        {
            push_char(&mut line, t[k]);
            proof {
                assert(t@.take(k as int + 1) =~= t@.take(k as int).push(t@[k as int]));
            }
            k += 1;
        }
        proof {
            assert(t@.take(k as int) =~= t@);
            assert(strings_view(out@.push(line)) =~= strings_view(out@).push(line@));
        }
        out.push(line);
    }
}

/// The entries of `localectl` output.
pub fn localectl_entries(text: &str) -> (r: Vec<String>)
    ensures
        strings_view(r@) == listed_entries(text@),
{
    let s = chars_of(text);
    let mut out: Vec<String> = Vec::new();
    let mut current: Vec<char> = Vec::new();
    let ghost mut done: Seq<Seq<char>> = Seq::empty();
    let mut i: usize = 0;
    proof {
        assert(s@.take(0) =~= Seq::<char>::empty());
        assert(done.push(current@) =~= pieces(s@.take(0)));
    }
    while i < s.len()
        invariant
            s@ == text@,
            i <= s.len(),
            done.push(current@) == pieces(s@.take(i as int)),
            strings_view(out@) == entries_of(done),
        decreases s.len() - i,
    {
        let c = s[i];
        proof {
            assert(s@.take(i as int + 1).drop_last() =~= s@.take(i as int));
            assert(s@.take(i as int + 1).last() == c);
        }
        if c == '\n' {
            push_entry(&mut out, &current, Ghost(done));
            proof {
                done = done.push(current@);
            }
            current = Vec::new();
            proof {
                assert(done.push(current@) =~= pieces(s@.take(i as int + 1)));
            }
        } else {
            let ghost before = done.push(current@);
            current.push(c);
            proof {
                assert(done.push(current@) =~= before.update(before.len() - 1, before.last().push(c)));
            }
        }
        i += 1;
    }
    proof {
        assert(s@.take(i as int) =~= text@);
    }
    push_entry(&mut out, &current, Ghost(done));
    out
}

/// The XKB models offered when `localectl` cannot list them.
pub open spec fn fallback_models() -> Seq<Seq<char>> {
    seq!["pc105"@, "pc104"@, "pc102"@, "pc101"@, "chromebook"@, "macbook79"@]
}

/// The XKB layouts offered when `localectl` cannot list them.
pub open spec fn fallback_layouts() -> Seq<Seq<char>> {
    seq!["us"@, "de"@, "fr"@, "gb"@, "es"@, "it"@, "jp"@, "ru"@, "cn"@]
}

/// The variants offered for a layout when `localectl` cannot list them.
pub open spec fn fallback_variants(layout: Seq<char>) -> Seq<Seq<char>> {
    if layout == "us"@ {
        seq![""@, "altgr-intl"@, "dvorak"@, "colemak"@, "workman"@]
    } else if layout == "de"@ {
        seq![""@, "nodeadkeys"@, "neo"@, "bone"@]
    } else {
        Seq::empty()
    }
}

fn strings(items: &[&str]) -> (r: Vec<String>)
    ensures
        strings_view(r@) == items@.map_values(|t: &str| t@),
{
    let mut out: Vec<String> = Vec::new();
    let mut i: usize = 0;
    while i < items.len()
        invariant
            i <= items.len(),
            strings_view(out@) == items@.take(i as int).map_values(|t: &str| t@),
        decreases items.len() - i,
    {
        let item = items[i];
        let owned = item.to_string();
        proof {
            assert(strings_view(out@.push(owned)) =~= strings_view(out@).push(item@));
        }
        out.push(owned);
        proof {
            assert(items@.take(i as int + 1).map_values(|t: &str| t@) =~= items@.take(
                i as int,
            ).map_values(|t: &str| t@).push(item@));
        }
        i += 1;
    }
    proof {
        assert(items@.take(i as int) =~= items@);
    }
    out
}

/// The models `localectl` listed, or the fallbacks when it could not list them.
pub fn get_models(listed: Option<Vec<String>>) -> (r: Vec<String>)
    ensures
        strings_view(r@) == match listed {
            Some(v) => strings_view(v@),
            None => fallback_models(),
        },
{
    match listed {
        Some(v) => v,
        None => {
            let r = strings(&["pc105", "pc104", "pc102", "pc101", "chromebook", "macbook79"]);
            proof {
                assert(strings_view(r@) =~= fallback_models());
            }
            r
        },
    }
}

/// The layouts `localectl` listed, or the fallbacks when it could not list them.
pub fn get_layouts(listed: Option<Vec<String>>) -> (r: Vec<String>)
    ensures
        strings_view(r@) == match listed {
            Some(v) => strings_view(v@),
            None => fallback_layouts(),
        },
{
    match listed {
        Some(v) => v,
        None => {
            let r = strings(&["us", "de", "fr", "gb", "es", "it", "jp", "ru", "cn"]);
            proof {
                assert(strings_view(r@) =~= fallback_layouts());
            }
            r
        },
    }
}

/// The variants of a layout: none for no layout, else those `localectl`
/// listed, or the fallbacks when it could not list them.
pub fn get_variants(layout: &str, listed: Option<Vec<String>>) -> (r: Vec<String>)
    ensures
        strings_view(r@) == if layout@.len() == 0 {
            Seq::empty()
        } else {
            match listed {
                Some(v) => strings_view(v@),
                None => fallback_variants(layout@),
            }
        },
{
    if chars_of(layout).len() == 0 {
        let r: Vec<String> = Vec::new();
        assert(strings_view(r@) =~= Seq::<Seq<char>>::empty());
        return r;
    }
    match listed {
        Some(v) => v,
        None => {
            if same_text(layout, "us") {
                let r = strings(&["", "altgr-intl", "dvorak", "colemak", "workman"]);
                proof {
                    assert(strings_view(r@) =~= fallback_variants(layout@));
                }
                r
            } else if same_text(layout, "de") {
                let r = strings(&["", "nodeadkeys", "neo", "bone"]);
                proof {
                    assert(strings_view(r@) =~= fallback_variants(layout@));
                }
                r
            } else {
                let r: Vec<String> = Vec::new();
                assert(strings_view(r@) =~= fallback_variants(layout@));
                r
            }
        },
    }
}

} // verus!
