//! Verified helpers over strings and character vectors.

use vstd::prelude::*;
use vstd::string::StrSliceExecFns;
use vstd::string::StringExecFns;
use crate::chars::unicode_space;

verus! {

/// Relies on `String::push` (std): appends exactly the one character.
pub assume_specification[ String::push ](s: &mut String, c: char)
    ensures
        final(s)@ == old(s)@.push(c),
;

/// The characters of a string slice, as a vector.
pub fn chars_of(s: &str) -> (r: Vec<char>)
    ensures
        r@ == s@,
{
    let n = s.unicode_len();
    let mut r: Vec<char> = Vec::new();
    proof {
        assert(r@ =~= s@.subrange(0, 0));
    }
    let mut i: usize = 0;
    while i < n
        invariant
            i <= n,
            n == s@.len(),
            r@ == s@.subrange(0, i as int),
        decreases n - i,
    {
        r.push(s.get_char(i));
        i = i + 1;
        proof {
            assert(r@ =~= s@.subrange(0, i as int));
        }
    }
    proof {
        assert(r@ =~= s@);
    }
    r
}

/// The substring of `s` between `from` and `to`, as a fresh string.
pub fn string_of_range(s: &Vec<char>, from: usize, to: usize) -> (r: String)
    requires
        from <= to,
        to <= s@.len(),
    ensures
        r@ == s@.subrange(from as int, to as int),
{
    let mut r = String::new();
    proof {
        assert(r@ =~= s@.subrange(from as int, from as int));
    }
    let mut i = from;
    while i < to
        invariant
            from <= i <= to,
            to <= s@.len(),
            r@ == s@.subrange(from as int, i as int),
        decreases to - i,
    {
        r.push(s[i]);
        i = i + 1;
        proof {
            assert(r@ =~= s@.subrange(from as int, i as int));
        }
    }
    r
}

/// Two string slices hold the same characters.
pub fn str_eq(a: &str, b: &str) -> (r: bool)
    ensures
        r == (a@ == b@),
{
    let na = a.unicode_len();
    let nb = b.unicode_len();
    if na != nb {
        return false;
    }
    let mut i: usize = 0;
    while i < na
        invariant
            i <= na,
            na == a@.len(),
            na == b@.len(),
            forall|j: int| 0 <= j < i ==> a@[j] == b@[j],
        decreases na - i,
    {
        if a.get_char(i) != b.get_char(i) {
            return false;
        }
        i = i + 1;
    }
    proof {
        assert(a@ =~= b@);
    }
    true
}

/// `p` is a prefix of `s`.
pub open spec fn spec_starts_with(s: Seq<char>, p: Seq<char>) -> bool {
    p.len() <= s.len() && (forall|j: int| 0 <= j < p.len() ==> s[j] == p[j])
}

/// The characters of `s` begin with the characters of `p`.
pub fn chars_start_with(s: &Vec<char>, p: &str) -> (r: bool)
    ensures
        r == spec_starts_with(s@, p@),
{
    let np = p.unicode_len();
    if np > s.len() {
        return false;
    }
    let mut i: usize = 0;
    while i < np
        invariant
            i <= np,
            np == p@.len(),
            np <= s@.len(),
            forall|j: int| 0 <= j < i ==> s@[j] == p@[j],
        decreases np - i,
    {
        if s[i] != p.get_char(i) {
            return false;
        }
        i = i + 1;
    }
    true
}

/// The sequences joined with `sep` between consecutive items.
pub open spec fn spec_join(items: Seq<Seq<char>>, sep: Seq<char>) -> Seq<char>
    decreases items.len(),
{
    if items.len() == 0 {
        Seq::empty()
    } else if items.len() == 1 {
        items[0]
    } else {
        items[0] + sep + spec_join(items.drop_first(), sep)
    }
}

pub proof fn lemma_join_push(items: Seq<Seq<char>>, sep: Seq<char>, x: Seq<char>)
    ensures
        spec_join(items.push(x), sep) == if items.len() == 0 {
            x
        } else {
            spec_join(items, sep) + sep + x
        },
    decreases items.len(),
{
    if items.len() == 0 {
        assert(items.push(x) =~= seq![x]);
    } else if items.len() == 1 {
        assert(items.push(x).drop_first() =~= seq![x]);
        assert(items.push(x)[0] == items[0]);
        assert(spec_join(seq![x], sep) == x);
        assert(spec_join(items.push(x), sep) == items[0] + sep + x);
        assert(spec_join(items, sep) == items[0]);
    } else {
        lemma_join_push(items.drop_first(), sep, x);
        assert(items.push(x).drop_first() =~= items.drop_first().push(x));
        assert(items.push(x)[0] == items[0]);
        assert((items[0] + sep + (spec_join(items.drop_first(), sep) + sep + x)) =~= ((items[0]
            + sep + spec_join(items.drop_first(), sep)) + sep + x));
    }
}

/// The views of a vector of strings.
pub open spec fn views_of(items: Seq<String>) -> Seq<Seq<char>> {
    items.map_values(|s: String| s@)
}

/// The strings joined with the separator between consecutive items.
pub fn join_strings(items: &Vec<String>, sep: &str) -> (r: String)
    ensures
        r@ == spec_join(views_of(items@), sep@),
{
    let mut r = String::new();
    let mut i: usize = 0;
    proof {
        assert(views_of(items@.subrange(0, 0)) =~= Seq::<Seq<char>>::empty());
    }
    while i < items.len()
        invariant
            i <= items@.len(),
            r@ == spec_join(views_of(items@.subrange(0, i as int)), sep@),
        decreases items@.len() - i,
    {
        if i > 0 {
            r.append(sep);
        }
        r.append(items[i].as_str());
        proof {
            let prefix = views_of(items@.subrange(0, i as int));
            lemma_join_push(prefix, sep@, items@[i as int]@);
            assert(views_of(items@.subrange(0, i as int + 1)) =~= prefix.push(items@[i as int]@));
        }
        i = i + 1;
    }
    proof {
        assert(items@.subrange(0, items@.len() as int) =~= items@);
    }
    r
}

/// The character repeated `n` times.
pub fn repeat_char(c: char, n: usize) -> (r: String)
    ensures
        r@ == Seq::new(n as nat, |i: int| c),
{
    let mut r = String::new();
    let mut i: usize = 0;
    proof {
        assert(r@ =~= Seq::new(0, |j: int| c));
    }
    while i < n
        invariant
            i <= n,
            r@ == Seq::new(i as nat, |j: int| c),
        decreases n - i,
    {
        r.push(c);
        i = i + 1;
        proof {
            assert(r@ =~= Seq::new(i as nat, |j: int| c));
        }
    }
    r
}

/// First position at or after `i` (and before `end`) whose character is not
/// whitespace; `end` when the whole run is whitespace.
pub open spec fn space_end(s: Seq<char>, i: int, end: int) -> int
    decreases end - i,
{
    if i < end && 0 <= i < s.len() && unicode_space(s[i]) {
        space_end(s, i + 1, end)
    } else {
        i
    }
}

/// Last position at or before `i` (and after `begin`) such that the character
/// just before it is not whitespace; `begin` when the whole run is whitespace.
pub open spec fn space_start(s: Seq<char>, begin: int, i: int) -> int
    decreases i - begin,
{
    if i > begin && 0 < i <= s.len() && unicode_space(s[i - 1]) {
        space_start(s, begin, i - 1)
    } else {
        i
    }
}

/// Line breaks flattened to spaces.
pub open spec fn spec_flatten_nl(s: Seq<char>) -> Seq<char> {
    s.map_values(|c: char| if c == '\n' || c == '\r' { ' ' } else { c })
}

/// The slice of `s` between `from` and `to` with surrounding whitespace
/// removed and inner line breaks flattened to spaces.
pub open spec fn spec_trim_flatten(s: Seq<char>, from: int, to: int) -> Seq<char> {
    let a = space_end(s, from, to);
    let b = space_start(s, a, to);
    spec_flatten_nl(s.subrange(a, b))
}

pub proof fn lemma_space_end_bounds(s: Seq<char>, i: int, end: int)
    requires
        0 <= i <= end <= s.len(),
    ensures
        i <= space_end(s, i, end) <= end,
    decreases end - i,
{
    if i < end && unicode_space(s[i]) {
        lemma_space_end_bounds(s, i + 1, end);
    }
}

pub proof fn lemma_space_start_bounds(s: Seq<char>, begin: int, i: int)
    requires
        0 <= begin <= i <= s.len(),
    ensures
        begin <= space_start(s, begin, i) <= i,
    decreases i - begin,
{
    if i > begin && unicode_space(s[i - 1]) {
        lemma_space_start_bounds(s, begin, i - 1);
    }
}

/// Trims whitespace around the given slice and flattens the line breaks
/// inside it to single spaces.
pub fn trim_flatten(s: &Vec<char>, from: usize, to: usize) -> (r: String)
    requires
        from <= to,
        to <= s@.len(),
    ensures
        r@ == spec_trim_flatten(s@, from as int, to as int),
{
    let mut a = from;
    while a < to && is_space(s[a])
        invariant
            from <= a <= to,
            to <= s@.len(),
            space_end(s@, from as int, to as int) == space_end(s@, a as int, to as int),
        decreases to - a,
    {
        a = a + 1;
    }
    proof {
        assert(space_end(s@, a as int, to as int) == a);
    }
    let mut b = to;
    while b > a && is_space(s[b - 1])
        invariant
            a <= b <= to,
            to <= s@.len(),
            space_start(s@, a as int, to as int) == space_start(s@, a as int, b as int),
        decreases b,
    {
        b = b - 1;
    }
    proof {
        assert(space_start(s@, a as int, b as int) == b);
    }
    let ghost mid = s@.subrange(a as int, b as int);
    let mut r = String::new();
    let mut i = a;
    proof {
        assert(r@ =~= spec_flatten_nl(mid.subrange(0, 0)));
    }
    while i < b
        invariant
            a <= i <= b,
            b <= s@.len(),
            mid == s@.subrange(a as int, b as int),
            r@ == spec_flatten_nl(mid.subrange(0, i - a)),
        decreases b - i,
    {
        let c = s[i];
        if c == '\n' || c == '\r' {
            r.push(' ');
        } else {
            r.push(c);
        }
        i = i + 1;
        proof {
            assert(r@ =~= spec_flatten_nl(mid.subrange(0, i - a)));
        }
    }
    proof {
        assert(mid.subrange(0, b - a) =~= mid);
    }
    r
}

/// The character is whitespace in the sense of `char::is_whitespace`.
pub fn is_space(c: char) -> (r: bool)
    ensures
        r == unicode_space(c),
{
    c.is_whitespace()
}

} // verus!
