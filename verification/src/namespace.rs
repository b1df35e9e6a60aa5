//! Dotted namespace paths: `a.b.c`, ordered and split at the last dot.

use vstd::prelude::*;
use vstd::string::StrSliceExecFns;
use crate::strutil::spec_starts_with;

verus! {

/// Index of the last `.` strictly before position `i`, or `-1` if there is
/// none.
pub open spec fn last_dot_before(s: Seq<char>, i: int) -> int
    decreases i,
{
    if i <= 0 {
        -1
    } else if 0 <= i - 1 < s.len() && s[i - 1] == '.' {
        i - 1
    } else {
        last_dot_before(s, i - 1)
    }
}

pub proof fn lemma_last_dot_bounds(s: Seq<char>, i: int)
    requires
        0 <= i,
    ensures
        -1 <= last_dot_before(s, i) < i,
        last_dot_before(s, i) >= 0 ==> last_dot_before(s, i) < s.len() && s[last_dot_before(s, i)]
            == '.',
    decreases i,
{
    if i <= 0 {
    } else if 0 <= i - 1 < s.len() && s[i - 1] == '.' {
    } else {
        lemma_last_dot_bounds(s, i - 1);
    }
}

/// The dotted prefix of a path: everything before the last dot, or nothing
/// when the path has no dot.
pub open spec fn spec_ns_parent(s: Seq<char>) -> Option<Seq<char>> {
    let d = last_dot_before(s, s.len() as int);
    if d >= 0 {
        Option::Some(s.subrange(0, d))
    } else {
        Option::None
    }
}

/// The trailing segment of a path: everything after the last dot, or the
/// whole path when it has no dot.
pub open spec fn spec_ns_last(s: Seq<char>) -> Seq<char> {
    let d = last_dot_before(s, s.len() as int);
    s.subrange(d + 1, s.len() as int)
}

/// `a` names an ancestor namespace of `b`: `b` continues `a` with a dot.
pub open spec fn spec_is_ancestor(a: Seq<char>, b: Seq<char>) -> bool {
    spec_starts_with(b, a) && b.len() > a.len() && b[a.len() as int] == '.'
}

/// Every dot-separated segment of the path is non-empty.
pub open spec fn spec_validate(s: Seq<char>) -> bool {
    &&& s.len() > 0
    &&& s[0] != '.'
    &&& s[s.len() - 1] != '.'
    &&& forall|i: int| 0 <= i < s.len() - 1 ==> !(#[trigger] s[i] == '.' && s[i + 1] == '.')
}

/// Index of the last dot of the whole string, when there is one.
fn find_last_dot(s: &str) -> (r: Option<usize>)
    ensures
        match r {
            Option::Some(d) => last_dot_before(s@, s@.len() as int) == d as int,
            Option::None => last_dot_before(s@, s@.len() as int) == -1,
        },
{
    let n = s.unicode_len();
    let mut i = n;
    while i > 0
        invariant
            i <= n,
            n == s@.len(),
            last_dot_before(s@, n as int) == last_dot_before(s@, i as int),
        decreases i,
    {
        if s.get_char(i - 1) == '.' {
            proof {
                assert(last_dot_before(s@, i as int) == i - 1);
            }
            return Option::Some(i - 1);
        }
        proof {
            assert(last_dot_before(s@, i as int) == last_dot_before(s@, i as int - 1));
        }
        i = i - 1;
    }
    proof {
        assert(last_dot_before(s@, 0) == -1);
    }
    Option::None
}

/// A dotted namespace path, split and compared through its text.
pub trait Namespace {
    /// The characters of the path.
    spec fn ns_view(&self) -> Seq<char>;

    /// Whether this path names an ancestor namespace of `other`.
    fn is_ancestor(&self, other: &Self) -> (r: bool)
        ensures
            r == spec_is_ancestor(self.ns_view(), other.ns_view()),
    ;

    /// Whether every dot-separated segment of the path is non-empty.
    fn validate(&self) -> (r: bool)
        ensures
            r == spec_validate(self.ns_view()),
    ;

    /// The dotted prefix, when the path has a dot.
    fn parent(&self) -> (r: Option<&Self>)
        ensures
            match r {
                Option::Some(p) => spec_ns_parent(self.ns_view()) == Option::Some(p.ns_view()),
                Option::None => spec_ns_parent(self.ns_view()) is None,
            },
    ;

    /// The trailing segment of the path.
    fn last(&self) -> (r: &Self)
        ensures
            r.ns_view() == spec_ns_last(self.ns_view()),
    ;
}

impl Namespace for str {
    open spec fn ns_view(&self) -> Seq<char> {
        self@
    }

    fn is_ancestor(&self, other: &Self) -> (r: bool)
    {
        let na = self.unicode_len();
        let nb = other.unicode_len();
        if nb <= na {
            return false;
        }
        let mut i: usize = 0;
        while i < na
            invariant
                i <= na,
                na == self@.len(),
                nb == other@.len(),
                na < nb,
                forall|j: int| 0 <= j < i ==> other@[j] == self@[j],
            decreases na - i,
        {
            if other.get_char(i) != self.get_char(i) {
                return false;
            }
            i = i + 1;
        }
        other.get_char(na) == '.'
    }

    fn validate(&self) -> (r: bool)
    {
        let n = self.unicode_len();
        if n == 0 {
            return false;
        }
        if self.get_char(0) == '.' {
            return false;
        }
        if self.get_char(n - 1) == '.' {
            return false;
        }
        let mut i: usize = 0;
        while i + 1 < n
            invariant
                i < n,
                n == self@.len(),
                forall|j: int| 0 <= j < i ==> !(#[trigger] self@[j] == '.' && self@[j + 1] == '.'),
            decreases n - i,
        {
            if self.get_char(i) == '.' && self.get_char(i + 1) == '.' {
                return false;
            }
            i = i + 1;
        }
        true
    }

    fn parent(&self) -> (r: Option<&Self>)
    {
        proof {
            lemma_last_dot_bounds(self@, self@.len() as int);
        }
        match find_last_dot(self) {
            Option::Some(d) => Option::Some(self.substring_char(0, d)),
            Option::None => Option::None,
        }
    }

    fn last(&self) -> (r: &Self)
    {
        proof {
            lemma_last_dot_bounds(self@, self@.len() as int);
        }
        let n = self.unicode_len();
        match find_last_dot(self) {
            Option::Some(d) => self.substring_char(d + 1, n),
            Option::None => self,
        }
    }
}

} // verus!
