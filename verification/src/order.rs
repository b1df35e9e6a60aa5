//! Lexicographic ordering of character sequences: the order that drives all
//! deterministic iteration and output.

use vstd::prelude::*;
use vstd::string::StrSliceExecFns;

verus! {

/// Result of a three-way comparison.
#[derive(Debug, Clone, Copy, PartialEq, Eq, Structural)]
pub enum Rel {
    Less,
    Equal,
    Greater,
}

/// Strict lexicographic order on character sequences, by code point.
pub open spec fn seq_char_lt(a: Seq<char>, b: Seq<char>) -> bool
    decreases a.len(),
{
    if b.len() == 0 {
        false
    } else if a.len() == 0 {
        true
    } else if a[0] < b[0] {
        true
    } else if a[0] == b[0] {
        seq_char_lt(a.drop_first(), b.drop_first())
    } else {
        false
    }
}

/// The lexicographic order is total: two sequences are ordered one way, the
/// other way, or equal, and never two of these at once.
pub proof fn lemma_seq_char_lt_total(a: Seq<char>, b: Seq<char>)
    ensures
        seq_char_lt(a, b) || seq_char_lt(b, a) || a == b,
        seq_char_lt(a, b) ==> !seq_char_lt(b, a),
        seq_char_lt(a, b) ==> a != b,
    decreases a.len(),
{
    if a.len() == 0 && b.len() == 0 {
        assert(a =~= b);
    } else if a.len() == 0 {
        assert(seq_char_lt(a, b));
    } else if b.len() == 0 {
        assert(seq_char_lt(b, a));
    } else {
        if a[0] == b[0] {
            lemma_seq_char_lt_total(a.drop_first(), b.drop_first());
            if a.drop_first() == b.drop_first() {
                assert forall|i: int| 0 <= i < a.len() implies a[i] == b[i] by {
                    if i > 0 {
                        assert(a.drop_first()[i - 1] == b.drop_first()[i - 1]);
                    }
                }
                assert(a =~= b);
            }
            if a == b {
                assert(a.drop_first() =~= b.drop_first());
            }
        } else {
            assert(a != b);
            assert(a[0] < b[0] || b[0] < a[0]);
            assert(seq_char_lt(a, b) || seq_char_lt(b, a));
        }
    }
}

/// The lexicographic order is transitive.
pub proof fn lemma_seq_char_lt_trans(a: Seq<char>, b: Seq<char>, c: Seq<char>)
    requires
        seq_char_lt(a, b),
        seq_char_lt(b, c),
    ensures
        seq_char_lt(a, c),
    decreases a.len(),
{
    if b.len() == 0 {
    } else if a.len() == 0 {
    } else if c.len() == 0 {
    } else {
        if a[0] == b[0] && b[0] == c[0] {
            lemma_seq_char_lt_trans(a.drop_first(), b.drop_first(), c.drop_first());
        }
    }
}

/// Three-way comparison of the character tails of two strings from
/// position `i` on.
fn cmp_str_from(a: &str, b: &str, i: usize) -> (r: Rel)
    requires
        i <= a@.len(),
        i <= b@.len(),
    ensures
        (r == Rel::Less) == seq_char_lt(a@.skip(i as int), b@.skip(i as int)),
        (r == Rel::Equal) == (a@.skip(i as int) == b@.skip(i as int)),
        (r == Rel::Greater) == seq_char_lt(b@.skip(i as int), a@.skip(i as int)),
    decreases a@.len() - i,
{
    proof {
        lemma_seq_char_lt_total(a@.skip(i as int), b@.skip(i as int));
    }
    let na = a.unicode_len();
    let nb = b.unicode_len();
    if i == na && i == nb {
        proof {
            assert(a@.skip(i as int) =~= b@.skip(i as int));
        }
        Rel::Equal
    } else if i == na {
        Rel::Less
    } else if i == nb {
        Rel::Greater
    } else {
        let ca = a.get_char(i);
        let cb = b.get_char(i);
        if ca < cb {
            Rel::Less
        } else if cb < ca {
            Rel::Greater
        } else {
            proof {
                assert(ca == cb);
                assert(a@.skip(i as int).drop_first() =~= a@.skip(i as int + 1));
                assert(b@.skip(i as int).drop_first() =~= b@.skip(i as int + 1));
            }
            let r = cmp_str_from(a, b, i + 1);
            proof {
                if r == Rel::Equal {
                    assert(a@.skip(i as int) =~= b@.skip(i as int));
                }
            }
            r
        }
    }
}

/// Three-way lexicographic comparison of two strings.
pub fn cmp_str(a: &str, b: &str) -> (r: Rel)
    ensures
        (r == Rel::Less) == seq_char_lt(a@, b@),
        (r == Rel::Equal) == (a@ == b@),
        (r == Rel::Greater) == seq_char_lt(b@, a@),
{
    proof {
        assert(a@.skip(0) =~= a@);
        assert(b@.skip(0) =~= b@);
    }
    cmp_str_from(a, b, 0)
}

/// `None` sorts before `Some`, and two present values sort lexicographically.
pub open spec fn opt_seq_lt(a: Option<Seq<char>>, b: Option<Seq<char>>) -> bool {
    match (a, b) {
        (Option::None, Option::Some(_)) => true,
        (Option::Some(x), Option::Some(y)) => seq_char_lt(x, y),
        _ => false,
    }
}

pub proof fn lemma_opt_seq_lt_total(a: Option<Seq<char>>, b: Option<Seq<char>>)
    ensures
        opt_seq_lt(a, b) || opt_seq_lt(b, a) || a == b,
        opt_seq_lt(a, b) ==> !opt_seq_lt(b, a),
        opt_seq_lt(a, b) ==> a != b,
{
    match (a, b) {
        (Option::Some(x), Option::Some(y)) => {
            lemma_seq_char_lt_total(x, y);
        },
        _ => {},
    }
}

pub proof fn lemma_opt_seq_lt_trans(a: Option<Seq<char>>, b: Option<Seq<char>>, c: Option<
    Seq<char>,
>)
    requires
        opt_seq_lt(a, b),
        opt_seq_lt(b, c),
    ensures
        opt_seq_lt(a, c),
{
    match (a, b) {
        (Option::Some(x), Option::Some(y)) => {
            match c {
                Option::Some(z) => {
                    lemma_seq_char_lt_trans(x, y, z);
                },
                Option::None => {},
            }
        },
        _ => {},
    }
}

} // verus!
