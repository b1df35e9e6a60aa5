//! The access path model: where a documented entity lives, either as a
//! descendant of the root object or as a member of a type.

use vstd::prelude::*;
use vstd::string::StrSliceExecFns;
use vstd::string::StringExecFns;
use crate::order::{Rel, seq_char_lt, cmp_str, lemma_seq_char_lt_total, lemma_seq_char_lt_trans};
use crate::ty::{Type, TypeView, type_lt, cmp_type, lemma_type_lt_total, lemma_type_lt_trans,
    spec_type_display};
use crate::namespace::{Namespace, spec_ns_parent, spec_ns_last, lemma_last_dot_bounds};

verus! {

/// How a documented entity can be accessed.
#[derive(Debug)]
pub enum Access {
    /// As descendant of the root object, along a dotted property path.
    Ancestry { path: String },
    /// As member of a type, independent of reachability from the root.
    Member { ty: Type, member: String },
}

/// Mathematical image of an `Access`.
pub enum AccessView {
    Ancestry { path: Seq<char> },
    Member { ty: TypeView, member: Seq<char> },
}

impl View for Access {
    type V = AccessView;

    open spec fn view(&self) -> AccessView {
        match self {
            Access::Ancestry { path } => AccessView::Ancestry { path: path@ },
            Access::Member { ty, member } => AccessView::Member { ty: ty@, member: member@ },
        }
    }
}

/// A graph node is addressed either by an access path or by a type.
pub enum AccessOrType<'a> {
    Access(Access),
    Type(&'a Type),
}

/// Mathematical image of an `AccessOrType`.
pub enum AccessOrTypeView {
    Access(AccessView),
    Type(TypeView),
}

impl<'a> View for AccessOrType<'a> {
    type V = AccessOrTypeView;

    open spec fn view(&self) -> AccessOrTypeView {
        match self {
            AccessOrType::Access(a) => AccessOrTypeView::Access(a@),
            AccessOrType::Type(t) => AccessOrTypeView::Type((*t)@),
        }
    }
}

/// The parent node of an access: the dotted prefix for an ancestry path
/// (none at the root), the owning type for a member.
pub open spec fn spec_parent(a: AccessView) -> Option<AccessOrTypeView> {
    match a {
        AccessView::Ancestry { path } => match spec_ns_parent(path) {
            Option::Some(p) => Option::Some(
                AccessOrTypeView::Access(AccessView::Ancestry { path: p }),
            ),
            Option::None => Option::None,
        },
        AccessView::Member { ty, .. } => Option::Some(AccessOrTypeView::Type(ty)),
    }
}

/// The name under which an access hangs below its parent: the trailing path
/// segment for an ancestry path, the bare member name for a member.
pub open spec fn spec_base_name(a: AccessView) -> Seq<char> {
    match a {
        AccessView::Ancestry { path } => spec_ns_last(path),
        AccessView::Member { member, .. } => member,
    }
}

/// The display form of an access: the path itself, or `type.member` with the
/// type in its canonical form.
pub open spec fn spec_access_display(a: AccessView) -> Seq<char> {
    match a {
        AccessView::Ancestry { path } => path,
        AccessView::Member { ty, member } => spec_type_display(ty) + "."@ + member,
    }
}

/// Strict total order on accesses: ancestry paths first (lexicographically),
/// then members by type and member name. This order drives all deterministic
/// iteration and output.
pub open spec fn access_lt(a: AccessView, b: AccessView) -> bool {
    match (a, b) {
        (AccessView::Ancestry { .. }, AccessView::Member { .. }) => true,
        (AccessView::Member { .. }, AccessView::Ancestry { .. }) => false,
        (AccessView::Ancestry { path: pa }, AccessView::Ancestry { path: pb }) => seq_char_lt(
            pa,
            pb,
        ),
        (
            AccessView::Member { ty: ta, member: ma },
            AccessView::Member { ty: tb, member: mb },
        ) => type_lt(ta, tb) || (ta == tb && seq_char_lt(ma, mb)),
    }
}

/// The access order is total.
pub proof fn lemma_access_lt_total(a: AccessView, b: AccessView)
    ensures
        access_lt(a, b) || access_lt(b, a) || a == b,
        access_lt(a, b) ==> !access_lt(b, a),
        access_lt(a, b) ==> a != b,
{
    match (a, b) {
        (AccessView::Ancestry { path: pa }, AccessView::Ancestry { path: pb }) => {
            lemma_seq_char_lt_total(pa, pb);
        },
        (
            AccessView::Member { ty: ta, member: ma },
            AccessView::Member { ty: tb, member: mb },
        ) => {
            lemma_type_lt_total(ta, tb);
            lemma_seq_char_lt_total(ma, mb);
        },
        _ => {},
    }
}

/// The access order is transitive.
pub proof fn lemma_access_lt_trans(a: AccessView, b: AccessView, c: AccessView)
    requires
        access_lt(a, b),
        access_lt(b, c),
    ensures
        access_lt(a, c),
{
    match (a, b) {
        (AccessView::Ancestry { path: pa }, AccessView::Ancestry { path: pb }) => {
            match c {
                AccessView::Ancestry { path: pc } => {
                    lemma_seq_char_lt_trans(pa, pb, pc);
                },
                AccessView::Member { .. } => {},
            }
        },
        (
            AccessView::Member { ty: ta, member: ma },
            AccessView::Member { ty: tb, member: mb },
        ) => {
            match c {
                AccessView::Member { ty: tc, member: mc } => {
                    lemma_type_lt_total(ta, tb);
                    lemma_type_lt_total(tb, tc);
                    if type_lt(ta, tb) && type_lt(tb, tc) {
                        lemma_type_lt_trans(ta, tb, tc);
                    }
                    if ta == tb && tb == tc && seq_char_lt(ma, mb) && seq_char_lt(mb, mc) {
                        lemma_seq_char_lt_trans(ma, mb, mc);
                    }
                },
                AccessView::Ancestry { .. } => {},
            }
        },
        _ => {},
    }
}

impl Access {
    /// Whether this access is an ancestry path.
    pub fn is_ancestry(&self) -> (r: bool)
        ensures
            r == (self@ is Ancestry),
    {
        match self {
            Access::Ancestry { .. } => true,
            Access::Member { .. } => false,
        }
    }

    /// The parent node: the dotted prefix for an ancestry path (none at the
    /// root), the owning type for a member.
    pub fn parent<'a>(&'a self) -> (r: Option<AccessOrType<'a>>)
        ensures
            match r {
                Option::Some(p) => spec_parent(self@) == Option::Some(p@),
                Option::None => spec_parent(self@) is None,
            },
    {
        match self {
            Access::Ancestry { path } => {
                proof {
                    lemma_last_dot_bounds(path@, path@.len() as int);
                }
                match path.as_str().parent() {
                    Option::Some(p) => Option::Some(
                        AccessOrType::Access(Access::Ancestry { path: p.to_owned() }),
                    ),
                    Option::None => Option::None,
                }
            },
            Access::Member { ty, .. } => Option::Some(AccessOrType::Type(ty)),
        }
    }

    /// The name under which this access hangs below its parent.
    pub fn base_name<'a>(&'a self) -> (r: &'a str)
        ensures
            r@ == spec_base_name(self@),
    {
        match self {
            Access::Ancestry { path } => path.as_str().last(),
            Access::Member { member, .. } => member.as_str(),
        }
    }

    /// The display form of this access.
    pub fn display(&self) -> (r: String)
        ensures
            r@ == spec_access_display(self@),
    {
        match self {
            Access::Ancestry { path } => path.clone(),
            Access::Member { ty, member } => {
                let mut r = ty.display();
                r.append(".");
                r.append(member.as_str());
                r
            },
        }
    }

    /// A structurally equal copy.
    pub fn deep_clone(&self) -> (r: Access)
        ensures
            r@ == self@,
    {
        match self {
            Access::Ancestry { path } => Access::Ancestry { path: path.clone() },
            Access::Member { ty, member } => Access::Member {
                ty: ty.deep_clone(),
                member: member.clone(),
            },
        }
    }
}

/// Three-way comparison of two accesses in the total order.
pub fn cmp_access(a: &Access, b: &Access) -> (r: Rel)
    ensures
        (r == Rel::Less) == access_lt(a@, b@),
        (r == Rel::Equal) == (a@ == b@),
        (r == Rel::Greater) == access_lt(b@, a@),
{
    proof {
        lemma_access_lt_total(a@, b@);
        lemma_access_lt_total(b@, a@);
    }
    match (a, b) {
        (Access::Ancestry { path: pa }, Access::Ancestry { path: pb }) => cmp_str(
            pa.as_str(),
            pb.as_str(),
        ),
        (Access::Ancestry { .. }, Access::Member { .. }) => Rel::Less,
        (Access::Member { .. }, Access::Ancestry { .. }) => Rel::Greater,
        (Access::Member { ty: ta, member: ma }, Access::Member { ty: tb, member: mb }) => {
            match cmp_type(ta, tb) {
                Rel::Equal => cmp_str(ma.as_str(), mb.as_str()),
                Rel::Less => Rel::Less,
                Rel::Greater => Rel::Greater,
            }
        },
    }
}

} // verus!
