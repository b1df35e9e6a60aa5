//! The type expression model: a declared type is a named base type,
//! optionally namespaced, optionally wrapped in array brackets.

use vstd::prelude::*;
use vstd::string::StrSliceExecFns;
use vstd::string::StringExecFns;
use crate::order::{Rel, seq_char_lt, opt_seq_lt, cmp_str, lemma_seq_char_lt_total,
    lemma_seq_char_lt_trans, lemma_opt_seq_lt_total, lemma_opt_seq_lt_trans};

verus! {

/// A declared type: a base name with an optional dotted namespace, or an
/// array of a type.
#[derive(Debug)]
pub enum Type {
    Base { namespace: Option<String>, member: String },
    Array(Box<Type>),
}

/// Mathematical image of a `Type`: the same shape over character sequences.
pub enum TypeView {
    Base { namespace: Option<Seq<char>>, member: Seq<char> },
    Array(Box<TypeView>),
}

pub open spec fn type_view(t: Type) -> TypeView
    decreases t,
{
    match t {
        Type::Base { namespace, member } => TypeView::Base {
            namespace: match namespace {
                Option::Some(n) => Option::Some(n@),
                Option::None => Option::None,
            },
            member: member@,
        },
        Type::Array(inner) => TypeView::Array(Box::new(type_view(*inner))),
    }
}

impl View for Type {
    type V = TypeView;

    open spec fn view(&self) -> TypeView {
        type_view(*self)
    }
}

/// The base type: the `Base` reached after stripping every `Array` layer.
pub open spec fn spec_base_type(t: TypeView) -> TypeView
    decreases t,
{
    match t {
        TypeView::Base { .. } => t,
        TypeView::Array(inner) => spec_base_type(*inner),
    }
}

/// The simple display form: the bare member name, array-wrapped in brackets.
pub open spec fn spec_simple_display(t: TypeView) -> Seq<char>
    decreases t,
{
    match t {
        TypeView::Base { member, .. } => member,
        TypeView::Array(inner) => "["@ + spec_simple_display(*inner) + "]"@,
    }
}

/// The page-identifier display form: namespace and member joined with a dot;
/// array wrapping does not show.
pub open spec fn spec_rst_display(t: TypeView) -> Seq<char>
    decreases t,
{
    match t {
        TypeView::Base { namespace, member } => match namespace {
            Option::Some(ns) => ns + "."@ + member,
            Option::None => member,
        },
        TypeView::Array(inner) => spec_rst_display(*inner),
    }
}

/// The canonical display form: namespace (when present), a colon, the member;
/// arrays in brackets.
pub open spec fn spec_type_display(t: TypeView) -> Seq<char>
    decreases t,
{
    match t {
        TypeView::Base { namespace, member } => match namespace {
            Option::Some(ns) => ns + ":"@ + member,
            Option::None => ":"@ + member,
        },
        TypeView::Array(inner) => "["@ + spec_type_display(*inner) + "]"@,
    }
}

/// Strict structural order on types: base types before arrays, base types by
/// namespace then member, arrays by their element type.
pub open spec fn type_lt(a: TypeView, b: TypeView) -> bool
    decreases a,
{
    match (a, b) {
        (TypeView::Base { .. }, TypeView::Array(_)) => true,
        (TypeView::Array(_), TypeView::Base { .. }) => false,
        (
            TypeView::Base { namespace: na, member: ma },
            TypeView::Base { namespace: nb, member: mb },
        ) => opt_seq_lt(na, nb) || (na == nb && seq_char_lt(ma, mb)),
        (TypeView::Array(ia), TypeView::Array(ib)) => type_lt(*ia, *ib),
    }
}

/// The type order is total.
pub proof fn lemma_type_lt_total(a: TypeView, b: TypeView)
    ensures
        type_lt(a, b) || type_lt(b, a) || a == b,
        type_lt(a, b) ==> !type_lt(b, a),
        type_lt(a, b) ==> a != b,
    decreases a,
{
    match (a, b) {
        (
            TypeView::Base { namespace: na, member: ma },
            TypeView::Base { namespace: nb, member: mb },
        ) => {
            lemma_opt_seq_lt_total(na, nb);
            lemma_seq_char_lt_total(ma, mb);
        },
        (TypeView::Array(ia), TypeView::Array(ib)) => {
            lemma_type_lt_total(*ia, *ib);
        },
        _ => {},
    }
}

/// The type order is transitive.
pub proof fn lemma_type_lt_trans(a: TypeView, b: TypeView, c: TypeView)
    requires
        type_lt(a, b),
        type_lt(b, c),
    ensures
        type_lt(a, c),
    decreases a,
{
    match (a, b) {
        (
            TypeView::Base { namespace: na, member: ma },
            TypeView::Base { namespace: nb, member: mb },
        ) => {
            match c {
                TypeView::Base { namespace: nc, member: mc } => {
                    lemma_opt_seq_lt_total(na, nb);
                    lemma_opt_seq_lt_total(nb, nc);
                    if opt_seq_lt(na, nb) && opt_seq_lt(nb, nc) {
                        lemma_opt_seq_lt_trans(na, nb, nc);
                    }
                    if na == nb && nb == nc {
                        if seq_char_lt(ma, mb) && seq_char_lt(mb, mc) {
                            lemma_seq_char_lt_trans(ma, mb, mc);
                        }
                    }
                },
                TypeView::Array(_) => {},
            }
        },
        (TypeView::Array(ia), TypeView::Array(ib)) => {
            match c {
                TypeView::Array(ic) => {
                    lemma_type_lt_trans(*ia, *ib, *ic);
                },
                TypeView::Base { .. } => {},
            }
        },
        _ => {},
    }
}

impl Type {
    /// The base type of this type: itself for a base type, the innermost
    /// element type for an array.
    pub fn base_type(&self) -> (r: &Type)
        ensures
            r@ == spec_base_type(self@),
            r@ is Base,
        decreases self,
    {
        match self {
            Type::Base { .. } => self,
            Type::Array(inner) => inner.base_type(),
        }
    }

    /// The declared namespace: present only for a base type.
    pub fn namespace(&self) -> (r: Option<&Option<String>>)
        ensures
            match r {
                Option::Some(ns) => self@ matches TypeView::Base { namespace, .. }
                    && namespace == (match ns {
                    Option::Some(n) => Option::Some(n@),
                    Option::None => Option::<Seq<char>>::None,
                }),
                Option::None => self@ is Array,
            },
    {
        match self {
            Type::Base { namespace, .. } => Option::Some(namespace),
            Type::Array(_) => Option::None,
        }
    }

    /// The member name: present only for a base type.
    pub fn member(&self) -> (r: Option<&String>)
        ensures
            match r {
                Option::Some(m) => self@ matches TypeView::Base { member, .. } && member == m@,
                Option::None => self@ is Array,
            },
    {
        match self {
            Type::Base { member, .. } => Option::Some(member),
            Type::Array(_) => Option::None,
        }
    }

    /// The simple display form: bare member name, arrays in brackets.
    pub fn simple_display(&self) -> (r: String)
        ensures
            r@ == spec_simple_display(self@),
        decreases self,
    {
        match self {
            Type::Base { member, .. } => member.clone(),
            Type::Array(inner) => {
                let mut r = String::from_str("[");
                r.append(inner.simple_display().as_str());
                r.append("]");
                r
            },
        }
    }

    /// The page-identifier display form: `namespace.member`.
    pub fn rst_display(&self) -> (r: String)
        ensures
            r@ == spec_rst_display(self@),
        decreases self,
    {
        match self {
            Type::Base { namespace, member } => match namespace {
                Option::Some(ns) => {
                    let mut r = ns.clone();
                    r.append(".");
                    r.append(member.as_str());
                    r
                },
                Option::None => member.clone(),
            },
            Type::Array(inner) => inner.rst_display(),
        }
    }

    /// The canonical display form: `namespace:member`, arrays in brackets.
    pub fn display(&self) -> (r: String)
        ensures
            r@ == spec_type_display(self@),
        decreases self,
    {
        match self {
            Type::Base { namespace, member } => {
                let mut r = match namespace {
                    Option::Some(ns) => ns.clone(),
                    Option::None => String::new(),
                };
                r.append(":");
                r.append(member.as_str());
                proof {
                    if self@ matches TypeView::Base { namespace: n, .. } && n is None {
                        assert(r@ =~= ":"@ + member@);
                    }
                }
                r
            },
            Type::Array(inner) => {
                let mut r = String::from_str("[");
                r.append(inner.display().as_str());
                r.append("]");
                r
            },
        }
    }

    /// A structurally equal copy.
    pub fn deep_clone(&self) -> (r: Type)
        ensures
            r@ == self@,
        decreases self,
    {
        match self {
            Type::Base { namespace, member } => Type::Base {
                namespace: match namespace {
                    Option::Some(ns) => Option::Some(ns.clone()),
                    Option::None => Option::None,
                },
                member: member.clone(),
            },
            Type::Array(inner) => Type::Array(Box::new(inner.deep_clone())),
        }
    }
}

/// Three-way comparison of two types in the structural order.
pub fn cmp_type(a: &Type, b: &Type) -> (r: Rel)
    ensures
        (r == Rel::Less) == type_lt(a@, b@),
        (r == Rel::Equal) == (a@ == b@),
        (r == Rel::Greater) == type_lt(b@, a@),
    decreases a,
{
    proof {
        lemma_type_lt_total(a@, b@);
        lemma_type_lt_total(b@, a@);
    }
    match (a, b) {
        (Type::Base { namespace: na, member: ma }, Type::Base { namespace: nb, member: mb }) => {
            let nrel = match (na, nb) {
                (Option::None, Option::None) => Rel::Equal,
                (Option::None, Option::Some(_)) => Rel::Less,
                (Option::Some(_), Option::None) => Rel::Greater,
                (Option::Some(x), Option::Some(y)) => cmp_str(x.as_str(), y.as_str()),
            };
            match nrel {
                Rel::Equal => cmp_str(ma.as_str(), mb.as_str()),
                Rel::Less => Rel::Less,
                Rel::Greater => Rel::Greater,
            }
        },
        (Type::Base { .. }, Type::Array(_)) => Rel::Less,
        (Type::Array(_), Type::Base { .. }) => Rel::Greater,
        (Type::Array(ia), Type::Array(ib)) => cmp_type(ia, ib),
    }
}

} // verus!
