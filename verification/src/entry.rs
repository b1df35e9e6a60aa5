//! Documented entities: parameters, documentation blocks, entries and type
//! entries, together with their display and classification.

use vstd::prelude::*;
use vstd::string::StringExecFns;
use crate::access::{Access, AccessView, spec_base_name};
use crate::ty::{Type, TypeView};
use crate::strutil::{spec_join, views_of, join_strings};

verus! {

/// One declared parameter: its name, its optional declared type, and the
/// documentation gathered from a detail block.
#[derive(Debug)]
pub struct Parameter {
    pub name: String,
    pub ty: Option<Type>,
    pub doc: String,
}

pub struct ParameterView {
    pub name: Seq<char>,
    pub ty: Option<TypeView>,
    pub doc: Seq<char>,
}

impl View for Parameter {
    type V = ParameterView;

    open spec fn view(&self) -> ParameterView {
        ParameterView {
            name: self.name@,
            ty: match self.ty {
                Option::Some(t) => Option::Some(t@),
                Option::None => Option::None,
            },
            doc: self.doc@,
        }
    }
}

/// A documentation block: the brief summary and the later body paragraphs.
#[derive(Debug)]
pub struct Doc {
    pub brief: String,
    pub body: Vec<String>,
}

pub struct DocView {
    pub brief: Seq<char>,
    pub body: Seq<Seq<char>>,
}

impl View for Doc {
    type V = DocView;

    open spec fn view(&self) -> DocView {
        DocView { brief: self.brief@, body: views_of(self.body@) }
    }
}

impl Default for Doc {
    /// An empty documentation block.
    fn default() -> (r: Doc)
        ensures
            r@.brief.len() == 0,
            r@.body.len() == 0,
    {
        Doc { brief: String::new(), body: Vec::new() }
    }
}

/// The view of a parameter list: the parameters and the variadic marker.
pub open spec fn params_view(params: Option<(Vec<Parameter>, bool)>) -> Option<(
    Seq<ParameterView>,
    bool,
)> {
    match params {
        Option::Some((ps, dots)) => Option::Some(
            (ps@.map_values(|p: Parameter| p@), dots),
        ),
        Option::None => Option::None,
    }
}

/// One documented entity. `params` is `None` for a property; with parameters
/// and no type it is a signal; with both it is a method. `children` holds,
/// name-keyed and name-sorted, indices into the entry arena.
#[derive(Debug)]
pub struct Entry {
    pub path: Access,
    pub params: Option<(Vec<Parameter>, bool)>,
    pub ty: Option<Type>,
    pub doc: Option<Doc>,
    pub children: Vec<(String, usize)>,
}

pub struct EntryView {
    pub path: AccessView,
    pub params: Option<(Seq<ParameterView>, bool)>,
    pub ty: Option<TypeView>,
    pub doc: Option<DocView>,
    pub children: Seq<(Seq<char>, int)>,
}

/// The view of a child mapping: names with arena indices.
pub open spec fn children_view(children: Seq<(String, usize)>) -> Seq<(Seq<char>, int)> {
    children.map_values(|c: (String, usize)| (c.0@, c.1 as int))
}

impl View for Entry {
    type V = EntryView;

    open spec fn view(&self) -> EntryView {
        EntryView {
            path: self.path@,
            params: params_view(self.params),
            ty: match self.ty {
                Option::Some(t) => Option::Some(t@),
                Option::None => Option::None,
            },
            doc: match self.doc {
                Option::Some(d) => Option::Some(d@),
                Option::None => Option::None,
            },
            children: children_view(self.children@),
        }
    }
}

/// The graph node of a referenced type: every access typed with it, its
/// children, its canonical ancestor access (when one exists) and its
/// documentation.
#[derive(Debug)]
pub struct TypeEntry {
    pub references: Vec<Access>,
    pub children: Vec<(String, usize)>,
    pub ancestor: Option<Access>,
    pub doc: Doc,
}

pub struct TypeEntryView {
    pub references: Seq<AccessView>,
    pub children: Seq<(Seq<char>, int)>,
    pub ancestor: Option<AccessView>,
    pub doc: DocView,
}

impl View for TypeEntry {
    type V = TypeEntryView;

    open spec fn view(&self) -> TypeEntryView {
        TypeEntryView {
            references: self.references@.map_values(|a: Access| a@),
            children: children_view(self.children@),
            ancestor: match self.ancestor {
                Option::Some(a) => Option::Some(a@),
                Option::None => Option::None,
            },
            doc: self.doc@,
        }
    }
}

impl TypeEntry {
    /// An empty type entry: no references, no children, no ancestor, no
    /// documentation.
    pub fn new() -> (r: TypeEntry)
        ensures
            r@.references.len() == 0,
            r@.children.len() == 0,
            r@.ancestor is None,
            r@.doc.brief.len() == 0,
            r@.doc.body.len() == 0,
    {
        TypeEntry {
            references: Vec::new(),
            children: Vec::new(),
            ancestor: Option::None,
            doc: Doc::default(),
        }
    }

    /// The child mapping of this node.
    pub fn children(&self) -> (r: &Vec<(String, usize)>)
        ensures
            children_view(r@) == self@.children,
    {
        &self.children
    }
}

/// The names of the parameters, in declaration order.
pub open spec fn spec_param_names(ps: Seq<ParameterView>) -> Seq<Seq<char>> {
    ps.map_values(|p: ParameterView| p.name)
}

/// The signature display of an entry: its base name, and for a method or
/// signal the parenthesized parameter names with the variadic marker.
pub open spec fn spec_entry_display(e: EntryView) -> Seq<char> {
    match e.params {
        Option::None => spec_base_name(e.path),
        Option::Some((ps, dots)) => spec_base_name(e.path) + "("@ + spec_join(
            spec_param_names(ps),
            ", "@,
        ) + (if dots {
            if ps.len() > 0 {
                ", ..."@
            } else {
                "..."@
            }
        } else {
            Seq::empty()
        }) + ")"@,
    }
}

impl Entry {
    /// The child mapping of this node.
    pub fn children(&self) -> (r: &Vec<(String, usize)>)
        ensures
            children_view(r@) == self@.children,
    {
        &self.children
    }

    /// The signature display of this entry.
    pub fn display(&self) -> (r: String)
        ensures
            r@ == spec_entry_display(self@),
    {
        let mut r = String::from_str(self.path.base_name());
        match &self.params {
            Option::None => r,
            Option::Some((params, dots)) => {
                r.append("(");
                let mut names: Vec<String> = Vec::new();
                let mut i: usize = 0;
                while i < params.len()
                    invariant
                        i <= params@.len(),
                        names@.len() == i,
                        forall|j: int| 0 <= j < i ==> (#[trigger] names@[j])@ == params@[j].name@,
                    decreases params@.len() - i,
                {
                    names.push(params[i].name.clone());
                    i = i + 1;
                }
                proof {
                    let ps = params@.map_values(|p: Parameter| p@);
                    assert forall|j: int| 0 <= j < names@.len() implies #[trigger] views_of(
                        names@,
                    )[j] == spec_param_names(ps)[j] by {
                        assert(views_of(names@)[j] == names@[j]@);
                        assert(ps[j] == params@[j]@);
                        assert(spec_param_names(ps)[j] == ps[j].name);
                    }
                    assert(views_of(names@) =~= spec_param_names(ps));
                }
                r.append(join_strings(&names, ", ").as_str());
                if *dots {
                    if params.len() > 0 {
                        r.append(", ...");
                    } else {
                        r.append("...");
                    }
                }
                r.append(")");
                proof {
                    assert(r@ =~= spec_entry_display(self@));
                }
                r
            },
        }
    }

    /// The inline role marker of this entry: attribute, signal or method.
    pub fn role(&self) -> (r: &'static str)
        ensures
            self@.params is None ==> r@ == "lua:attr"@,
            self@.params is Some && self@.ty is None ==> r@ == "lua:sgnl"@,
            self@.params is Some && self@.ty is Some ==> r@ == "lua:meth"@,
    {
        if self.params.is_none() {
            "lua:attr"
        } else if self.ty.is_none() {
            "lua:sgnl"
        } else {
            "lua:meth"
        }
    }

    /// The block directive of this entry: attribute, signal or method.
    pub fn directive(&self) -> (r: &'static str)
        ensures
            self@.params is None ==> r@ == "lua:attribute"@,
            self@.params is Some && self@.ty is None ==> r@ == "lua:signal"@,
            self@.params is Some && self@.ty is Some ==> r@ == "lua:method"@,
    {
        if self.params.is_none() {
            "lua:attribute"
        } else if self.ty.is_none() {
            "lua:signal"
        } else {
            "lua:method"
        }
    }
}

} // verus!
