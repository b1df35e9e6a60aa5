//! Rendering the finished graph into markup text. Every renderer computes
//! exactly the character sequence that its spec function defines; writing
//! the pages to disk is the caller's business.

use vstd::prelude::*;
use vstd::string::StringExecFns;
use vstd::utf8::encode_utf8;
use crate::access::{Access, AccessView, AccessOrType, AccessOrTypeView, spec_access_display,
    spec_parent};
use crate::ty::{Type, TypeView, spec_base_type, spec_simple_display, spec_rst_display,
    spec_type_display};
use crate::entry::{Entry, EntryView, TypeEntry, TypeEntryView, ParameterView, spec_entry_display};
use crate::docs::{Docs, entries_view, types_view, entry_find, type_find, lemma_entry_find_self,
    lemma_type_find_self};
use crate::strutil::{spec_join, views_of, join_strings, repeat_char, str_eq};

verus! {

/// An entry's kind in a listing: property, method or signal.
#[derive(Clone, Copy, PartialEq, Eq, Structural, Debug)]
pub enum RoleKind {
    Prop,
    Meth,
    Sig,
}

/// Whether an entry belongs under the given listing kind.
pub open spec fn role_matches(k: RoleKind, e: EntryView) -> bool {
    match k {
        RoleKind::Prop => e.params is None && e.ty is Some,
        RoleKind::Meth => e.params is Some && e.ty is Some,
        RoleKind::Sig => e.ty is None,
    }
}

/// The children of the given kind, from child `i` on, in order.
pub open spec fn spec_filter_children(
    entries: Seq<EntryView>,
    ch: Seq<(Seq<char>, int)>,
    k: RoleKind,
    i: int,
) -> Seq<(Seq<char>, int)>
    decreases ch.len() - i,
{
    if !(0 <= i < ch.len()) {
        Seq::empty()
    } else {
        (if role_matches(k, entries[ch[i].1]) {
            seq![ch[i]]
        } else {
            Seq::empty()
        }) + spec_filter_children(entries, ch, k, i + 1)
    }
}

/// Every paramless ancestry entry (a module page) carries a declared type.
pub open spec fn modules_typed(entries: Seq<EntryView>) -> bool {
    forall|i: int|
        0 <= i < entries.len() && (#[trigger] entries[i]).path is Ancestry && entries[i].params
            is None ==> entries[i].ty is Some
}

/// The inline role marker of an entry.
pub open spec fn spec_role(e: EntryView) -> Seq<char> {
    if e.params is None {
        "lua:attr"@
    } else if e.ty is None {
        "lua:sgnl"@
    } else {
        "lua:meth"@
    }
}

/// The block directive of an entry.
pub open spec fn spec_directive(e: EntryView) -> Seq<char> {
    if e.params is None {
        "lua:attribute"@
    } else if e.ty is None {
        "lua:signal"@
    } else {
        "lua:method"@
    }
}

/// The brief of an entry's documentation, empty when there is none.
pub open spec fn spec_brief_of(e: EntryView) -> Seq<char> {
    match e.doc {
        Option::Some(d) => d.brief,
        Option::None => Seq::empty(),
    }
}

/// The rendering of a type at a reference site: a fundamental type (no
/// namespace on its base) by its simple form, any other as a link.
pub open spec fn spec_ref_type(t: TypeView) -> Seq<char> {
    if spec_base_type(t) matches TypeView::Base { namespace: Option::None, .. } {
        spec_simple_display(t) + "\n"@
    } else {
        ":lua:mod:`"@ + spec_simple_display(t) + " <"@ + spec_rst_display(t) + ">`\n"@
    }
}

/// One row of a listing table: role, signature, link target and brief.
pub open spec fn spec_entry_row(e: EntryView, name: Seq<char>) -> Seq<char> {
    "   * - :"@ + spec_role(e) + ":`"@ + spec_entry_display(e) + " <"@ + name + ">`\n     - "@
        + spec_brief_of(e) + "\n"@
}

/// The `:param:`/`:type:` field lines of a parameter list, from `m` on.
pub open spec fn spec_param_fields(ps: Seq<ParameterView>, m: int) -> Seq<char>
    decreases ps.len() - m,
{
    if !(0 <= m < ps.len()) {
        Seq::empty()
    } else {
        let p = ps[m];
        (if p.doc.len() > 0 {
            "   :param "@ + p.name + ": "@ + p.doc + "\n"@
        } else {
            Seq::empty()
        }) + (match p.ty {
            Option::Some(t) => "   :type "@ + p.name + ": "@ + spec_ref_type(t) + (if p.doc.len()
                == 0 {
                "   :param "@ + p.name + ":\n"@
            } else {
                Seq::empty()
            }),
            Option::None => Seq::empty(),
        }) + spec_param_fields(ps, m + 1)
    }
}

/// A paragraph with each of its lines indented by three spaces.
pub open spec fn spec_indent_tail(p: Seq<char>) -> Seq<char>
    decreases p.len(),
{
    if p.len() == 0 {
        Seq::empty()
    } else if p[0] == '\n' {
        seq!['\n'] + "   "@ + spec_indent_tail(p.drop_first())
    } else {
        seq![p[0]] + spec_indent_tail(p.drop_first())
    }
}

pub open spec fn spec_indent(p: Seq<char>) -> Seq<char> {
    "   "@ + spec_indent_tail(p)
}

/// The indented body paragraphs of an entry's documentation, from `m` on.
pub open spec fn spec_body_blocks(body: Seq<Seq<char>>, m: int) -> Seq<char>
    decreases body.len() - m,
{
    if !(0 <= m < body.len()) {
        Seq::empty()
    } else {
        spec_indent(body[m]) + "\n\n"@ + spec_body_blocks(body, m + 1)
    }
}

/// One directive block: the signature line, the type fields, the parameter
/// fields and the documentation.
pub open spec fn spec_entry_block(e: EntryView) -> Seq<char> {
    ".. "@ + spec_directive(e) + ":: "@ + spec_entry_display(e) + (match e.ty {
        Option::Some(t) => (if e.params is None {
            ":"@
        } else {
            " ->"@
        }) + " "@ + spec_simple_display(t) + "\n\n"@ + "   :"@ + (if e.params is None {
            "type"@
        } else {
            "rtype"@
        }) + ": "@ + spec_ref_type(t),
        Option::None => "\n\n"@,
    }) + (match e.params {
        Option::Some((ps, _)) => spec_param_fields(ps, 0),
        Option::None => Seq::empty(),
    }) + "\n"@ + (match e.doc {
        Option::Some(d) => "   "@ + d.brief + " \n\n"@ + spec_body_blocks(d.body, 0),
        Option::None => Seq::empty(),
    })
}

/// The listing rows of the given items, from item `i` on.
pub open spec fn spec_rows(entries: Seq<EntryView>, items: Seq<(Seq<char>, int)>, i: int) -> Seq<
    char,
>
    decreases items.len() - i,
{
    if !(0 <= i < items.len()) {
        Seq::empty()
    } else {
        spec_entry_row(entries[items[i].1], items[i].0) + spec_rows(entries, items, i + 1)
    }
}

/// The directive blocks of the given items, from item `i` on.
pub open spec fn spec_blocks(entries: Seq<EntryView>, items: Seq<(Seq<char>, int)>, i: int) -> Seq<
    char,
>
    decreases items.len() - i,
{
    if !(0 <= i < items.len()) {
        Seq::empty()
    } else {
        spec_entry_block(entries[items[i].1]) + spec_blocks(entries, items, i + 1)
    }
}

/// A table of the given items followed by their directive blocks.
pub open spec fn spec_print_entries(entries: Seq<EntryView>, items: Seq<(Seq<char>, int)>) -> Seq<
    char,
> {
    spec_rows(entries, items, 0) + "\n"@ + spec_blocks(entries, items, 0)
}

/// The reference link of one access.
pub open spec fn spec_ref_item(a: AccessView) -> Seq<char> {
    match a {
        AccessView::Ancestry { path } => ":lua:meth:`"@ + path + " <"@ + path + ">`"@,
        AccessView::Member { ty, member } => ":lua:attr:`"@ + spec_simple_display(ty) + "."@
            + member + " <"@ + spec_rst_display(ty) + "."@ + member + ">`"@,
    }
}

pub open spec fn spec_ref_items(refs: Seq<AccessView>) -> Seq<Seq<char>> {
    refs.map_values(|a: AccessView| spec_ref_item(a))
}

/// The "see also" line of a type's node: its reference set as links, joined
/// with commas; nothing when the set is empty.
pub open spec fn spec_generate_references(te: TypeEntryView) -> Seq<char> {
    if te.references.len() > 0 {
        "See "@ + spec_join(spec_ref_items(te.references), ", "@)
            + " for more information about this type\n"@ + "\n"@
    } else {
        Seq::empty()
    }
}

/// Renders a type at a reference site.
fn ref_type(t: &crate::ty::Type) -> (out: String)
    ensures
        out@ == spec_ref_type(t@),
{
    let bt = t.base_type();
    let fundamental = match bt.namespace() {
        Option::Some(ns) => ns.is_none(),
        Option::None => false,
    };
    if fundamental {
        let mut out = t.simple_display();
        out.append("\n");
        out
    } else {
        let mut out = <String as StringExecFns>::from_str(":lua:mod:`");
        out.append(t.simple_display().as_str());
        out.append(" <");
        out.append(t.rst_display().as_str());
        out.append(">`\n");
        out
    }
}

/// Renders the `:param:`/`:type:` field lines from parameter `m` on.
fn param_fields(ps: &Vec<crate::entry::Parameter>, m: usize) -> (out: String)
    requires
        m <= ps@.len(),
    ensures
        out@ == spec_param_fields(ps@.map_values(|p: crate::entry::Parameter| p@), m as int),
    decreases ps@.len() - m,
{
    let ghost psv = ps@.map_values(|p: crate::entry::Parameter| p@);
    if m >= ps.len() {
        return String::new();
    }
    let mut out = String::new();
    let has_doc = !ps[m].doc.as_str().is_empty();
    if has_doc {
        out.append("   :param ");
        out.append(ps[m].name.as_str());
        out.append(": ");
        out.append(ps[m].doc.as_str());
        out.append("\n");
    }
    match &ps[m].ty {
        Option::Some(t) => {
            out.append("   :type ");
            out.append(ps[m].name.as_str());
            out.append(": ");
            out.append(ref_type(t).as_str());
            if !has_doc {
                out.append("   :param ");
                out.append(ps[m].name.as_str());
                out.append(":\n");
            }
        },
        Option::None => {},
    }
    out.append(param_fields(ps, m + 1).as_str());
    proof {
        assert(out@ =~= spec_param_fields(psv, m as int));
    }
    out
}

/// Indents every line of a paragraph by three spaces.
fn indent_tail(s: &Vec<char>, i: usize) -> (out: String)
    requires
        i <= s@.len(),
    ensures
        out@ == spec_indent_tail(s@.skip(i as int)),
    decreases s@.len() - i,
{
    if i >= s.len() {
        proof {
            assert(s@.skip(i as int) =~= Seq::<char>::empty());
        }
        return String::new();
    }
    proof {
        assert(s@.skip(i as int).drop_first() =~= s@.skip(i as int + 1));
        assert(s@.skip(i as int)[0] == s@[i as int]);
    }
    let c = s[i];
    let rest = indent_tail(s, i + 1);
    let mut out = String::new();
    if c == '\n' {
        out.push('\n');
        out.append("   ");
        out.append(rest.as_str());
        proof {
            assert(out@ =~= seq!['\n'] + "   "@ + rest@);
        }
    } else {
        out.push(c);
        out.append(rest.as_str());
        proof {
            assert(out@ =~= seq![s@[i as int]] + rest@);
        }
    }
    out
}

/// Renders one directive block.
#[verifier::rlimit(100)]
fn entry_block(e: &crate::entry::Entry) -> (out: String)
    ensures
        out@ == spec_entry_block(e@),
{
    let mut out = <String as StringExecFns>::from_str(".. ");
    out.append(e.directive());
    out.append(":: ");
    out.append(e.display().as_str());
    match &e.ty {
        Option::Some(t) => {
            if e.params.is_none() {
                out.append(":");
            } else {
                out.append(" ->");
            }
            out.append(" ");
            out.append(t.simple_display().as_str());
            out.append("\n\n");
            out.append("   :");
            if e.params.is_none() {
                out.append("type");
            } else {
                out.append("rtype");
            }
            out.append(": ");
            out.append(ref_type(t).as_str());
        },
        Option::None => {
            out.append("\n\n");
        },
    }
    match &e.params {
        Option::Some(pair) => {
            out.append(param_fields(&pair.0, 0).as_str());
        },
        Option::None => {},
    }
    out.append("\n");
    match &e.doc {
        Option::Some(d) => {
            out.append("   ");
            out.append(d.brief.as_str());
            out.append(" \n\n");
            let mut m: usize = 0;
            let ghost bodyv = views_of(d.body@);
            let ghost out0 = out@;
            while m < d.body.len()
                invariant
                    m <= d.body@.len(),
                    bodyv == views_of(d.body@),
                    out@ + spec_body_blocks(bodyv, m as int) == out0 + spec_body_blocks(bodyv, 0),
                decreases d.body@.len() - m,
            {
                let ghost outp = out@;
                let pc = crate::strutil::chars_of(d.body[m].as_str());
                proof {
                    assert(pc@.skip(0) =~= pc@);
                    assert(bodyv[m as int] == d.body@[m as int]@);
                }
                out.append("   ");
                out.append(indent_tail(&pc, 0).as_str());
                out.append("\n\n");
                proof {
                    assert(out@ =~= outp + (spec_indent(bodyv[m as int]) + "\n\n"@));
                    assert(outp + (spec_indent(bodyv[m as int]) + "\n\n"@) + spec_body_blocks(
                        bodyv,
                        m as int + 1,
                    ) =~= outp + spec_body_blocks(bodyv, m as int));
                }
                m = m + 1;
            }
            proof {
                assert(spec_body_blocks(bodyv, d.body@.len() as int) =~= Seq::<char>::empty());
                assert(out@ =~= out0 + spec_body_blocks(bodyv, 0));
                assert(out@ =~= spec_entry_block(e@));
            }
        },
        Option::None => {
            proof {
                assert(out@ =~= spec_entry_block(e@));
            }
        },
    }
    out
}

impl Docs {
    /// Renders the listing rows of the given items, from item `i` on.
    fn rows_from(&self, items: &Vec<(String, usize)>, i: usize) -> (out: String)
        requires
            i <= items@.len(),
            forall|k: int| 0 <= k < items@.len() ==> (#[trigger] items@[k]).1 < self.entries@.len(),
        ensures
            out@ == spec_rows(
                self.entries_v(),
                crate::entry::children_view(items@),
                i as int,
            ),
        decreases items@.len() - i,
    {
        let ghost iv = crate::entry::children_view(items@);
        if i >= items.len() {
            return String::new();
        }
        let idx = items[i].1;
        let e = &self.entries[idx];
        let mut out = <String as StringExecFns>::from_str("   * - :");
        out.append(e.role());
        out.append(":`");
        out.append(e.display().as_str());
        out.append(" <");
        out.append(items[i].0.as_str());
        out.append(">`\n     - ");
        match &e.doc {
            Option::Some(d) => {
                out.append(d.brief.as_str());
            },
            Option::None => {},
        }
        out.append("\n");
        out.append(self.rows_from(items, i + 1).as_str());
        proof {
            assert(iv[i as int].1 == items@[i as int].1 as int);
            assert(self.entries_v()[iv[i as int].1] == self.entries@[items@[i as int].1 as int]@);
            assert(out@ =~= spec_rows(self.entries_v(), iv, i as int));
        }
        out
    }

    /// Renders the directive blocks of the given items, from item `i` on.
    fn blocks_from(&self, items: &Vec<(String, usize)>, i: usize) -> (out: String)
        requires
            i <= items@.len(),
            forall|k: int| 0 <= k < items@.len() ==> (#[trigger] items@[k]).1 < self.entries@.len(),
        ensures
            out@ == spec_blocks(
                self.entries_v(),
                crate::entry::children_view(items@),
                i as int,
            ),
        decreases items@.len() - i,
    {
        let ghost iv = crate::entry::children_view(items@);
        if i >= items.len() {
            return String::new();
        }
        let idx = items[i].1;
        let mut out = entry_block(&self.entries[idx]);
        out.append(self.blocks_from(items, i + 1).as_str());
        proof {
            assert(iv[i as int].1 == items@[i as int].1 as int);
            assert(self.entries_v()[iv[i as int].1] == self.entries@[items@[i as int].1 as int]@);
            assert(out@ =~= spec_blocks(self.entries_v(), iv, i as int));
        }
        out
    }

    /// Renders a listing table of the given items followed by one directive
    /// block per item.
    pub fn print_entries(&self, items: &Vec<(String, usize)>) -> (out: String)
        requires
            forall|k: int| 0 <= k < items@.len() ==> (#[trigger] items@[k]).1 < self.entries@.len(),
        ensures
            out@ == spec_print_entries(self.entries_v(), crate::entry::children_view(items@)),
    {
        let mut out = self.rows_from(items, 0);
        out.append("\n");
        out.append(self.blocks_from(items, 0).as_str());
        proof {
            assert(out@ =~= spec_print_entries(
                self.entries_v(),
                crate::entry::children_view(items@),
            ));
        }
        out
    }

    /// Renders the "see also" line of a type's node: every access in its
    /// reference set as a link, in the set's sorted order.
    pub fn generate_references(&self, type_entry: &TypeEntry) -> (out: String)
        ensures
            out@ == spec_generate_references(type_entry@),
    {
        if type_entry.references.len() == 0 {
            return String::new();
        }
        let mut parts: Vec<String> = Vec::new();
        let mut i: usize = 0;
        let ghost refs = type_entry@.references;
        while i < type_entry.references.len()
            invariant
                i <= type_entry.references@.len(),
                refs == type_entry@.references,
                parts@.len() == i,
                forall|k: int|
                    0 <= k < i ==> (#[trigger] parts@[k])@ == spec_ref_item(refs[k]),
            decreases type_entry.references@.len() - i,
        {
            let a = &type_entry.references[i];
            let part = match a {
                crate::access::Access::Ancestry { path } => {
                    let mut p = <String as StringExecFns>::from_str(":lua:meth:`");
                    p.append(path.as_str());
                    p.append(" <");
                    p.append(path.as_str());
                    p.append(">`");
                    p
                },
                crate::access::Access::Member { ty, member } => {
                    let mut p = <String as StringExecFns>::from_str(":lua:attr:`");
                    p.append(ty.simple_display().as_str());
                    p.append(".");
                    p.append(member.as_str());
                    p.append(" <");
                    p.append(ty.rst_display().as_str());
                    p.append(".");
                    p.append(member.as_str());
                    p.append(">`");
                    p
                },
            };
            proof {
                assert(part@ =~= spec_ref_item(refs[i as int]));
            }
            parts.push(part);
            i = i + 1;
        }
        let joined = join_strings(&parts, ", ");
        proof {
            assert forall|k: int| 0 <= k < parts@.len() implies #[trigger] views_of(parts@)[k]
                == spec_ref_items(refs)[k] by {
                assert(views_of(parts@)[k] == parts@[k]@);
            }
            assert(views_of(parts@) =~= spec_ref_items(refs));
        }
        let mut out = <String as StringExecFns>::from_str("See ");
        out.append(joined.as_str());
        out.append(" for more information about this type\n");
        out.append("\n");
        proof {
            assert(out@ =~= spec_generate_references(type_entry@));
        }
        out
    }
}

/// The title with its overline and underline, each as long as the title's
/// byte encoding.
pub open spec fn spec_page_head(title: Seq<char>) -> Seq<char> {
    let underline = Seq::new(encode_utf8(title).len(), |i: int| '=');
    underline + "\n"@ + title + "\n"@ + underline + "\n\n"@
}

/// Body paragraphs, each followed by a blank line.
pub open spec fn spec_plain_body(body: Seq<Seq<char>>, m: int) -> Seq<char>
    decreases body.len() - m,
{
    if !(0 <= m < body.len()) {
        Seq::empty()
    } else {
        body[m] + "\n\n"@ + spec_plain_body(body, m + 1)
    }
}

/// The three listings of a node's children: properties, methods, signals,
/// each with its table heading and only when non-empty.
pub open spec fn spec_sections(entries: Seq<EntryView>, ch: Seq<(Seq<char>, int)>) -> Seq<char> {
    let props = spec_filter_children(entries, ch, RoleKind::Prop, 0);
    let meths = spec_filter_children(entries, ch, RoleKind::Meth, 0);
    let sigs = spec_filter_children(entries, ch, RoleKind::Sig, 0);
    (if props.len() > 0 {
        "Properties\n==========\n\n.. list-table::\n   :header-rows: 0\n\n"@ + spec_print_entries(
            entries,
            props,
        )
    } else {
        Seq::empty()
    }) + (if meths.len() > 0 {
        "Methods\n==========\n\n.. list-table::\n   :header-rows: 0\n\n"@ + spec_print_entries(
            entries,
            meths,
        )
    } else {
        Seq::empty()
    }) + (if sigs.len() > 0 {
        "Signals\n==========\n\n.. list-table::\n   :header-rows: 0\n\n"@ + spec_print_entries(
            entries,
            sigs,
        )
    } else {
        Seq::empty()
    })
}

/// One page of the documentation: the node named by the key, rendered with
/// its title, its module line, its documentation, its reference list and
/// its child listings.
pub open spec fn spec_generate_single(
    entries: Seq<EntryView>,
    types: Seq<(TypeView, TypeEntryView)>,
    key: AccessOrTypeView,
) -> Seq<char> {
    match key {
        AccessOrTypeView::Access(a) => {
            let e = entries[entry_find(entries, a)];
            let t = e.ty->Some_0;
            let is_mod = spec_type_display(t) == "deai:module"@;
            let title = if is_mod {
                "Module "@ + spec_access_display(a)
            } else {
                "Type "@ + spec_type_display(spec_base_type(t)) + " ("@ + spec_access_display(a)
                    + ")"@
            };
            let modline = ".. lua:module:: "@ + (if is_mod {
                spec_access_display(a)
            } else {
                spec_rst_display(t)
            }) + "\n\n"@;
            let docpart = match e.doc {
                Option::Some(d) => d.brief + "\n\n"@ + spec_plain_body(d.body, 0),
                Option::None => Seq::empty(),
            };
            let tj = type_find(types, t);
            let refs = if tj >= 0 {
                spec_generate_references(types[tj].1)
            } else {
                Seq::empty()
            };
            spec_page_head(title) + modline + docpart + refs + spec_sections(entries, e.children)
        },
        AccessOrTypeView::Type(t) => {
            let te = types[type_find(types, t)].1;
            let title = "Type "@ + spec_type_display(t);
            let modline = ".. lua:module:: "@ + spec_rst_display(t) + "\n\n"@;
            let docpart = if te.doc.brief.len() > 0 {
                te.doc.brief + "\n\n"@ + spec_plain_body(te.doc.body, 0)
            } else {
                Seq::empty()
            };
            spec_page_head(title) + modline + docpart + spec_generate_references(te)
                + spec_sections(entries, te.children)
        },
    }
}

impl Docs {
    /// The children of the given kind, in their mapping's order.
    fn filter_children(&self, ch: &Vec<(String, usize)>, k: RoleKind, i: usize) -> (out: Vec<
        (String, usize),
    >)
        requires
            i <= ch@.len(),
            forall|q: int| 0 <= q < ch@.len() ==> (#[trigger] ch@[q]).1 < self.entries@.len(),
        ensures
            crate::entry::children_view(out@) == spec_filter_children(
                self.entries_v(),
                crate::entry::children_view(ch@),
                k,
                i as int,
            ),
            forall|q: int| 0 <= q < out@.len() ==> (#[trigger] out@[q]).1 < self.entries@.len(),
        decreases ch@.len() - i,
    {
        let ghost chv = crate::entry::children_view(ch@);
        if i >= ch.len() {
            let out: Vec<(String, usize)> = Vec::new();
            proof {
                assert(crate::entry::children_view(out@) =~= Seq::<(Seq<char>, int)>::empty());
            }
            return out;
        }
        let idx = ch[i].1;
        let e = &self.entries[idx];
        let keep = match k {
            RoleKind::Prop => e.params.is_none() && e.ty.is_some(),
            RoleKind::Meth => e.params.is_some() && e.ty.is_some(),
            RoleKind::Sig => e.ty.is_none(),
        };
        let mut rest = self.filter_children(ch, k, i + 1);
        proof {
            assert(self.entries_v()[chv[i as int].1] == self.entries@[ch@[i as int].1 as int]@);
        }
        if keep {
            let mut out: Vec<(String, usize)> = Vec::new();
            out.push((ch[i].0.clone(), idx));
            out.append(&mut rest);
            proof {
                assert(crate::entry::children_view(out@) =~= seq![chv[i as int]]
                    + spec_filter_children(self.entries_v(), chv, k, i as int + 1));
            }
            out
        } else {
            proof {
                assert(crate::entry::children_view(rest@) =~= Seq::<(Seq<char>, int)>::empty()
                    + spec_filter_children(self.entries_v(), chv, k, i as int + 1));
            }
            rest
        }
    }

    /// Renders the three child listings of a node.
    fn sections(&self, ch: &Vec<(String, usize)>) -> (out: String)
        requires
            forall|q: int| 0 <= q < ch@.len() ==> (#[trigger] ch@[q]).1 < self.entries@.len(),
        ensures
            out@ == spec_sections(self.entries_v(), crate::entry::children_view(ch@)),
    {
        let mut out = String::new();
        let props = self.filter_children(ch, RoleKind::Prop, 0);
        if props.len() > 0 {
            out.append("Properties\n==========\n\n.. list-table::\n   :header-rows: 0\n\n");
            out.append(self.print_entries(&props).as_str());
        }
        let meths = self.filter_children(ch, RoleKind::Meth, 0);
        if meths.len() > 0 {
            out.append("Methods\n==========\n\n.. list-table::\n   :header-rows: 0\n\n");
            out.append(self.print_entries(&meths).as_str());
        }
        let sigs = self.filter_children(ch, RoleKind::Sig, 0);
        if sigs.len() > 0 {
            out.append("Signals\n==========\n\n.. list-table::\n   :header-rows: 0\n\n");
            out.append(self.print_entries(&sigs).as_str());
        }
        proof {
            assert(out@ =~= spec_sections(self.entries_v(), crate::entry::children_view(ch@)));
        }
        out
    }

    /// Renders the title of a page with its overline and underline.
    fn page_head(title: &str) -> (out: String)
        ensures
            out@ == spec_page_head(title@),
    {
        let ul = repeat_char('=', title.as_bytes().len());
        let mut out = ul.clone();
        out.append("\n");
        out.append(title);
        out.append("\n");
        out.append(ul.as_str());
        out.append("\n\n");
        proof {
            assert(out@ =~= spec_page_head(title@));
        }
        out
    }

    /// Renders body paragraphs, each followed by a blank line.
    fn plain_body(body: &Vec<String>, m: usize) -> (out: String)
        requires
            m <= body@.len(),
        ensures
            out@ == spec_plain_body(views_of(body@), m as int),
        decreases body@.len() - m,
    {
        if m >= body.len() {
            return String::new();
        }
        let mut out = body[m].clone();
        out.append("\n\n");
        out.append(Self::plain_body(body, m + 1).as_str());
        proof {
            assert(views_of(body@)[m as int] == body@[m as int]@);
            assert(out@ =~= spec_plain_body(views_of(body@), m as int));
        }
        out
    }

    /// Renders one page of the documentation: the node named by the key.
    /// An access names a module-like entry: a paramless ancestry entry with
    /// a declared type.
    #[verifier::rlimit(100)]
    pub fn generate_single(&self, entry: &AccessOrType) -> (out: String)
        requires
            self.wf(),
            match entry@ {
                AccessOrTypeView::Access(a) => {
                    let j = entry_find(self.entries_v(), a);
                    &&& j >= 0
                    &&& a is Ancestry
                    &&& self.entries_v()[j].params is None
                    &&& self.entries_v()[j].ty is Some
                },
                AccessOrTypeView::Type(t) => type_find(self.types_v(), t) >= 0,
            },
        ensures
            out@ == spec_generate_single(self.entries_v(), self.types_v(), entry@),
    {
        match entry {
            AccessOrType::Access(a) => {
                let j = match self.find_entry(a) {
                    Option::Some(j) => j,
                    Option::None => vstd::pervasive::unreached(),
                };
                let e = &self.entries[j];
                let ty = match &e.ty {
                    Option::Some(t) => t,
                    Option::None => vstd::pervasive::unreached(),
                };
                let is_mod = str_eq(ty.display().as_str(), "deai:module");
                let title = if is_mod {
                    let mut t = <String as StringExecFns>::from_str("Module ");
                    t.append(a.display().as_str());
                    t
                } else {
                    let mut t = <String as StringExecFns>::from_str("Type ");
                    t.append(ty.base_type().display().as_str());
                    t.append(" (");
                    t.append(a.display().as_str());
                    t.append(")");
                    t
                };
                let ghost ev = self.entries_v();
                let ghost tv = self.types_v();
                let ghost ej = ev[entry_find(ev, a@)];
                let ghost tviewx = ej.ty->Some_0;
                let ghost is_modg = spec_type_display(tviewx) == "deai:module"@;
                let ghost titleg = if is_modg {
                    "Module "@ + spec_access_display(a@)
                } else {
                    "Type "@ + spec_type_display(spec_base_type(tviewx)) + " ("@
                        + spec_access_display(a@) + ")"@
                };
                proof {
                    assert(e@ == ej);
                    assert(ty@ == tviewx);
                    assert(is_mod == is_modg);
                    assert(title@ =~= titleg);
                }
                let mut out = Self::page_head(title.as_str());
                out.append(".. lua:module:: ");
                if is_mod {
                    out.append(a.display().as_str());
                } else {
                    out.append(ty.rst_display().as_str());
                }
                out.append("\n\n");
                let ghost modlineg = ".. lua:module:: "@ + (if is_modg {
                    spec_access_display(a@)
                } else {
                    spec_rst_display(tviewx)
                }) + "\n\n"@;
                proof {
                    assert(out@ =~= spec_page_head(titleg) + modlineg);
                }
                match &e.doc {
                    Option::Some(d) => {
                        out.append(d.brief.as_str());
                        out.append("\n\n");
                        out.append(Self::plain_body(&d.body, 0).as_str());
                    },
                    Option::None => {},
                }
                let ghost docpartg = match ej.doc {
                    Option::Some(d) => d.brief + "\n\n"@ + spec_plain_body(d.body, 0),
                    Option::None => Seq::<char>::empty(),
                };
                proof {
                    assert(out@ =~= spec_page_head(titleg) + modlineg + docpartg);
                }
                match self.find_type(ty) {
                    Option::Some(tj) => {
                        out.append(self.generate_references(&self.types[tj].1).as_str());
                    },
                    Option::None => {},
                }
                let ghost refsg = if type_find(tv, tviewx) >= 0 {
                    spec_generate_references(tv[type_find(tv, tviewx)].1)
                } else {
                    Seq::<char>::empty()
                };
                proof {
                    assert(out@ =~= spec_page_head(titleg) + modlineg + docpartg + refsg);
                }
                proof {
                    assert forall|q: int| 0 <= q < e.children@.len() implies (#[trigger] e.children@[
                        q
                    ]).1 < self.entries@.len() by {
                        assert(crate::entry::children_view(e.children@)[q].1 == e.children@[q].1
                            as int);
                        assert(crate::docs::entry_ok(
                            self.entries_v()[j as int],
                            self.entries_v().len() as int,
                        ));
                    }
                }
                out.append(self.sections(&e.children).as_str());
                proof {
                    assert(crate::entry::children_view(e.children@) == ej.children);
                    assert(out@ =~= spec_page_head(titleg) + modlineg + docpartg + refsg
                        + spec_sections(ev, ej.children));
                    assert(spec_generate_single(ev, tv, entry@) == spec_page_head(titleg)
                        + modlineg + docpartg + refsg + spec_sections(ev, ej.children));
                }
                out
            },
            AccessOrType::Type(t) => {
                let j = match self.find_type(t) {
                    Option::Some(j) => j,
                    Option::None => vstd::pervasive::unreached(),
                };
                let te = &self.types[j].1;
                let mut title = <String as StringExecFns>::from_str("Type ");
                title.append(t.display().as_str());
                let mut out = Self::page_head(title.as_str());
                out.append(".. lua:module:: ");
                out.append(t.rst_display().as_str());
                out.append("\n\n");
                if !te.doc.brief.as_str().is_empty() {
                    out.append(te.doc.brief.as_str());
                    out.append("\n\n");
                    out.append(Self::plain_body(&te.doc.body, 0).as_str());
                }
                out.append(self.generate_references(te).as_str());
                proof {
                    assert forall|q: int| 0 <= q < te.children@.len() implies (#[trigger] te.children@[
                        q
                    ]).1 < self.entries@.len() by {
                        assert(crate::entry::children_view(te.children@)[q].1 == te.children@[q].1
                            as int);
                        assert(crate::docs::type_entry_ok(
                            self.types_v()[j as int],
                            self.entries_v().len() as int,
                        ));
                    }
                }
                out.append(self.sections(&te.children).as_str());
                proof {
                    assert(crate::entry::children_view(te.children@) == self.types_v()[
                        j as int].1.children);
                    assert(out@ =~= spec_generate_single(
                        self.entries_v(),
                        self.types_v(),
                        entry@,
                    ));
                }
                out
            },
        }
    }
}

/// The views of the rendered pages: file names with their contents.
pub open spec fn pages_view(v: Seq<(String, String)>) -> Seq<(Seq<char>, Seq<char>)> {
    v.map_values(|p: (String, String)| (p.0@, p.1@))
}

/// One page per module: every paramless ancestry entry, from entry `k` on.
pub open spec fn spec_module_pages(
    entries: Seq<EntryView>,
    types: Seq<(TypeView, TypeEntryView)>,
    k: int,
) -> Seq<(Seq<char>, Seq<char>)>
    decreases entries.len() - k,
{
    if !(0 <= k < entries.len()) {
        Seq::empty()
    } else {
        let e = entries[k];
        (if e.path is Ancestry && e.params is None {
            seq![
                (
                    spec_access_display(e.path) + ".rst"@,
                    spec_generate_single(entries, types, AccessOrTypeView::Access(e.path)),
                ),
            ]
        } else {
            Seq::empty()
        }) + spec_module_pages(entries, types, k + 1)
    }
}

/// One page per namespaced type without an ancestor, from type `k` on.
pub open spec fn spec_type_pages(
    entries: Seq<EntryView>,
    types: Seq<(TypeView, TypeEntryView)>,
    k: int,
) -> Seq<(Seq<char>, Seq<char>)>
    decreases types.len() - k,
{
    if !(0 <= k < types.len()) {
        Seq::empty()
    } else {
        let t = types[k].0;
        let te = types[k].1;
        (if te.ancestor is None && (t matches TypeView::Base {
            namespace: Option::Some(_),
            ..
        }) {
            seq![
                (
                    spec_type_display(t) + ".rst"@,
                    spec_generate_single(entries, types, AccessOrTypeView::Type(t)),
                ),
            ]
        } else {
            Seq::empty()
        }) + spec_type_pages(entries, types, k + 1)
    }
}

/// The lines of the types table of contents, from type `k` on: every
/// namespaced type outside the root namespace, linked to its ancestor's
/// page when it has one.
pub open spec fn spec_types_toc_lines(types: Seq<(TypeView, TypeEntryView)>, k: int) -> Seq<char>
    decreases types.len() - k,
{
    if !(0 <= k < types.len()) {
        Seq::empty()
    } else {
        let t = types[k].0;
        let te = types[k].1;
        (match t {
            TypeView::Base { namespace: Option::Some(ns), .. } => if ns != "deai"@ {
                "   "@ + spec_type_display(t) + " <"@ + (match te.ancestor {
                    Option::Some(anc) => spec_access_display(anc),
                    Option::None => spec_type_display(t),
                }) + ">\n"@
            } else {
                Seq::empty()
            },
            _ => Seq::empty(),
        }) + spec_types_toc_lines(types, k + 1)
    }
}

/// The types table of contents.
pub open spec fn spec_types_toc(types: Seq<(TypeView, TypeEntryView)>) -> Seq<char> {
    "=====\nType\n=====\n\n"@ + ".. toctree::\n   :maxdepth: 2\n\n"@ + spec_types_toc_lines(
        types,
        0,
    )
}

/// The hidden toctree lines of the root index: every module entry bound to
/// the root module type, from entry `k` on.
pub open spec fn spec_modules_hidden(entries: Seq<EntryView>, k: int) -> Seq<char>
    decreases entries.len() - k,
{
    if !(0 <= k < entries.len()) {
        Seq::empty()
    } else {
        let e = entries[k];
        (if e.path is Ancestry && e.params is None && spec_type_display(e.ty->Some_0)
            == "deai:module"@ {
            "   "@ + spec_access_display(e.path) + " <"@ + spec_access_display(e.path) + ">\n"@
        } else {
            Seq::empty()
        }) + spec_modules_hidden(entries, k + 1)
    }
}

/// The table rows of the root index: every top-level paramless ancestry
/// entry, from entry `k` on.
pub open spec fn spec_modules_rows(entries: Seq<EntryView>, k: int) -> Seq<char>
    decreases entries.len() - k,
{
    if !(0 <= k < entries.len()) {
        Seq::empty()
    } else {
        let e = entries[k];
        (if e.path is Ancestry && spec_parent(e.path) is None && e.params is None {
            "   * - :doc:`"@ + spec_access_display(e.path) + " <"@ + spec_access_display(e.path)
                + ">`\n     - "@ + spec_brief_of(e) + "\n"@
        } else {
            Seq::empty()
        }) + spec_modules_rows(entries, k + 1)
    }
}

/// The top-level free methods, from entry `k` on: listed under their full
/// path.
pub open spec fn spec_top_methods(entries: Seq<EntryView>, k: int) -> Seq<(Seq<char>, int)>
    decreases entries.len() - k,
{
    if !(0 <= k < entries.len()) {
        Seq::empty()
    } else {
        let e = entries[k];
        (if e.params is Some && e.ty is Some && e.path is Ancestry && spec_parent(e.path)
            is None {
            seq![(spec_access_display(e.path), k)]
        } else {
            Seq::empty()
        }) + spec_top_methods(entries, k + 1)
    }
}

/// The root index page: the module toctree, the module table and the table
/// of top-level methods.
pub open spec fn spec_modules_index(entries: Seq<EntryView>) -> Seq<char> {
    "=============================\n"@ + "Modules and Top-level Methods\n"@
        + "=============================\n\n"@ + "\nModules\n=======\n\n"@
        + ".. toctree::\n   :maxdepth: 2\n   :hidden:\n\n"@ + spec_modules_hidden(entries, 0)
        + ".. list-table::\n   :header-rows: 0\n\n"@ + spec_modules_rows(entries, 0)
        + "\nMethods\n=======\n\n"@ + ".. list-table::\n   :header-rows: 0\n\n"@
        + spec_print_entries(entries, spec_top_methods(entries, 0))
}

/// Every rendered artifact: one page per module, one per ancestor-less
/// namespaced type, the types table of contents and the root index.
pub open spec fn spec_generate(
    entries: Seq<EntryView>,
    types: Seq<(TypeView, TypeEntryView)>,
) -> Seq<(Seq<char>, Seq<char>)> {
    spec_module_pages(entries, types, 0) + spec_type_pages(entries, types, 0) + seq![
        ("types.rst"@, spec_types_toc(types)),
        ("modules.rst"@, spec_modules_index(entries)),
    ]
}

impl Docs {
    /// Whether some module-like entry lacks a declared type; such a graph
    /// has no rendering.
    pub fn has_untyped_module(&self) -> (r: bool)
        ensures
            r == !modules_typed(self.entries_v()),
    {
        let mut k: usize = 0;
        while k < self.entries.len()
            invariant
                k <= self.entries@.len(),
                forall|i: int|
                    0 <= i < k && (#[trigger] self.entries_v()[i]).path is Ancestry
                        && self.entries_v()[i].params is None ==> self.entries_v()[i].ty is Some,
            decreases self.entries@.len() - k,
        {
            if self.entries[k].path.is_ancestry() && self.entries[k].params.is_none()
                && self.entries[k].ty.is_none() {
                proof {
                    let ev = self.entries_v();
                    assert(ev[k as int] == self.entries@[k as int]@);
                    assert((ev[k as int]).path is Ancestry && ev[k as int].params is None && ev[
                        k as int].ty is None);
                    assert(!modules_typed(ev));
                }
                return true;
            }
            k = k + 1;
        }
        false
    }

    /// Renders every artifact of the finished graph: the module pages, the
    /// type pages, the types table of contents and the root index, as file
    /// names with their contents, in a fixed order.
    pub fn generate(&self) -> (pages: Vec<(String, String)>)
        requires
            self.wf(),
            modules_typed(self.entries_v()),
        ensures
            pages_view(pages@) == spec_generate(self.entries_v(), self.types_v()),
    {
        let ghost ev = self.entries_v();
        let ghost tv = self.types_v();
        let mut pages: Vec<(String, String)> = Vec::new();
        proof {
            assert(pages_view(pages@) =~= Seq::<(Seq<char>, Seq<char>)>::empty());
        }
        let mut k: usize = 0;
        while k < self.entries.len()
            invariant
                self.wf(),
                modules_typed(ev),
                ev == self.entries_v(),
                tv == self.types_v(),
                k <= self.entries@.len(),
                pages_view(pages@) + spec_module_pages(ev, tv, k as int) == spec_module_pages(
                    ev,
                    tv,
                    0,
                ),
            decreases self.entries@.len() - k,
        {
            if self.entries[k].path.is_ancestry() && self.entries[k].params.is_none() {
                proof {
                    lemma_entry_find_self(ev, k as int);
                }
                let ghost pv0 = pages_view(pages@);
                let key = self.entries[k].path.deep_clone();
                let mut name = key.display();
                name.append(".rst");
                let content = self.generate_single(&AccessOrType::Access(key));
                pages.push((name, content));
                proof {
                    assert(pages_view(pages@) =~= pv0 + seq![
                        (
                            spec_access_display(ev[k as int].path) + ".rst"@,
                            spec_generate_single(
                                ev,
                                tv,
                                AccessOrTypeView::Access(ev[k as int].path),
                            ),
                        ),
                    ]);
                    assert((pv0 + seq![
                        (
                            spec_access_display(ev[k as int].path) + ".rst"@,
                            spec_generate_single(
                                ev,
                                tv,
                                AccessOrTypeView::Access(ev[k as int].path),
                            ),
                        ),
                    ]) + spec_module_pages(ev, tv, k as int + 1) =~= pv0 + spec_module_pages(
                        ev,
                        tv,
                        k as int,
                    ));
                }
            }
            k = k + 1;
        }
        proof {
            assert(pages_view(pages@) =~= spec_module_pages(ev, tv, 0));
        }
        let ghost after_modules = pages_view(pages@);
        let mut k2: usize = 0;
        while k2 < self.types.len()
            invariant
                self.wf(),
                modules_typed(ev),
                ev == self.entries_v(),
                tv == self.types_v(),
                k2 <= self.types@.len(),
                pages_view(pages@) + spec_type_pages(ev, tv, k2 as int) == after_modules
                    + spec_type_pages(ev, tv, 0),
            decreases self.types@.len() - k2,
        {
            let namespaced = match &self.types[k2].0 {
                Type::Base { namespace: Option::Some(_), .. } => true,
                _ => false,
            };
            if self.types[k2].1.ancestor.is_none() && namespaced {
                proof {
                    lemma_type_find_self(tv, k2 as int);
                }
                let ghost pv0 = pages_view(pages@);
                let mut name = self.types[k2].0.display();
                name.append(".rst");
                let content = self.generate_single(&AccessOrType::Type(&self.types[k2].0));
                pages.push((name, content));
                proof {
                    assert(pages_view(pages@) =~= pv0 + seq![
                        (
                            spec_type_display(tv[k2 as int].0) + ".rst"@,
                            spec_generate_single(ev, tv, AccessOrTypeView::Type(tv[k2 as int].0)),
                        ),
                    ]);
                    assert((pv0 + seq![
                        (
                            spec_type_display(tv[k2 as int].0) + ".rst"@,
                            spec_generate_single(ev, tv, AccessOrTypeView::Type(tv[k2 as int].0)),
                        ),
                    ]) + spec_type_pages(ev, tv, k2 as int + 1) =~= pv0 + spec_type_pages(
                        ev,
                        tv,
                        k2 as int,
                    ));
                }
            }
            k2 = k2 + 1;
        }
        proof {
            assert(pages_view(pages@) =~= after_modules + spec_type_pages(ev, tv, 0));
        }
        let mut toc = <String as StringExecFns>::from_str("=====\nType\n=====\n\n");
        toc.append(".. toctree::\n   :maxdepth: 2\n\n");
        let ghost toc0 = toc@;
        let mut k3: usize = 0;
        while k3 < self.types.len()
            invariant
                self.wf(),
                ev == self.entries_v(),
                tv == self.types_v(),
                k3 <= self.types@.len(),
                toc@ + spec_types_toc_lines(tv, k3 as int) == toc0 + spec_types_toc_lines(tv, 0),
            decreases self.types@.len() - k3,
        {
            let ghost tocp = toc@;
            let listed = match &self.types[k3].0 {
                Type::Base { namespace: Option::Some(ns), .. } => !str_eq(ns.as_str(), "deai"),
                _ => false,
            };
            if listed {
                toc.append("   ");
                toc.append(self.types[k3].0.display().as_str());
                toc.append(" <");
                match &self.types[k3].1.ancestor {
                    Option::Some(anc) => {
                        toc.append(anc.display().as_str());
                    },
                    Option::None => {
                        toc.append(self.types[k3].0.display().as_str());
                    },
                }
                toc.append(">\n");
            }
            proof {
                assert(toc@ + spec_types_toc_lines(tv, k3 as int + 1) =~= tocp
                    + spec_types_toc_lines(tv, k3 as int));
            }
            k3 = k3 + 1;
        }
        proof {
            assert(toc@ =~= spec_types_toc(tv));
        }
        let mut index = <String as StringExecFns>::from_str("=============================\n");
        index.append("Modules and Top-level Methods\n");
        index.append("=============================\n\n");
        index.append("\nModules\n=======\n\n");
        index.append(".. toctree::\n   :maxdepth: 2\n   :hidden:\n\n");
        let ghost index0 = index@;
        let mut k4: usize = 0;
        while k4 < self.entries.len()
            invariant
                self.wf(),
                modules_typed(ev),
                ev == self.entries_v(),
                k4 <= self.entries@.len(),
                index@ + spec_modules_hidden(ev, k4 as int) == index0 + spec_modules_hidden(ev, 0),
            decreases self.entries@.len() - k4,
        {
            let ghost indexp = index@;
            let mut listed = false;
            if self.entries[k4].path.is_ancestry() && self.entries[k4].params.is_none() {
                match &self.entries[k4].ty {
                    Option::Some(t) => {
                        listed = str_eq(t.display().as_str(), "deai:module");
                    },
                    Option::None => {
                        listed = vstd::pervasive::unreached();
                    },
                }
            }
            if listed {
                index.append("   ");
                index.append(self.entries[k4].path.display().as_str());
                index.append(" <");
                index.append(self.entries[k4].path.display().as_str());
                index.append(">\n");
            }
            proof {
                assert(index@ + spec_modules_hidden(ev, k4 as int + 1) =~= indexp
                    + spec_modules_hidden(ev, k4 as int));
            }
            k4 = k4 + 1;
        }
        index.append(".. list-table::\n   :header-rows: 0\n\n");
        let ghost index1 = index@;
        let mut k5: usize = 0;
        while k5 < self.entries.len()
            invariant
                self.wf(),
                ev == self.entries_v(),
                k5 <= self.entries@.len(),
                index@ + spec_modules_rows(ev, k5 as int) == index1 + spec_modules_rows(ev, 0),
            decreases self.entries@.len() - k5,
        {
            let ghost indexp = index@;
            let mut listed = false;
            if self.entries[k5].path.is_ancestry() && self.entries[k5].params.is_none() {
                match self.entries[k5].path.parent() {
                    Option::Some(_) => {},
                    Option::None => {
                        listed = true;
                    },
                }
            }
            if listed {
                index.append("   * - :doc:`");
                index.append(self.entries[k5].path.display().as_str());
                index.append(" <");
                index.append(self.entries[k5].path.display().as_str());
                index.append(">`\n     - ");
                match &self.entries[k5].doc {
                    Option::Some(d) => {
                        index.append(d.brief.as_str());
                    },
                    Option::None => {},
                }
                index.append("\n");
            }
            proof {
                assert(index@ + spec_modules_rows(ev, k5 as int + 1) =~= indexp
                    + spec_modules_rows(ev, k5 as int));
            }
            k5 = k5 + 1;
        }
        index.append("\nMethods\n=======\n\n");
        index.append(".. list-table::\n   :header-rows: 0\n\n");
        let mut items: Vec<(String, usize)> = Vec::new();
        proof {
            assert(crate::entry::children_view(items@) =~= Seq::<(Seq<char>, int)>::empty());
        }
        let mut k6: usize = 0;
        while k6 < self.entries.len()
            invariant
                self.wf(),
                ev == self.entries_v(),
                k6 <= self.entries@.len(),
                forall|q: int|
                    0 <= q < items@.len() ==> (#[trigger] items@[q]).1 < self.entries@.len(),
                crate::entry::children_view(items@) + spec_top_methods(ev, k6 as int)
                    == spec_top_methods(ev, 0),
            decreases self.entries@.len() - k6,
        {
            let ghost itemsp = crate::entry::children_view(items@);
            let mut listed = self.entries[k6].params.is_some() && self.entries[k6].ty.is_some()
                && self.entries[k6].path.is_ancestry();
            if listed {
                match self.entries[k6].path.parent() {
                    Option::Some(_) => {
                        listed = false;
                    },
                    Option::None => {},
                }
            }
            if listed {
                items.push((self.entries[k6].path.display(), k6));
                proof {
                    assert(crate::entry::children_view(items@) =~= itemsp + seq![
                        (spec_access_display(ev[k6 as int].path), k6 as int),
                    ]);
                    assert((itemsp + seq![(spec_access_display(ev[k6 as int].path), k6 as int)])
                        + spec_top_methods(ev, k6 as int + 1) =~= itemsp + spec_top_methods(
                        ev,
                        k6 as int,
                    ));
                }
            } else {
                proof {
                    assert(itemsp + spec_top_methods(ev, k6 as int + 1) =~= itemsp
                        + spec_top_methods(ev, k6 as int));
                }
            }
            k6 = k6 + 1;
        }
        index.append(self.print_entries(&items).as_str());
        proof {
            assert(index@ =~= spec_modules_index(ev));
        }
        let ghost before_fixed = pages_view(pages@);
        pages.push((<String as StringExecFns>::from_str("types.rst"), toc));
        pages.push((<String as StringExecFns>::from_str("modules.rst"), index));
        proof {
            assert(pages_view(pages@) =~= before_fixed + seq![
                ("types.rst"@, spec_types_toc(tv)),
                ("modules.rst"@, spec_modules_index(ev)),
            ]);
            assert(pages_view(pages@) =~= spec_generate(ev, tv));
        }
        pages
    }
}

} // verus!
