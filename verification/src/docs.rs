//! The documentation graph: two keyed collections (entries by access, type
//! entries by base type), the aggregator that scans one comment's
//! paragraphs, and the two build passes that index types and link the
//! hierarchy.

use vstd::prelude::*;
use vstd::string::StrSliceExecFns;
use crate::access::{Access, AccessView, access_lt, cmp_access, lemma_access_lt_total,
    lemma_access_lt_trans};
use crate::ty::{Type, TypeView, type_lt, cmp_type, lemma_type_lt_total, lemma_type_lt_trans};
use crate::entry::{Entry, EntryView, TypeEntry, TypeEntryView, Doc, DocView, Parameter,
    ParameterView};
use crate::order::{Rel, seq_char_lt, cmp_str, lemma_seq_char_lt_total, lemma_seq_char_lt_trans};

verus! {

/// The two keyed collections of the graph and the process-wide error flag.
/// Entries are kept strictly sorted by access, type entries strictly sorted
/// by base type: the sorted orders drive all deterministic iteration.
#[derive(Debug)]
pub struct Docs {
    pub entries: Vec<Entry>,
    pub types: Vec<(Type, TypeEntry)>,
    pub has_error: bool,
}

pub open spec fn entries_view(v: Seq<Entry>) -> Seq<EntryView> {
    v.map_values(|e: Entry| e@)
}

pub open spec fn types_view(v: Seq<(Type, TypeEntry)>) -> Seq<(TypeView, TypeEntryView)> {
    v.map_values(|p: (Type, TypeEntry)| (p.0@, p.1@))
}

/// Entries strictly sorted by their access.
pub open spec fn entries_sorted(s: Seq<EntryView>) -> bool {
    forall|i: int, j: int|
        0 <= i < j < s.len() ==> access_lt(#[trigger] s[i].path, #[trigger] s[j].path)
}

/// Type entries strictly sorted by their key.
pub open spec fn types_sorted(s: Seq<(TypeView, TypeEntryView)>) -> bool {
    forall|i: int, j: int| 0 <= i < j < s.len() ==> type_lt(#[trigger] s[i].0, #[trigger] s[j].0)
}

/// A reference set strictly sorted by access.
pub open spec fn refs_sorted(s: Seq<AccessView>) -> bool {
    forall|i: int, j: int| 0 <= i < j < s.len() ==> access_lt(#[trigger] s[i], #[trigger] s[j])
}

/// A child mapping strictly sorted by name.
pub open spec fn children_sorted(s: Seq<(Seq<char>, int)>) -> bool {
    forall|i: int, j: int|
        0 <= i < j < s.len() ==> seq_char_lt(#[trigger] s[i].0, #[trigger] s[j].0)
}

/// An entry is well formed within a graph of `n` entries: its children
/// point into the entry arena and are sorted by name.
pub open spec fn entry_ok(e: EntryView, n: int) -> bool {
    &&& children_sorted(e.children)
    &&& forall|k: int| 0 <= k < e.children.len() ==> 0 <= (#[trigger] e.children[k]).1 < n
}

/// A type entry is well formed within a graph of `n` entries: its key is a
/// base type and its references and children are sorted and in bounds.
pub open spec fn type_entry_ok(t: (TypeView, TypeEntryView), n: int) -> bool {
    &&& t.0 is Base
    &&& refs_sorted(t.1.references)
    &&& children_sorted(t.1.children)
    &&& forall|k: int| 0 <= k < t.1.children.len() ==> 0 <= (#[trigger] t.1.children[k]).1 < n
}

impl Docs {
    pub open spec fn entries_v(&self) -> Seq<EntryView> {
        entries_view(self.entries@)
    }

    pub open spec fn types_v(&self) -> Seq<(TypeView, TypeEntryView)> {
        types_view(self.types@)
    }

    /// The graph invariant.
    pub open spec fn wf(&self) -> bool {
        &&& entries_sorted(self.entries_v())
        &&& types_sorted(self.types_v())
        &&& forall|i: int|
            0 <= i < self.entries_v().len() ==> entry_ok(
                #[trigger] self.entries_v()[i],
                self.entries_v().len() as int,
            )
        &&& forall|i: int|
            0 <= i < self.types_v().len() ==> type_entry_ok(
                #[trigger] self.types_v()[i],
                self.entries_v().len() as int,
            )
    }

    /// An empty graph without errors.
    pub fn new() -> (r: Docs)
        ensures
            r.wf(),
            r.entries_v().len() == 0,
            r.types_v().len() == 0,
            !r.has_error,
    {
        let r = Docs { entries: Vec::new(), types: Vec::new(), has_error: false };
        proof {
            assert(r.entries_v() =~= Seq::<EntryView>::empty());
            assert(r.types_v() =~= Seq::<(TypeView, TypeEntryView)>::empty());
        }
        r
    }
}

/// First index at or after `i` whose entry's access does not sort below
/// `key`; the length when every one does.
pub open spec fn entry_pos_from(s: Seq<EntryView>, key: AccessView, i: int) -> int
    decreases s.len() - i,
{
    if !(0 <= i < s.len()) {
        s.len() as int
    } else if access_lt(s[i].path, key) {
        entry_pos_from(s, key, i + 1)
    } else {
        i
    }
}

pub proof fn lemma_entry_pos_from(s: Seq<EntryView>, key: AccessView, i: int)
    requires
        0 <= i <= s.len(),
    ensures
        i <= entry_pos_from(s, key, i) <= s.len(),
        forall|m: int| i <= m < entry_pos_from(s, key, i) ==> access_lt(#[trigger] s[m].path, key),
        entry_pos_from(s, key, i) < s.len() ==> !access_lt(
            s[entry_pos_from(s, key, i)].path,
            key,
        ),
    decreases s.len() - i,
{
    if 0 <= i < s.len() && access_lt(s[i].path, key) {
        lemma_entry_pos_from(s, key, i + 1);
    }
}

/// Inserting an entry into the sorted collection: a new access goes to its
/// sorted position; an access already present is kept as it was and the
/// duplicate is reported.
pub open spec fn entries_insert(s: Seq<EntryView>, e: EntryView) -> (Seq<EntryView>, bool) {
    let j = entry_pos_from(s, e.path, 0);
    if j < s.len() && s[j].path == e.path {
        (s, true)
    } else {
        (s.insert(j, e), false)
    }
}

/// The sorted position of `key` in the entry collection.
pub(crate) fn entry_lower_bound(entries: &Vec<Entry>, key: &Access, i: usize) -> (r: usize)
    requires
        i <= entries@.len(),
    ensures
        r as int == entry_pos_from(entries_view(entries@), key@, i as int),
        i <= r <= entries@.len(),
    decreases entries@.len() - i,
{
    proof {
        lemma_entry_pos_from(entries_view(entries@), key@, i as int);
    }
    if i >= entries.len() {
        return i;
    }
    match cmp_access(&entries[i].path, key) {
        Rel::Less => entry_lower_bound(entries, key, i + 1),
        Rel::Equal => i,
        Rel::Greater => i,
    }
}

/// First index at or after `i` whose type key does not sort below `key`.
pub open spec fn type_pos_from(s: Seq<(TypeView, TypeEntryView)>, key: TypeView, i: int) -> int
    decreases s.len() - i,
{
    if !(0 <= i < s.len()) {
        s.len() as int
    } else if type_lt(s[i].0, key) {
        type_pos_from(s, key, i + 1)
    } else {
        i
    }
}

pub proof fn lemma_type_pos_from(s: Seq<(TypeView, TypeEntryView)>, key: TypeView, i: int)
    requires
        0 <= i <= s.len(),
    ensures
        i <= type_pos_from(s, key, i) <= s.len(),
        forall|m: int| i <= m < type_pos_from(s, key, i) ==> type_lt(#[trigger] s[m].0, key),
        type_pos_from(s, key, i) < s.len() ==> !type_lt(s[type_pos_from(s, key, i)].0, key),
    decreases s.len() - i,
{
    if 0 <= i < s.len() && type_lt(s[i].0, key) {
        lemma_type_pos_from(s, key, i + 1);
    }
}

/// An empty type entry, as a view.
pub open spec fn empty_type_entry() -> TypeEntryView {
    TypeEntryView {
        references: Seq::empty(),
        children: Seq::empty(),
        ancestor: Option::None,
        doc: DocView { brief: Seq::empty(), body: Seq::empty() },
    }
}

/// Fetch-or-create for the type collection: the index of the key's entry,
/// creating an empty one at its sorted position when the key is new.
pub open spec fn types_ensure(s: Seq<(TypeView, TypeEntryView)>, key: TypeView) -> (
    Seq<(TypeView, TypeEntryView)>,
    int,
) {
    let j = type_pos_from(s, key, 0);
    if j < s.len() && s[j].0 == key {
        (s, j)
    } else {
        (s.insert(j, (key, empty_type_entry())), j)
    }
}

/// The sorted position of `key` in the type collection.
pub(crate) fn type_lower_bound(types: &Vec<(Type, TypeEntry)>, key: &Type, i: usize) -> (r: usize)
    requires
        i <= types@.len(),
    ensures
        r as int == type_pos_from(types_view(types@), key@, i as int),
        i <= r <= types@.len(),
    decreases types@.len() - i,
{
    proof {
        lemma_type_pos_from(types_view(types@), key@, i as int);
    }
    if i >= types.len() {
        return i;
    }
    match cmp_type(&types[i].0, key) {
        Rel::Less => type_lower_bound(types, key, i + 1),
        Rel::Equal => i,
        Rel::Greater => i,
    }
}

/// First index at or after `i` whose reference does not sort below `key`.
pub open spec fn ref_pos_from(s: Seq<AccessView>, key: AccessView, i: int) -> int
    decreases s.len() - i,
{
    if !(0 <= i < s.len()) {
        s.len() as int
    } else if access_lt(s[i], key) {
        ref_pos_from(s, key, i + 1)
    } else {
        i
    }
}

pub proof fn lemma_ref_pos_from(s: Seq<AccessView>, key: AccessView, i: int)
    requires
        0 <= i <= s.len(),
    ensures
        i <= ref_pos_from(s, key, i) <= s.len(),
        forall|m: int| i <= m < ref_pos_from(s, key, i) ==> access_lt(#[trigger] s[m], key),
        ref_pos_from(s, key, i) < s.len() ==> !access_lt(s[ref_pos_from(s, key, i)], key),
    decreases s.len() - i,
{
    if 0 <= i < s.len() && access_lt(s[i], key) {
        lemma_ref_pos_from(s, key, i + 1);
    }
}

/// Inserting an access into a sorted reference set: kept sorted, nothing
/// added when it is already present.
pub open spec fn refs_insert(s: Seq<AccessView>, a: AccessView) -> Seq<AccessView> {
    let j = ref_pos_from(s, a, 0);
    if j < s.len() && s[j] == a {
        s
    } else {
        s.insert(j, a)
    }
}

/// Adds an access to a sorted reference set.
fn refs_insert_exec(refs: &mut Vec<Access>, a: Access)
    requires
        refs_sorted(old(refs)@.map_values(|x: Access| x@)),
    ensures
        final(refs)@.map_values(|x: Access| x@) == refs_insert(
            old(refs)@.map_values(|x: Access| x@),
            a@,
        ),
        refs_sorted(final(refs)@.map_values(|x: Access| x@)),
{
    let ghost s = refs@.map_values(|x: Access| x@);
    proof {
        lemma_ref_pos_from(s, a@, 0);
    }
    let j = ref_lower_bound(refs, &a, 0);
    let ghost jj = j as int;
    if j < refs.len() {
        match cmp_access(&refs[j], &a) {
            Rel::Equal => {
                return ;
            },
            _ => {},
        }
    }
    refs.insert(j, a);
    proof {
        let s2 = refs@.map_values(|x: Access| x@);
        assert(s2 =~= s.insert(jj, a@));
        assert forall|x: int, y: int| 0 <= x < y < s2.len() implies access_lt(
            #[trigger] s2[x],
            #[trigger] s2[y],
        ) by {
            lemma_sorted_after_insert_ref(s, a@, jj, x, y);
        }
    }
}

/// Sortedness of a reference set after one sorted insert.
proof fn lemma_sorted_after_insert_ref(s: Seq<AccessView>, a: AccessView, j: int, x: int, y: int)
    requires
        refs_sorted(s),
        j == ref_pos_from(s, a, 0),
        !(j < s.len() && s[j] == a),
        0 <= x < y < s.insert(j, a).len(),
    ensures
        access_lt(s.insert(j, a)[x], s.insert(j, a)[y]),
{
    lemma_ref_pos_from(s, a, 0);
    let s2 = s.insert(j, a);
    if x == j {
        // a against a later original element
        let m = y - 1;
        assert(s2[y] == s[m]);
        lemma_access_lt_total(s[j], a);
        if m > j {
            lemma_access_lt_trans(a, s[j], s[m]);
        }
    } else if y == j {
        let m = x;
        assert(s2[x] == s[m]);
    } else {
        let mx = if x < j {
            x
        } else {
            x - 1
        };
        let my = if y < j {
            y
        } else {
            y - 1
        };
        assert(s2[x] == s[mx]);
        assert(s2[y] == s[my]);
        if x < j && y > j {
            if my == j {
                lemma_access_lt_total(s[j], a);
            } else {
                lemma_access_lt_total(s[j], a);
                lemma_access_lt_trans(a, s[j], s[my]);
                lemma_access_lt_trans(s[mx], a, s[my]);
            }
        }
    }
}

/// The sorted position of `key` in a reference set.
fn ref_lower_bound(refs: &Vec<Access>, key: &Access, i: usize) -> (r: usize)
    requires
        i <= refs@.len(),
    ensures
        r as int == ref_pos_from(refs@.map_values(|x: Access| x@), key@, i as int),
        i <= r <= refs@.len(),
    decreases refs@.len() - i,
{
    proof {
        lemma_ref_pos_from(refs@.map_values(|x: Access| x@), key@, i as int);
    }
    if i >= refs.len() {
        return i;
    }
    match cmp_access(&refs[i], key) {
        Rel::Less => ref_lower_bound(refs, key, i + 1),
        Rel::Equal => i,
        Rel::Greater => i,
    }
}

/// First index at or after `i` whose child name does not sort below `name`.
pub open spec fn child_pos_from(s: Seq<(Seq<char>, int)>, name: Seq<char>, i: int) -> int
    decreases s.len() - i,
{
    if !(0 <= i < s.len()) {
        s.len() as int
    } else if seq_char_lt(s[i].0, name) {
        child_pos_from(s, name, i + 1)
    } else {
        i
    }
}

pub proof fn lemma_child_pos_from(s: Seq<(Seq<char>, int)>, name: Seq<char>, i: int)
    requires
        0 <= i <= s.len(),
    ensures
        i <= child_pos_from(s, name, i) <= s.len(),
        forall|m: int|
            i <= m < child_pos_from(s, name, i) ==> seq_char_lt((#[trigger] s[m]).0, name),
        child_pos_from(s, name, i) < s.len() ==> !seq_char_lt(s[child_pos_from(s, name, i)].0, name),
    decreases s.len() - i,
{
    if 0 <= i < s.len() && seq_char_lt(s[i].0, name) {
        lemma_child_pos_from(s, name, i + 1);
    }
}

/// Inserting into a child mapping: a new name goes to its sorted position;
/// an existing name has its entry replaced and the duplicate is reported.
pub open spec fn children_insert(s: Seq<(Seq<char>, int)>, name: Seq<char>, idx: int) -> (
    Seq<(Seq<char>, int)>,
    bool,
) {
    let j = child_pos_from(s, name, 0);
    if j < s.len() && s[j].0 == name {
        (s.update(j, (name, idx)), true)
    } else {
        (s.insert(j, (name, idx)), false)
    }
}

/// Adds a child under its name; reports whether the name was taken.
fn children_insert_exec(ch: &mut Vec<(String, usize)>, name: String, idx: usize) -> (dup: bool)
    requires
        children_sorted(crate::entry::children_view(old(ch)@)),
    ensures
        ({
            let (s2, d) = children_insert(crate::entry::children_view(old(ch)@), name@, idx as int);
            &&& crate::entry::children_view(final(ch)@) == s2
            &&& dup == d
        }),
        children_sorted(crate::entry::children_view(final(ch)@)),
        forall|k: int|
            0 <= k < final(ch)@.len() ==> (#[trigger] final(ch)@[k]).1 == idx || exists|m: int|
                0 <= m < old(ch)@.len() && final(ch)@[k].1 == (#[trigger] old(ch)@[m]).1,
    decreases old(ch)@.len(),
{
    let ghost s = crate::entry::children_view(ch@);
    proof {
        lemma_child_pos_from(s, name@, 0);
    }
    let j = child_lower_bound(ch, name.as_str(), 0);
    let ghost jj = j as int;
    if j < ch.len() {
        match cmp_str(ch[j].0.as_str(), name.as_str()) {
            Rel::Equal => {
                ch.push((name, idx));
                ch.swap_remove(j);
                proof {
                    let s2 = crate::entry::children_view(ch@);
                    assert(s2 =~= s.update(jj, (name@, idx as int)));
                    assert forall|x: int, y: int| 0 <= x < y < s2.len() implies seq_char_lt(
                        (#[trigger] s2[x]).0,
                        (#[trigger] s2[y]).0,
                    ) by {
                        assert(s[jj].0 == name@);
                        assert(s2[x].0 == s[x].0);
                        assert(s2[y].0 == s[y].0);
                    }
                }
                return true;
            },
            _ => {},
        }
    }
    ch.insert(j, (name, idx));
    proof {
        let s2 = crate::entry::children_view(ch@);
        assert(s2 =~= s.insert(jj, (name@, idx as int)));
        assert forall|x: int, y: int| 0 <= x < y < s2.len() implies seq_char_lt(
            (#[trigger] s2[x]).0,
            (#[trigger] s2[y]).0,
        ) by {
            lemma_sorted_after_insert_child(s, (name@, idx as int), jj, x, y);
        }
    }
    false
}

/// Sortedness of a child mapping after one sorted insert.
proof fn lemma_sorted_after_insert_child(
    s: Seq<(Seq<char>, int)>,
    c: (Seq<char>, int),
    j: int,
    x: int,
    y: int,
)
    requires
        children_sorted(s),
        j == child_pos_from(s, c.0, 0),
        !(j < s.len() && s[j].0 == c.0),
        0 <= x < y < s.insert(j, c).len(),
    ensures
        seq_char_lt(s.insert(j, c)[x].0, s.insert(j, c)[y].0),
{
    lemma_child_pos_from(s, c.0, 0);
    let s2 = s.insert(j, c);
    if x == j {
        let m = y - 1;
        assert(s2[y] == s[m]);
        lemma_seq_char_lt_total(s[j].0, c.0);
        if m > j {
            lemma_seq_char_lt_trans(c.0, s[j].0, s[m].0);
        }
    } else if y == j {
        assert(s2[x] == s[x]);
    } else {
        let mx = if x < j {
            x
        } else {
            x - 1
        };
        let my = if y < j {
            y
        } else {
            y - 1
        };
        assert(s2[x] == s[mx]);
        assert(s2[y] == s[my]);
        if x < j && y > j {
            if my == j {
                lemma_seq_char_lt_total(s[j].0, c.0);
            } else {
                lemma_seq_char_lt_total(s[j].0, c.0);
                lemma_seq_char_lt_trans(c.0, s[j].0, s[my].0);
                lemma_seq_char_lt_trans(s[mx].0, c.0, s[my].0);
            }
        }
    }
}

/// The sorted position of `name` in a child mapping.
fn child_lower_bound(ch: &Vec<(String, usize)>, name: &str, i: usize) -> (r: usize)
    requires
        i <= ch@.len(),
    ensures
        r as int == child_pos_from(crate::entry::children_view(ch@), name@, i as int),
        i <= r <= ch@.len(),
    decreases ch@.len() - i,
{
    proof {
        lemma_child_pos_from(crate::entry::children_view(ch@), name@, i as int);
    }
    if i >= ch.len() {
        return i;
    }
    match cmp_str(ch[i].0.as_str(), name) {
        Rel::Less => child_lower_bound(ch, name, i + 1),
        Rel::Equal => i,
        Rel::Greater => i,
    }
}

impl Docs {
    /// Saves one finished entry. A new access goes to its sorted position; a
    /// second entry under an already used access is discarded and surfaces
    /// as a graph error on the process-wide flag.
    pub fn insert_entry(&mut self, e: Entry) -> (dup: bool)
        requires
            old(self).wf(),
            e@.children.len() == 0,
        ensures
            final(self).wf(),
            final(self).types@ == old(self).types@,
            ({
                let (s2, d) = entries_insert(old(self).entries_v(), e@);
                &&& final(self).entries_v() == s2
                &&& dup == d
            }),
            final(self).has_error == (old(self).has_error || dup),
    {
        let ghost s = self.entries_v();
        let ghost ev = e@;
        proof {
            lemma_entry_pos_from(s, ev.path, 0);
        }
        let j = entry_lower_bound(&self.entries, &e.path, 0);
        let ghost jj = j as int;
        if j < self.entries.len() {
            match cmp_access(&self.entries[j].path, &e.path) {
                Rel::Equal => {
                    self.has_error = true;
                    return true;
                },
                _ => {},
            }
        }
        self.entries.insert(j, e);
        proof {
            let s2 = self.entries_v();
            assert(s2 =~= s.insert(jj, ev));
            assert forall|x: int, y: int| 0 <= x < y < s2.len() implies access_lt(
                (#[trigger] s2[x]).path,
                (#[trigger] s2[y]).path,
            ) by {
                lemma_sorted_after_insert_entry(s, ev, jj, x, y);
            }
            let n2 = s2.len() as int;
            assert forall|i: int| 0 <= i < s2.len() implies entry_ok(#[trigger] s2[i], n2) by {
                if i < jj {
                    assert(s2[i] == s[i]);
                    assert(entry_ok(s[i], n2 - 1));
                } else if i > jj {
                    assert(s2[i] == s[i - 1]);
                    assert(entry_ok(s[i - 1], n2 - 1));
                } else {
                    assert(s2[i] == ev);
                }
            }
            assert forall|i: int| 0 <= i < self.types_v().len() implies type_entry_ok(
                #[trigger] self.types_v()[i],
                n2,
            ) by {
                assert(type_entry_ok(self.types_v()[i], n2 - 1));
            }
        }
        false
    }
}

/// The state of the scan over one comment's paragraphs: the entry being
/// built, the pending brief and body paragraphs, the entry collection so
/// far, and whether a duplicate access was seen.
pub struct ScanSt {
    pub cur: Option<EntryView>,
    pub brief: Option<Seq<char>>,
    pub body: Seq<Seq<char>>,
    pub entries: Seq<EntryView>,
    pub dup: bool,
}

/// The recoverable errors of one comment's scan.
#[derive(Debug, Clone, Copy, PartialEq, Eq, Structural)]
pub enum ScanErr {
    InvalidExport,
    InvalidSignal,
    MissingParamBlock,
    DupParamDoc,
    ParamBlockOnProperty,
    StrayParamBlock,
}

impl ScanErr {
    /// A fixed description of the error, for diagnostics.
    pub fn describe(&self) -> (r: &'static str)
        ensures
            *self is InvalidExport ==> r@ == "invalid export line"@,
            *self is InvalidSignal ==> r@ == "invalid signal line"@,
            *self is MissingParamBlock ==> r@ == "marker paragraph not followed by a parameter block"@,
            *self is DupParamDoc ==> r@ == "duplicated documentation for a parameter"@,
            *self is ParamBlockOnProperty ==> r@ == "parameter block attached to a property"@,
            *self is StrayParamBlock ==> r@ == "parameter block without a declaration"@,
    {
        match self {
            ScanErr::InvalidExport => "invalid export line",
            ScanErr::InvalidSignal => "invalid signal line",
            ScanErr::MissingParamBlock => "marker paragraph not followed by a parameter block",
            ScanErr::DupParamDoc => "duplicated documentation for a parameter",
            ScanErr::ParamBlockOnProperty => "parameter block attached to a property",
            ScanErr::StrayParamBlock => "parameter block without a declaration",
        }
    }
}

pub open spec fn opt_entry_view(c: Option<Entry>) -> Option<EntryView> {
    match c {
        Option::Some(e) => Option::Some(e@),
        Option::None => Option::None,
    }
}

pub open spec fn opt_string_view(b: Option<String>) -> Option<Seq<char>> {
    match b {
        Option::Some(s) => Option::Some(s@),
        Option::None => Option::None,
    }
}

/// Saving the entry being built: the accumulated brief and body become its
/// documentation (when a brief exists) and it goes into the collection;
/// without an entry in progress nothing changes.
pub open spec fn spec_save(st: ScanSt) -> ScanSt {
    match st.cur {
        Option::None => st,
        Option::Some(e) => {
            let doc = match st.brief {
                Option::Some(b) => Option::Some(DocView { brief: b, body: st.body }),
                Option::None => Option::None,
            };
            let e2 = EntryView {
                path: e.path,
                params: e.params,
                ty: e.ty,
                doc,
                children: e.children,
            };
            let r = entries_insert(st.entries, e2);
            ScanSt {
                cur: Option::None,
                brief: Option::None,
                body: Seq::empty(),
                entries: r.0,
                dup: st.dup || r.1,
            }
        },
    }
}

/// Merging a detail block into the declared parameters, from parameter `k`
/// on: a parameter found in the block takes its documentation (and, when it
/// has no inline type, the block's type) from there, and the block entry is
/// spent. Documentation or a type supplied twice is an error.
pub open spec fn spec_merge(
    params: Seq<ParameterView>,
    details: Seq<ParameterView>,
    k: int,
) -> Option<(Seq<ParameterView>, Seq<ParameterView>)>
    decreases params.len() - k,
{
    if !(0 <= k < params.len()) {
        Option::Some((params, details))
    } else {
        let j = crate::parse::find_name(details, params[k].name);
        if j >= 0 {
            let p = params[k];
            let d = details[j];
            if p.doc.len() > 0 || (p.ty is Some && d.ty is Some) {
                Option::None
            } else {
                let p2 = ParameterView {
                    name: p.name,
                    ty: if p.ty is Some {
                        p.ty
                    } else {
                        d.ty
                    },
                    doc: d.doc,
                };
                let d2 = ParameterView { name: d.name, ty: Option::None, doc: Seq::empty() };
                spec_merge(params.update(k, p2), details.update(j, d2), k + 1)
            }
        } else {
            spec_merge(params, details, k + 1)
        }
    }
}

/// The scan of one comment's paragraphs from paragraph `i` on: directive
/// lines open entries (saving the previous one), `Arguments:` merges the
/// following detail block, free text accumulates as brief and body; at the
/// end the last entry is saved. A failed directive or detail merge stops
/// the scan with an error, keeping what was already saved.
pub open spec fn spec_scan(paras: Seq<Seq<char>>, i: int, st: ScanSt) -> (ScanSt, Option<ScanErr>)
    decreases paras.len() - i,
    when 0 <= i
{
    if i >= paras.len() {
        (spec_save(st), Option::None)
    } else {
        let p = paras[i];
        if crate::strutil::spec_starts_with(p, "EXPORT:"@) {
            match crate::parse::spec_export_line(p) {
                Option::Some(e) => {
                    let st1 = spec_save(st);
                    spec_scan(
                        paras,
                        i + 1,
                        ScanSt {
                            cur: Option::Some(e),
                            brief: st1.brief,
                            body: st1.body,
                            entries: st1.entries,
                            dup: st1.dup,
                        },
                    )
                },
                Option::None => (st, Option::Some(ScanErr::InvalidExport)),
            }
        } else if crate::strutil::spec_starts_with(p, "SIGNAL:"@) {
            match crate::parse::spec_signal_line(p) {
                Option::Some((j, e)) => {
                    let st1 = spec_save(st);
                    let b = crate::strutil::spec_trim_flatten(p, j, p.len() as int);
                    spec_scan(
                        paras,
                        i + 1,
                        ScanSt {
                            cur: Option::Some(e),
                            brief: Option::Some(b),
                            body: st1.body,
                            entries: st1.entries,
                            dup: st1.dup,
                        },
                    )
                },
                Option::None => (st, Option::Some(ScanErr::InvalidSignal)),
            }
        } else if p == "Arguments:"@ {
            if i + 1 >= paras.len() {
                (st, Option::Some(ScanErr::MissingParamBlock))
            } else {
                let details = crate::parse::spec_detail_lines(paras[i + 1], 0, Seq::empty());
                match st.cur {
                    Option::Some(e) => match e.params {
                        Option::Some((ps, dots)) => match spec_merge(ps, details, 0) {
                            Option::Some((ps2, _)) => spec_scan(
                                paras,
                                i + 2,
                                ScanSt {
                                    cur: Option::Some(
                                        EntryView {
                                            path: e.path,
                                            params: Option::Some((ps2, dots)),
                                            ty: e.ty,
                                            doc: e.doc,
                                            children: e.children,
                                        },
                                    ),
                                    brief: st.brief,
                                    body: st.body,
                                    entries: st.entries,
                                    dup: st.dup,
                                },
                            ),
                            Option::None => (st, Option::Some(ScanErr::DupParamDoc)),
                        },
                        Option::None => (st, Option::Some(ScanErr::ParamBlockOnProperty)),
                    },
                    Option::None => (st, Option::Some(ScanErr::StrayParamBlock)),
                }
            }
        } else {
            if st.brief is None {
                spec_scan(
                    paras,
                    i + 1,
                    ScanSt {
                        cur: st.cur,
                        brief: Option::Some(p),
                        body: st.body,
                        entries: st.entries,
                        dup: st.dup,
                    },
                )
            } else {
                spec_scan(
                    paras,
                    i + 1,
                    ScanSt {
                        cur: st.cur,
                        brief: st.brief,
                        body: st.body.push(p),
                        entries: st.entries,
                        dup: st.dup,
                    },
                )
            }
        }
    }
}

/// A duplicate already seen stays seen: the scan never clears the flag.
pub proof fn lemma_scan_dup_mono(paras: Seq<Seq<char>>, i: int, st: ScanSt)
    requires
        0 <= i,
        st.dup,
    ensures
        spec_scan(paras, i, st).0.dup,
    decreases paras.len() - i,
{
    if i >= paras.len() {
    } else {
        let p = paras[i];
        if crate::strutil::spec_starts_with(p, "EXPORT:"@) {
            match crate::parse::spec_export_line(p) {
                Option::Some(e) => {
                    let st1 = spec_save(st);
                    lemma_scan_dup_mono(
                        paras,
                        i + 1,
                        ScanSt {
                            cur: Option::Some(e),
                            brief: st1.brief,
                            body: st1.body,
                            entries: st1.entries,
                            dup: st1.dup,
                        },
                    );
                },
                Option::None => {},
            }
        } else if crate::strutil::spec_starts_with(p, "SIGNAL:"@) {
            match crate::parse::spec_signal_line(p) {
                Option::Some((j, e)) => {
                    let st1 = spec_save(st);
                    let b = crate::strutil::spec_trim_flatten(p, j, p.len() as int);
                    lemma_scan_dup_mono(
                        paras,
                        i + 1,
                        ScanSt {
                            cur: Option::Some(e),
                            brief: Option::Some(b),
                            body: st1.body,
                            entries: st1.entries,
                            dup: st1.dup,
                        },
                    );
                },
                Option::None => {},
            }
        } else if p == "Arguments:"@ {
            if i + 1 >= paras.len() {
            } else {
                let details = crate::parse::spec_detail_lines(paras[i + 1], 0, Seq::empty());
                match st.cur {
                    Option::Some(e) => match e.params {
                        Option::Some((ps, dots)) => match spec_merge(ps, details, 0) {
                            Option::Some((ps2, _)) => {
                                lemma_scan_dup_mono(
                                    paras,
                                    i + 2,
                                    ScanSt {
                                        cur: Option::Some(
                                            EntryView {
                                                path: e.path,
                                                params: Option::Some((ps2, dots)),
                                                ty: e.ty,
                                                doc: e.doc,
                                                children: e.children,
                                            },
                                        ),
                                        brief: st.brief,
                                        body: st.body,
                                        entries: st.entries,
                                        dup: st.dup,
                                    },
                                );
                            },
                            Option::None => {},
                        },
                        Option::None => {},
                    },
                    Option::None => {},
                }
            }
        } else {
            if st.brief is None {
                lemma_scan_dup_mono(
                    paras,
                    i + 1,
                    ScanSt {
                        cur: st.cur,
                        brief: Option::Some(p),
                        body: st.body,
                        entries: st.entries,
                        dup: st.dup,
                    },
                );
            } else {
                lemma_scan_dup_mono(
                    paras,
                    i + 1,
                    ScanSt {
                        cur: st.cur,
                        brief: st.brief,
                        body: st.body.push(p),
                        entries: st.entries,
                        dup: st.dup,
                    },
                );
            }
        }
    }
}

/// The scan state at the start of a comment, over an existing collection.
pub open spec fn init_scan(entries: Seq<EntryView>) -> ScanSt {
    ScanSt {
        cur: Option::None,
        brief: Option::None,
        body: Seq::empty(),
        entries,
        dup: false,
    }
}

/// Replaces the element at `j`, keeping the order of the others.
fn set_param(v: &mut Vec<Parameter>, j: usize, p: Parameter)
    requires
        j < old(v)@.len(),
    ensures
        final(v)@ == old(v)@.update(j as int, p),
{
    v.push(p);
    v.swap_remove(j);
    proof {
        assert(v@ =~= old(v)@.update(j as int, p));
    }
}

/// Clones an optional type.
fn clone_opt_type(t: &Option<Type>) -> (r: Option<Type>)
    ensures
        match r {
            Option::Some(x) => t is Some && x@ == t->Some_0@,
            Option::None => t is None,
        },
{
    match t {
        Option::Some(x) => Option::Some(x.deep_clone()),
        Option::None => Option::None,
    }
}

/// Merges a parsed detail block into the declared parameters, from
/// parameter `k` on. Reports `false` (and leaves the lists in an
/// unspecified state) exactly when the merge is an error.
fn merge_details(params: &mut Vec<Parameter>, details: &mut Vec<Parameter>, k: usize) -> (ok: bool)
    requires
        k <= old(params)@.len(),
    ensures
        match spec_merge(
            old(params)@.map_values(|q: Parameter| q@),
            old(details)@.map_values(|q: Parameter| q@),
            k as int,
        ) {
            Option::Some((ps2, _)) => ok && final(params)@.map_values(|q: Parameter| q@) == ps2,
            Option::None => !ok,
        },
    decreases old(params)@.len() - k,
{
    let ghost psv = params@.map_values(|q: Parameter| q@);
    let ghost dsv = details@.map_values(|q: Parameter| q@);
    if k >= params.len() {
        return true;
    }
    proof {
        crate::parse::lemma_find_name_from(dsv, psv[k as int].name, 0);
    }
    match crate::parse::find_param(details, params[k].name.as_str()) {
        Option::Some(j) => {
            let perr = !params[k].doc.as_str().is_empty() || (params[k].ty.is_some()
                && details[j].ty.is_some());
            if perr {
                return false;
            }
            let p2 = Parameter {
                name: params[k].name.clone(),
                ty: if params[k].ty.is_some() {
                    clone_opt_type(&params[k].ty)
                } else {
                    clone_opt_type(&details[j].ty)
                },
                doc: details[j].doc.clone(),
            };
            let d2 = Parameter {
                name: details[j].name.clone(),
                ty: Option::None,
                doc: String::new(),
            };
            let ghost p2v = p2@;
            let ghost d2v = d2@;
            set_param(params, k, p2);
            set_param(details, j, d2);
            proof {
                assert(params@.map_values(|q: Parameter| q@) =~= psv.update(k as int, p2v));
                assert(details@.map_values(|q: Parameter| q@) =~= dsv.update(j as int, d2v));
            }
            merge_details(params, details, k + 1)
        },
        Option::None => merge_details(params, details, k + 1),
    }
}

impl Docs {
    /// Saves the entry being built, attaching the pending brief and body as
    /// its documentation; clears them when it does.
    fn save_state(
        &mut self,
        cur: Option<Entry>,
        brief: &mut Option<String>,
        body: &mut Vec<String>,
    ) -> (dup: bool)
        requires
            old(self).wf(),
            match cur {
                Option::Some(e) => e@.children.len() == 0,
                Option::None => true,
            },
        ensures
            final(self).wf(),
            final(self).types@ == old(self).types@,
            ({
                let st1 = spec_save(
                    ScanSt {
                        cur: opt_entry_view(cur),
                        brief: opt_string_view(*old(brief)),
                        body: crate::strutil::views_of(old(body)@),
                        entries: old(self).entries_v(),
                        dup: false,
                    },
                );
                &&& final(self).entries_v() == st1.entries
                &&& opt_string_view(*final(brief)) == st1.brief
                &&& crate::strutil::views_of(final(body)@) == st1.body
                &&& dup == st1.dup
            }),
            final(self).has_error == (old(self).has_error || dup),
    {
        match cur {
            Option::None => false,
            Option::Some(mut e) => {
                let mut b: Option<String> = Option::None;
                core::mem::swap(&mut b, brief);
                let mut bd: Vec<String> = Vec::new();
                core::mem::swap(&mut bd, body);
                e.doc = match b {
                    Option::Some(bb) => Option::Some(Doc { brief: bb, body: bd }),
                    Option::None => Option::None,
                };
                proof {
                    assert(crate::strutil::views_of(body@) =~= Seq::<Seq<char>>::empty());
                }
                self.insert_entry(e)
            },
        }
    }
}

impl Docs {
    /// The scan over one comment's paragraphs from paragraph `i` on, with
    /// the running state passed in; mirrors `spec_scan` step by step.
    fn scan_from(
        &mut self,
        paras: &Vec<String>,
        i: usize,
        cur: Option<Entry>,
        brief: Option<String>,
        body: Vec<String>,
        Ghost(dupg): Ghost<bool>,
    ) -> (r: Option<ScanErr>)
        requires
            old(self).wf(),
            i <= paras@.len(),
            dupg ==> old(self).has_error,
            match cur {
                Option::Some(e) => e@.children.len() == 0,
                Option::None => true,
            },
        ensures
            final(self).wf(),
            final(self).types@ == old(self).types@,
            ({
                let (st, err) = spec_scan(
                    crate::strutil::views_of(paras@),
                    i as int,
                    ScanSt {
                        cur: opt_entry_view(cur),
                        brief: opt_string_view(brief),
                        body: crate::strutil::views_of(body@),
                        entries: old(self).entries_v(),
                        dup: dupg,
                    },
                );
                &&& final(self).entries_v() == st.entries
                &&& final(self).has_error == (old(self).has_error || st.dup || err is Some)
                &&& r == err
            }),
        decreases paras@.len() - i,
    {
        let ghost pv = crate::strutil::views_of(paras@);
        let mut brief = brief;
        let mut body = body;
        if i >= paras.len() {
            let _ = self.save_state(cur, &mut brief, &mut body);
            return Option::None;
        }
        proof {
            assert(pv[i as int] == paras@[i as int]@);
        }
        let pc = crate::strutil::chars_of(paras[i].as_str());
        if crate::strutil::chars_start_with(&pc, "EXPORT:") {
            match crate::parse::parse_export_line(&pc) {
                Option::Some(e) => {
                    let dup = self.save_state(cur, &mut brief, &mut body);
                    let ghost g2: bool = dupg || dup;
                    let ghost stn = ScanSt {
                        cur: Option::Some(e@),
                        brief: opt_string_view(brief),
                        body: crate::strutil::views_of(body@),
                        entries: self.entries_v(),
                        dup: g2,
                    };
                    let r = self.scan_from(paras, i + 1, Option::Some(e), brief, body, Ghost(g2));
                    proof {
                        if dup {
                            lemma_scan_dup_mono(pv, i as int + 1, stn);
                        }
                    }
                    r
                },
                Option::None => {
                    self.has_error = true;
                    Option::Some(ScanErr::InvalidExport)
                },
            }
        } else if crate::strutil::chars_start_with(&pc, "SIGNAL:") {
            match crate::parse::parse_signal_line(&pc) {
                Option::Some((j, e)) => {
                    let dup = self.save_state(cur, &mut brief, &mut body);
                    let ghost g2: bool = dupg || dup;
                    let b2 = crate::strutil::trim_flatten(&pc, j, pc.len());
                    let ghost stn = ScanSt {
                        cur: Option::Some(e@),
                        brief: Option::Some(b2@),
                        body: crate::strutil::views_of(body@),
                        entries: self.entries_v(),
                        dup: g2,
                    };
                    let r = self.scan_from(
                        paras,
                        i + 1,
                        Option::Some(e),
                        Option::Some(b2),
                        body,
                        Ghost(g2),
                    );
                    proof {
                        if dup {
                            lemma_scan_dup_mono(pv, i as int + 1, stn);
                        }
                    }
                    r
                },
                Option::None => {
                    self.has_error = true;
                    Option::Some(ScanErr::InvalidSignal)
                },
            }
        } else if crate::strutil::str_eq(paras[i].as_str(), "Arguments:") {
            if i + 1 >= paras.len() {
                self.has_error = true;
                return Option::Some(ScanErr::MissingParamBlock);
            }
            proof {
                assert(pv[i as int + 1] == paras@[i as int + 1]@);
            }
            let dc = crate::strutil::chars_of(paras[i + 1].as_str());
            let mut details = crate::parse::parse_detail_lines(&dc);
            match cur {
                Option::Some(mut e) => {
                    let mut on_property = false;
                    let mut merge_failed = false;
                    match &mut e.params {
                        Option::Some(pair) => {
                            let ok = merge_details(&mut pair.0, &mut details, 0);
                            if !ok {
                                merge_failed = true;
                            }
                        },
                        Option::None => {
                            on_property = true;
                        },
                    }
                    if on_property {
                        self.has_error = true;
                        return Option::Some(ScanErr::ParamBlockOnProperty);
                    }
                    if merge_failed {
                        self.has_error = true;
                        return Option::Some(ScanErr::DupParamDoc);
                    }
                    self.scan_from(paras, i + 2, Option::Some(e), brief, body, Ghost(dupg))
                },
                Option::None => {
                    self.has_error = true;
                    Option::Some(ScanErr::StrayParamBlock)
                },
            }
        } else {
            if brief.is_none() {
                self.scan_from(
                    paras,
                    i + 1,
                    cur,
                    Option::Some(paras[i].clone()),
                    body,
                    Ghost(dupg),
                )
            } else {
                let ghost bodyv = crate::strutil::views_of(body@);
                body.push(paras[i].clone());
                proof {
                    assert(crate::strutil::views_of(body@) =~= bodyv.push(paras@[i as int]@));
                }
                self.scan_from(paras, i + 1, cur, brief, body, Ghost(dupg))
            }
        }
    }

    /// Scans one comment's paragraph sequence: each `EXPORT:`/`SIGNAL:` line
    /// closes the entry being built and opens the next, `Arguments:` merges
    /// the following parameter-detail block into the current declaration,
    /// free text becomes brief and body. A directive line that fails to
    /// parse, a detail block out of context (on a property, or with no
    /// declaration in progress), doubled parameter documentation and a
    /// duplicated access all set the process-wide error flag; everything
    /// saved up to that point is kept.
    pub fn handle_comment(&mut self, paras: &Vec<String>)
        requires
            old(self).wf(),
        ensures
            final(self).wf(),
            final(self).types@ == old(self).types@,
            ({
                let (st, err) = spec_scan(
                    crate::strutil::views_of(paras@),
                    0,
                    init_scan(old(self).entries_v()),
                );
                &&& final(self).entries_v() == st.entries
                &&& final(self).has_error == (old(self).has_error || st.dup || err is Some)
            }),
    {
        let _ = self.scan_from(paras, 0, Option::None, Option::None, Vec::new(), Ghost(false));
        proof {
            assert(crate::strutil::views_of(Seq::<String>::empty()) =~= Seq::<Seq<char>>::empty());
        }
    }

    /// Like `handle_comment`, and additionally hands back what stopped the
    /// scan, so a caller can say which error a comment ran into. The
    /// process-wide flag is set just the same.
    pub fn handle_comment_inner(&mut self, paras: &Vec<String>) -> (r: Result<(), ScanErr>)
        requires
            old(self).wf(),
        ensures
            final(self).wf(),
            final(self).types@ == old(self).types@,
            ({
                let (st, err) = spec_scan(
                    crate::strutil::views_of(paras@),
                    0,
                    init_scan(old(self).entries_v()),
                );
                &&& final(self).entries_v() == st.entries
                &&& final(self).has_error == (old(self).has_error || st.dup || err is Some)
                &&& match r {
                    Result::Ok(u) => err is None,
                    Result::Err(k) => err == Option::Some(k),
                }
            }),
    {
        let r = self.scan_from(paras, 0, Option::None, Option::None, Vec::new(), Ghost(false));
        proof {
            assert(crate::strutil::views_of(Seq::<String>::empty()) =~= Seq::<Seq<char>>::empty());
        }
        match r {
            Option::Some(k) => Result::Err(k),
            Option::None => Result::Ok(()),
        }
    }
}

/// Sortedness of the type collection after one sorted insert.
proof fn lemma_sorted_after_insert_type(
    s: Seq<(TypeView, TypeEntryView)>,
    c: (TypeView, TypeEntryView),
    j: int,
    x: int,
    y: int,
)
    requires
        types_sorted(s),
        j == type_pos_from(s, c.0, 0),
        !(j < s.len() && s[j].0 == c.0),
        0 <= x < y < s.insert(j, c).len(),
    ensures
        type_lt(s.insert(j, c)[x].0, s.insert(j, c)[y].0),
{
    lemma_type_pos_from(s, c.0, 0);
    let s2 = s.insert(j, c);
    if x == j {
        let m = y - 1;
        assert(s2[y] == s[m]);
        lemma_type_lt_total(s[j].0, c.0);
        if m > j {
            lemma_type_lt_trans(c.0, s[j].0, s[m].0);
        }
    } else if y == j {
        assert(s2[x] == s[x]);
    } else {
        let mx = if x < j {
            x
        } else {
            x - 1
        };
        let my = if y < j {
            y
        } else {
            y - 1
        };
        assert(s2[x] == s[mx]);
        assert(s2[y] == s[my]);
        if x < j && y > j {
            if my == j {
                lemma_type_lt_total(s[j].0, c.0);
            } else {
                lemma_type_lt_total(s[j].0, c.0);
                lemma_type_lt_trans(c.0, s[j].0, s[my].0);
                lemma_type_lt_trans(s[mx].0, c.0, s[my].0);
            }
        }
    }
}

/// Fetch-or-create: the index of `key` in the sorted type collection, a new
/// empty node inserted at its sorted position when the key is new.
fn ensure_type(types: &mut Vec<(Type, TypeEntry)>, key: &Type, Ghost(n): Ghost<int>) -> (idx:
    usize)
    requires
        types_sorted(types_view(old(types)@)),
        forall|i: int|
            0 <= i < old(types)@.len() ==> type_entry_ok(
                #[trigger] types_view(old(types)@)[i],
                n,
            ),
        key@ is Base,
    ensures
        ({
            let r = types_ensure(types_view(old(types)@), key@);
            &&& types_view(final(types)@) == r.0
            &&& idx as int == r.1
        }),
        types_sorted(types_view(final(types)@)),
        forall|i: int|
            0 <= i < final(types)@.len() ==> type_entry_ok(
                #[trigger] types_view(final(types)@)[i],
                n,
            ),
        idx < final(types)@.len(),
        types_view(final(types)@)[idx as int].0 == key@,
{
    let ghost s = types_view(types@);
    proof {
        lemma_type_pos_from(s, key@, 0);
    }
    let j = type_lower_bound(types, key, 0);
    let ghost jj = j as int;
    if j < types.len() {
        match cmp_type(&types[j].0, key) {
            Rel::Equal => {
                return j;
            },
            _ => {},
        }
    }
    let te = TypeEntry::new();
    let ghost tev = te@;
    proof {
        assert(tev.references =~= Seq::<AccessView>::empty());
        assert(tev.children =~= Seq::<(Seq<char>, int)>::empty());
        assert(tev.doc.brief =~= Seq::<char>::empty());
        assert(tev.doc.body =~= Seq::<Seq<char>>::empty());
        assert(tev == empty_type_entry());
    }
    types.insert(j, (key.deep_clone(), te));
    proof {
        let s2 = types_view(types@);
        assert(s2 =~= s.insert(jj, (key@, empty_type_entry())));
        assert forall|x: int, y: int| 0 <= x < y < s2.len() implies type_lt(
            (#[trigger] s2[x]).0,
            (#[trigger] s2[y]).0,
        ) by {
            lemma_sorted_after_insert_type(s, (key@, empty_type_entry()), jj, x, y);
        }
        assert forall|i: int| 0 <= i < s2.len() implies type_entry_ok(#[trigger] s2[i], n) by {
            if i < jj {
                assert(s2[i] == s[i]);
            } else if i > jj {
                assert(s2[i] == s[i - 1]);
            }
        }
    }
    j
}

/// The state of the scan over a type-binding comment's paragraphs.
pub struct TScan {
    pub ty: Option<TypeView>,
    pub brief: Option<Seq<char>>,
    pub body: Seq<Seq<char>>,
    pub multi: bool,
}

/// The scan of a type-binding comment from paragraph `i` on: a parseable
/// `TYPE:` line binds the comment to that type (a second one raises the
/// multiple-binding flag but scanning goes on), an unparseable one stops
/// the scan, free text accumulates as brief and body.
pub open spec fn spec_type_scan(paras: Seq<Seq<char>>, i: int, st: TScan) -> Option<TScan>
    decreases paras.len() - i,
    when 0 <= i
{
    if i >= paras.len() {
        Option::Some(st)
    } else {
        let p = paras[i];
        if crate::strutil::spec_starts_with(p, "TYPE:"@) {
            match crate::parse::spec_type_line(p) {
                Option::Some(t) => {
                    if st.ty is None {
                        spec_type_scan(
                            paras,
                            i + 1,
                            TScan { ty: Option::Some(t), brief: st.brief, body: st.body, multi: st.multi },
                        )
                    } else {
                        spec_type_scan(
                            paras,
                            i + 1,
                            TScan { ty: st.ty, brief: st.brief, body: st.body, multi: true },
                        )
                    }
                },
                Option::None => Option::None,
            }
        } else {
            if st.brief is None {
                spec_type_scan(
                    paras,
                    i + 1,
                    TScan { ty: st.ty, brief: Option::Some(p), body: st.body, multi: st.multi },
                )
            } else {
                spec_type_scan(
                    paras,
                    i + 1,
                    TScan { ty: st.ty, brief: st.brief, body: st.body.push(p), multi: st.multi },
                )
            }
        }
    }
}

/// The scan state at the start of a type-binding comment.
pub open spec fn init_tscan() -> TScan {
    TScan { ty: Option::None, brief: Option::None, body: Seq::empty(), multi: false }
}

impl Docs {
    /// Scans a type-binding comment: a `TYPE:` line names the type the
    /// comment documents, and the comment's brief replaces (while its body
    /// extends) the documentation of that type's node, created on demand.
    /// An unparseable `TYPE:` line abandons the comment with the error flag
    /// set; more than one binding in a comment sets the flag but the first
    /// binding is kept. Hands back the index of the type's node.
    pub fn handle_type_comment(&mut self, paras: &Vec<String>) -> (r: Option<usize>)
        requires
            old(self).wf(),
        ensures
            final(self).wf(),
            final(self).entries@ == old(self).entries@,
            ({
                let sc = spec_type_scan(crate::strutil::views_of(paras@), 0, init_tscan());
                match sc {
                    Option::None => {
                        &&& final(self).types_v() == old(self).types_v()
                        &&& final(self).has_error
                        &&& r is None
                    },
                    Option::Some(ts) => match ts.ty {
                        Option::None => {
                            &&& final(self).types_v() == old(self).types_v()
                            &&& final(self).has_error == (old(self).has_error || ts.multi)
                            &&& r is None
                        },
                        Option::Some(t) => ({
                            let e2 = types_ensure(old(self).types_v(), t);
                            let te = e2.0[e2.1].1;
                            let te2 = TypeEntryView {
                                references: te.references,
                                children: te.children,
                                ancestor: te.ancestor,
                                doc: DocView {
                                    brief: match ts.brief {
                                        Option::Some(b) => b,
                                        Option::None => Seq::empty(),
                                    },
                                    body: te.doc.body + ts.body,
                                },
                            };
                            &&& final(self).types_v() == e2.0.update(e2.1, (t, te2))
                            &&& final(self).has_error == (old(self).has_error || ts.multi)
                            &&& r matches Option::Some(ix) && ix as int == e2.1
                        }),
                    },
                }
            }),
    {
        let ghost pv = crate::strutil::views_of(paras@);
        let mut brief: Option<String> = Option::None;
        let mut body: Vec<String> = Vec::new();
        let mut tentry: Option<Type> = Option::None;
        let mut multi = false;
        let mut i: usize = 0;
        proof {
            assert(crate::strutil::views_of(body@) =~= Seq::<Seq<char>>::empty());
        }
        loop
            invariant
                old(self).wf(),
                i <= paras@.len(),
                self == old(self),
                spec_type_scan(pv, 0, init_tscan()) == spec_type_scan(
                    pv,
                    i as int,
                    TScan {
                        ty: match tentry {
                            Option::Some(t) => Option::Some(t@),
                            Option::None => Option::None,
                        },
                        brief: opt_string_view(brief),
                        body: crate::strutil::views_of(body@),
                        multi,
                    },
                ),
                pv == crate::strutil::views_of(paras@),
                match tentry {
                    Option::Some(t) => t@ is Base,
                    Option::None => true,
                },
            ensures
                ({
                    let sc = spec_type_scan(pv, 0, init_tscan());
                    match sc {
                        Option::None => false,
                        Option::Some(ts) => {
                            &&& ts.ty == (match tentry {
                                Option::Some(t) => Option::Some(t@),
                                Option::None => Option::<TypeView>::None,
                            })
                            &&& ts.brief == opt_string_view(brief)
                            &&& ts.body == crate::strutil::views_of(body@)
                            &&& ts.multi == multi
                        },
                    }
                }),
                self == old(self),
                match tentry {
                    Option::Some(t) => t@ is Base,
                    Option::None => true,
                },
            decreases paras@.len() - i,
        {
            if i >= paras.len() {
                break ;
            }
            proof {
                assert(pv[i as int] == paras@[i as int]@);
            }
            let pc = crate::strutil::chars_of(paras[i].as_str());
            if crate::strutil::chars_start_with(&pc, "TYPE:") {
                match crate::parse::parse_type_line(&pc) {
                    Option::Some(t) => {
                        if tentry.is_none() {
                            tentry = Option::Some(t);
                        } else {
                            multi = true;
                        }
                    },
                    Option::None => {
                        self.has_error = true;
                        return Option::None;
                    },
                }
            } else {
                if brief.is_none() {
                    brief = Option::Some(paras[i].clone());
                } else {
                    let ghost bodyv = crate::strutil::views_of(body@);
                    body.push(paras[i].clone());
                    proof {
                        assert(crate::strutil::views_of(body@) =~= bodyv.push(paras@[i as int]@));
                    }
                }
            }
            i = i + 1;
        }
        if multi {
            self.has_error = true;
        }
        match tentry {
            Option::None => Option::None,
            Option::Some(t) => {
                let ghost oldtv = self.types_v();
                let ghost briefv = opt_string_view(brief);
                let ghost bodyv = crate::strutil::views_of(body@);
                let bghost = Ghost(self.entries_v().len() as int);
                let idx = ensure_type(&mut self.types, &t, bghost);
                let ghost s2 = types_view(self.types@);
                let p = vstd::std_specs::vec::vec_index_mut(&mut self.types, idx);
                p.1.doc.brief = match brief {
                    Option::Some(b) => b,
                    Option::None => String::new(),
                };
                p.1.doc.body.append(&mut body);
                proof {
                    let sfin = types_view(self.types@);
                    let te = s2[idx as int].1;
                    let te2 = TypeEntryView {
                        references: te.references,
                        children: te.children,
                        ancestor: te.ancestor,
                        doc: DocView {
                            brief: match briefv {
                                Option::Some(b) => b,
                                Option::None => Seq::empty(),
                            },
                            body: te.doc.body + bodyv,
                        },
                    };
                    assert(crate::strutil::views_of(p.1.doc.body@) =~= te.doc.body + bodyv);
                    assert(match briefv {
                        Option::Some(b) => p.1.doc.brief@ == b,
                        Option::None => p.1.doc.brief@ =~= Seq::<char>::empty(),
                    });
                    assert(p.1@ == te2);
                    assert(sfin =~= s2.update(idx as int, (s2[idx as int].0, te2)));
                    assert forall|x: int, y: int| 0 <= x < y < sfin.len() implies type_lt(
                        (#[trigger] sfin[x]).0,
                        (#[trigger] sfin[y]).0,
                    ) by {
                        assert(sfin[x].0 == s2[x].0);
                        assert(sfin[y].0 == s2[y].0);
                    }
                    assert forall|ii: int| 0 <= ii < sfin.len() implies type_entry_ok(
                        #[trigger] sfin[ii],
                        self.entries_v().len() as int,
                    ) by {
                        if ii != idx as int {
                            assert(sfin[ii] == s2[ii]);
                        }
                    }
                }
                Option::Some(idx)
            },
        }
    }
}

/// Bounds of a child mapping after an insert: every index is the new one or
/// one already present.
proof fn lemma_children_insert_bounds(ch: Seq<(Seq<char>, int)>, name: Seq<char>, idx: int, n: int)
    requires
        forall|q: int| 0 <= q < ch.len() ==> 0 <= (#[trigger] ch[q]).1 < n,
        0 <= idx < n,
    ensures
        forall|q: int|
            0 <= q < children_insert(ch, name, idx).0.len() ==> 0 <= (#[trigger] children_insert(
                ch,
                name,
                idx,
            ).0[q]).1 < n,
{
    lemma_child_pos_from(ch, name, 0);
    let j = child_pos_from(ch, name, 0);
    let r = children_insert(ch, name, idx).0;
    if j < ch.len() && ch[j].0 == name {
        assert forall|q: int| 0 <= q < r.len() implies 0 <= (#[trigger] r[q]).1 < n by {
            if q != j {
                assert(r[q] == ch[q]);
            }
        }
    } else {
        assert forall|q: int| 0 <= q < r.len() implies 0 <= (#[trigger] r[q]).1 < n by {
            if q < j {
                assert(r[q] == ch[q]);
            } else if q > j {
                assert(r[q] == ch[q - 1]);
            } else {
                assert(r[q] == (name, idx));
            }
        }
    }
}

/// A raw text line with one leading space stripped.
pub open spec fn spec_clean_line(l: Seq<char>) -> Seq<char> {
    if l.len() > 0 && l[0] == ' ' {
        l.drop_first()
    } else {
        l
    }
}

/// The cleaned, non-empty text lines of one raw paragraph, from line `i` on.
pub open spec fn spec_clean_lines(ls: Seq<Seq<char>>, i: int) -> Seq<Seq<char>>
    decreases ls.len() - i,
{
    if !(0 <= i < ls.len()) {
        Seq::empty()
    } else {
        let c = spec_clean_line(ls[i]);
        (if c.len() == 0 {
            Seq::empty()
        } else {
            seq![c]
        }) + spec_clean_lines(ls, i + 1)
    }
}

/// One raw paragraph turned into text: its cleaned lines joined with line
/// breaks.
pub open spec fn spec_collect_paragraph(lines: Seq<Seq<char>>) -> Seq<char> {
    crate::strutil::spec_join(spec_clean_lines(lines, 0), "\n"@)
}

/// The cleaned lines of one raw paragraph, from line `i` on.
fn clean_lines(lines: &Vec<String>, i: usize) -> (out: Vec<String>)
    requires
        i <= lines@.len(),
    ensures
        crate::strutil::views_of(out@) == spec_clean_lines(
            crate::strutil::views_of(lines@),
            i as int,
        ),
    decreases lines@.len() - i,
{
    let ghost lv = crate::strutil::views_of(lines@);
    if i >= lines.len() {
        let out: Vec<String> = Vec::new();
        proof {
            assert(crate::strutil::views_of(out@) =~= Seq::<Seq<char>>::empty());
        }
        return out;
    }
    let s = lines[i].as_str();
    let n = s.unicode_len();
    let cleaned = if n > 0 && s.get_char(0) == ' ' {
        let r = <str as StrSliceExecFns>::substring_char(s, 1, n).to_owned();
        proof {
            assert(r@ =~= spec_clean_line(lv[i as int]));
        }
        r
    } else {
        let r = lines[i].clone();
        proof {
            assert(r@ == spec_clean_line(lv[i as int]));
        }
        r
    };
    let mut rest = clean_lines(lines, i + 1);
    if cleaned.as_str().is_empty() {
        proof {
            assert(crate::strutil::views_of(rest@) =~= Seq::<Seq<char>>::empty()
                + spec_clean_lines(lv, i as int + 1));
        }
        rest
    } else {
        let ghost cv = cleaned@;
        rest.insert(0, cleaned);
        proof {
            assert(crate::strutil::views_of(rest@) =~= seq![cv] + spec_clean_lines(
                lv,
                i as int + 1,
            ));
        }
        rest
    }
}

impl Docs {
    /// Turns raw comment text, already split into paragraphs of lines, into
    /// paragraph strings: one leading space stripped from each line, empty
    /// lines dropped, the rest joined with line breaks.
    pub fn collect_paragraphs(paras: &Vec<Vec<String>>) -> (out: Vec<String>)
        ensures
            out@.len() == paras@.len(),
            forall|i: int|
                0 <= i < out@.len() ==> (#[trigger] out@[i])@ == spec_collect_paragraph(
                    crate::strutil::views_of(paras@[i]@),
                ),
    {
        let mut out: Vec<String> = Vec::new();
        let mut i: usize = 0;
        while i < paras.len()
            invariant
                i <= paras@.len(),
                out@.len() == i,
                forall|q: int|
                    0 <= q < i ==> (#[trigger] out@[q])@ == spec_collect_paragraph(
                        crate::strutil::views_of(paras@[q]@),
                    ),
            decreases paras@.len() - i,
        {
            let cleaned = clean_lines(&paras[i], 0);
            out.push(crate::strutil::join_strings(&cleaned, "\n"));
            i = i + 1;
        }
        out
    }
}

/// The index of `key` in the sorted entry collection, or `-1`.
pub open spec fn entry_find(s: Seq<EntryView>, key: AccessView) -> int {
    let j = entry_pos_from(s, key, 0);
    if j < s.len() && s[j].path == key {
        j
    } else {
        -1
    }
}

/// The index of `key` in the sorted type collection, or `-1`.
pub open spec fn type_find(s: Seq<(TypeView, TypeEntryView)>, key: TypeView) -> int {
    let j = type_pos_from(s, key, 0);
    if j < s.len() && s[j].0 == key {
        j
    } else {
        -1
    }
}

/// The first build pass on one signal's parameters, from parameter `m` on:
/// each declared parameter type contributes the signal's access to the
/// reference set of the type's node, created on demand.
pub open spec fn pass1_params(
    types: Seq<(TypeView, TypeEntryView)>,
    key: AccessView,
    ps: Seq<ParameterView>,
    m: int,
) -> Seq<(TypeView, TypeEntryView)>
    decreases ps.len() - m,
{
    if !(0 <= m < ps.len()) {
        types
    } else {
        match ps[m].ty {
            Option::Some(t) => {
                let bt = crate::ty::spec_base_type(t);
                let r = types_ensure(types, bt);
                let te = r.0[r.1].1;
                let te1 = TypeEntryView {
                    references: refs_insert(te.references, key),
                    children: te.children,
                    ancestor: te.ancestor,
                    doc: te.doc,
                };
                pass1_params(r.0.update(r.1, (bt, te1)), key, ps, m + 1)
            },
            Option::None => pass1_params(types, key, ps, m + 1),
        }
    }
}

/// The first build pass on one entry: an entry with a declared type adds
/// its access to the reference set of the base type's node (a no-parameter
/// ancestry entry also becomes that node's ancestor); a signal indexes its
/// parameter types instead.
pub open spec fn pass1_entry(
    types: Seq<(TypeView, TypeEntryView)>,
    e: EntryView,
) -> Seq<(TypeView, TypeEntryView)> {
    match e.ty {
        Option::Some(t) => {
            let bt = crate::ty::spec_base_type(t);
            let r = types_ensure(types, bt);
            let te = r.0[r.1].1;
            let te1 = TypeEntryView {
                references: refs_insert(te.references, e.path),
                children: te.children,
                ancestor: if e.path is Ancestry && e.params is None {
                    Option::Some(e.path)
                } else {
                    te.ancestor
                },
                doc: te.doc,
            };
            r.0.update(r.1, (bt, te1))
        },
        Option::None => match e.params {
            Option::Some((ps, _)) => pass1_params(types, e.path, ps, 0),
            Option::None => types,
        },
    }
}

/// The first build pass from entry `k` on.
pub open spec fn spec_pass1(
    entries: Seq<EntryView>,
    types: Seq<(TypeView, TypeEntryView)>,
    k: int,
) -> Seq<(TypeView, TypeEntryView)>
    decreases entries.len() - k,
{
    if !(0 <= k < entries.len()) {
        types
    } else {
        spec_pass1(entries, pass1_entry(types, entries[k]), k + 1)
    }
}

/// The second build pass from entry `k` on: each entry hangs below its
/// parent node under its base name. A parent that cannot be resolved and a
/// name already taken are graph errors; both leave the rest of the pass
/// untouched.
pub open spec fn spec_pass2(
    entries: Seq<EntryView>,
    types: Seq<(TypeView, TypeEntryView)>,
    k: int,
    err: bool,
) -> (Seq<EntryView>, Seq<(TypeView, TypeEntryView)>, bool)
    decreases entries.len() - k,
{
    if !(0 <= k < entries.len()) {
        (entries, types, err)
    } else {
        let e = entries[k];
        match crate::access::spec_parent(e.path) {
            Option::None => spec_pass2(entries, types, k + 1, err),
            Option::Some(crate::access::AccessOrTypeView::Access(a)) => {
                let j = entry_find(entries, a);
                if j >= 0 {
                    let r = children_insert(
                        entries[j].children,
                        crate::access::spec_base_name(e.path),
                        k,
                    );
                    let e2 = EntryView {
                        path: entries[j].path,
                        params: entries[j].params,
                        ty: entries[j].ty,
                        doc: entries[j].doc,
                        children: r.0,
                    };
                    spec_pass2(entries.update(j, e2), types, k + 1, err || r.1)
                } else {
                    spec_pass2(entries, types, k + 1, true)
                }
            },
            Option::Some(crate::access::AccessOrTypeView::Type(t)) => {
                let j = type_find(types, t);
                if j >= 0 {
                    let r = children_insert(
                        types[j].1.children,
                        crate::access::spec_base_name(e.path),
                        k,
                    );
                    let te2 = TypeEntryView {
                        references: types[j].1.references,
                        children: r.0,
                        ancestor: types[j].1.ancestor,
                        doc: types[j].1.doc,
                    };
                    spec_pass2(entries, types.update(j, (types[j].0, te2)), k + 1, err || r.1)
                } else {
                    spec_pass2(entries, types, k + 1, true)
                }
            },
        }
    }
}

impl Docs {
    /// The two build passes over the completed collections, in sorted key
    /// order. Pass one indexes every declared type: the base type's node
    /// collects the accesses typed with it, and a no-parameter ancestry
    /// entry becomes its type's ancestor. Pass two links the hierarchy:
    /// each entry hangs below its parent node under its base name, an
    /// unresolved parent or a doubled name surfacing on the error flag.
    pub fn build_tree(&mut self)
        requires
            old(self).wf(),
        ensures
            final(self).wf(),
            ({
                let t1 = spec_pass1(old(self).entries_v(), old(self).types_v(), 0);
                let r = spec_pass2(old(self).entries_v(), t1, 0, false);
                &&& final(self).entries_v() == r.0
                &&& final(self).types_v() == r.1
                &&& final(self).has_error == (old(self).has_error || r.2)
            }),
    {
        let ghost ev0 = self.entries_v();
        let ghost tv0 = self.types_v();
        let ghost n = self.entries_v().len() as int;
        let mut k: usize = 0;
        while k < self.entries.len()
            invariant
                old(self).wf(),
                k <= self.entries@.len(),
                self.entries@ == old(self).entries@,
                self.has_error == old(self).has_error,
                ev0 == old(self).entries_v(),
                tv0 == old(self).types_v(),
                n == ev0.len() as int,
                types_sorted(self.types_v()),
                forall|i: int|
                    0 <= i < self.types_v().len() ==> type_entry_ok(
                        #[trigger] self.types_v()[i],
                        n,
                    ),
                spec_pass1(ev0, tv0, 0) == spec_pass1(ev0, self.types_v(), k as int),
            decreases self.entries@.len() - k,
        {
            let ghost tcur = self.types_v();
            let ghost ek = ev0[k as int];
            let has_ty = self.entries[k].ty.is_some();
            if has_ty {
                let bt = match &self.entries[k].ty {
                    Option::Some(t) => t.base_type().deep_clone(),
                    Option::None => Type::Base { namespace: Option::None, member: String::new() },
                };
                let key = self.entries[k].path.deep_clone();
                let key2 = self.entries[k].path.deep_clone();
                let is_anc = self.entries[k].path.is_ancestry();
                let no_params = self.entries[k].params.is_none();
                let idx = ensure_type(&mut self.types, &bt, Ghost(n));
                let ghost s1 = types_view(self.types@);
                let p = vstd::std_specs::vec::vec_index_mut(&mut self.types, idx);
                refs_insert_exec(&mut p.1.references, key);
                if is_anc && no_params {
                    p.1.ancestor = Option::Some(key2);
                }
                proof {
                    let sfin = types_view(self.types@);
                    let r = types_ensure(tcur, crate::ty::spec_base_type(ek.ty->Some_0));
                    let te = r.0[r.1].1;
                    let te1 = TypeEntryView {
                        references: refs_insert(te.references, ek.path),
                        children: te.children,
                        ancestor: if ek.path is Ancestry && ek.params is None {
                            Option::Some(ek.path)
                        } else {
                            te.ancestor
                        },
                        doc: te.doc,
                    };
                    assert(sfin =~= r.0.update(r.1, (crate::ty::spec_base_type(ek.ty->Some_0), te1)));
                    assert(sfin == pass1_entry(tcur, ek));
                    assert forall|x: int, y: int| 0 <= x < y < sfin.len() implies type_lt(
                        (#[trigger] sfin[x]).0,
                        (#[trigger] sfin[y]).0,
                    ) by {
                        assert(sfin[x].0 == s1[x].0);
                        assert(sfin[y].0 == s1[y].0);
                    }
                    assert forall|i: int| 0 <= i < sfin.len() implies type_entry_ok(
                        #[trigger] sfin[i],
                        n,
                    ) by {
                        if i != idx as int {
                            assert(sfin[i] == s1[i]);
                        }
                    }
                }
            } else {
                let mut m: usize = 0;
                let ghost tecur = self.types_v();
                let nparams = match &self.entries[k].params {
                    Option::Some(pair) => pair.0.len(),
                    Option::None => 0,
                };
                let ghost psv = match ek.params {
                    Option::Some(pr) => pr.0,
                    Option::None => Seq::<ParameterView>::empty(),
                };
                while m < nparams
                    invariant
                        old(self).wf(),
                        self.entries@ == old(self).entries@,
                        self.has_error == old(self).has_error,
                        ev0 == old(self).entries_v(),
                        n == ev0.len() as int,
                        k < ev0.len(),
                        ek == ev0[k as int],
                        ek.ty is None,
                        m <= nparams,
                        match ek.params {
                            Option::Some(pr) => psv == pr.0 && nparams == psv.len(),
                            Option::None => nparams == 0,
                        },
                        types_sorted(self.types_v()),
                        forall|i: int|
                            0 <= i < self.types_v().len() ==> type_entry_ok(
                                #[trigger] self.types_v()[i],
                                n,
                            ),
                        pass1_params(tecur, ek.path, psv, 0) == pass1_params(
                            self.types_v(),
                            ek.path,
                            psv,
                            m as int,
                        ),
                        tecur == tcur,
                    decreases nparams - m,
                {
                    let ghost tstep = self.types_v();
                    let pty = match &self.entries[k].params {
                        Option::Some(pair) => match &pair.0[m].ty {
                            Option::Some(t) => Option::Some(t.base_type().deep_clone()),
                            Option::None => Option::None,
                        },
                        Option::None => Option::None,
                    };
                    match pty {
                        Option::Some(bt) => {
                            let key = self.entries[k].path.deep_clone();
                            let idx = ensure_type(&mut self.types, &bt, Ghost(n));
                            let ghost s1 = types_view(self.types@);
                            let p = vstd::std_specs::vec::vec_index_mut(&mut self.types, idx);
                            refs_insert_exec(&mut p.1.references, key);
                            proof {
                                let sfin = types_view(self.types@);
                                let r = types_ensure(
                                    tstep,
                                    crate::ty::spec_base_type(psv[m as int].ty->Some_0),
                                );
                                let te = r.0[r.1].1;
                                let te1 = TypeEntryView {
                                    references: refs_insert(te.references, ek.path),
                                    children: te.children,
                                    ancestor: te.ancestor,
                                    doc: te.doc,
                                };
                                assert(sfin =~= r.0.update(
                                    r.1,
                                    (crate::ty::spec_base_type(psv[m as int].ty->Some_0), te1),
                                ));
                                assert forall|x: int, y: int|
                                    0 <= x < y < sfin.len() implies type_lt(
                                    (#[trigger] sfin[x]).0,
                                    (#[trigger] sfin[y]).0,
                                ) by {
                                    assert(sfin[x].0 == s1[x].0);
                                    assert(sfin[y].0 == s1[y].0);
                                }
                                assert forall|i: int| 0 <= i < sfin.len() implies type_entry_ok(
                                    #[trigger] sfin[i],
                                    n,
                                ) by {
                                    if i != idx as int {
                                        assert(sfin[i] == s1[i]);
                                    }
                                }
                            }
                        },
                        Option::None => {},
                    }
                    m = m + 1;
                }
                proof {
                    assert(self.types_v() == pass1_entry(tcur, ek));
                }
            }
            k = k + 1;
        }
        proof {
            assert(spec_pass1(ev0, tv0, 0) == self.types_v());
        }
        let ghost t1 = self.types_v();
        let mut err_acc = false;
        let mut k2: usize = 0;
        while k2 < self.entries.len()
            invariant
                old(self).wf(),
                k2 <= self.entries@.len(),
                self.entries@.len() == ev0.len(),
                self.has_error == old(self).has_error,
                ev0 == old(self).entries_v(),
                n == ev0.len() as int,
                forall|i: int|
                    0 <= i < self.entries_v().len() ==> (#[trigger] self.entries_v()[i]).path
                        == ev0[i].path,
                entries_sorted(self.entries_v()),
                types_sorted(self.types_v()),
                forall|i: int|
                    0 <= i < self.entries_v().len() ==> entry_ok(
                        #[trigger] self.entries_v()[i],
                        n,
                    ),
                forall|i: int|
                    0 <= i < self.types_v().len() ==> type_entry_ok(
                        #[trigger] self.types_v()[i],
                        n,
                    ),
                spec_pass2(ev0, t1, 0, false) == spec_pass2(
                    self.entries_v(),
                    self.types_v(),
                    k2 as int,
                    err_acc,
                ),
            decreases self.entries@.len() - k2,
        {
            let ghost ecur = self.entries_v();
            let ghost tcur = self.types_v();
            let ghost ek = self.entries_v()[k2 as int];
            let mut parent_acc: Option<Access> = Option::None;
            let mut parent_ty: Option<Type> = Option::None;
            match self.entries[k2].path.parent() {
                Option::None => {},
                Option::Some(crate::access::AccessOrType::Access(a)) => {
                    parent_acc = Option::Some(a);
                },
                Option::Some(crate::access::AccessOrType::Type(t)) => {
                    parent_ty = Option::Some(t.deep_clone());
                },
            }
            let name = <String as vstd::string::StringExecFns>::from_str(self.entries[k2].path.base_name());
            match parent_acc {
                Option::Some(a) => {
                    let j = entry_lower_bound(&self.entries, &a, 0);
                    let mut found = false;
                    if j < self.entries.len() {
                        match cmp_access(&self.entries[j].path, &a) {
                            Rel::Equal => {
                                found = true;
                            },
                            _ => {},
                        }
                    }
                    if found {
                        let p = vstd::std_specs::vec::vec_index_mut(&mut self.entries, j);
                        let dup = children_insert_exec(&mut p.children, name, k2);
                        err_acc = err_acc || dup;
                        proof {
                            let efin = self.entries_v();
                            let r = children_insert(
                                ecur[j as int].children,
                                crate::access::spec_base_name(ek.path),
                                k2 as int,
                            );
                            let e2 = EntryView {
                                path: ecur[j as int].path,
                                params: ecur[j as int].params,
                                ty: ecur[j as int].ty,
                                doc: ecur[j as int].doc,
                                children: r.0,
                            };
                            assert(efin =~= ecur.update(j as int, e2));
                            assert forall|i: int|
                                0 <= i < efin.len() implies (#[trigger] efin[i]).path
                                == ev0[i].path by {
                                if i != j as int {
                                    assert(efin[i] == ecur[i]);
                                }
                            }
                            assert forall|x: int, y: int|
                                0 <= x < y < efin.len() implies access_lt(
                                (#[trigger] efin[x]).path,
                                (#[trigger] efin[y]).path,
                            ) by {
                                assert(efin[x].path == ecur[x].path);
                                assert(efin[y].path == ecur[y].path);
                            }
                            assert forall|i: int| 0 <= i < efin.len() implies entry_ok(
                                #[trigger] efin[i],
                                n,
                            ) by {
                                if i != j as int {
                                    assert(efin[i] == ecur[i]);
                                } else {
                                    assert(entry_ok(ecur[j as int], n));
                                    lemma_children_insert_bounds(
                                        ecur[j as int].children,
                                        crate::access::spec_base_name(ek.path),
                                        k2 as int,
                                        n,
                                    );
                                }
                            }
                        }
                    } else {
                        err_acc = true;
                    }
                },
                Option::None => {
                    match parent_ty {
                        Option::Some(t) => {
                            let j = type_lower_bound(&self.types, &t, 0);
                            let mut found = false;
                            if j < self.types.len() {
                                match cmp_type(&self.types[j].0, &t) {
                                    Rel::Equal => {
                                        found = true;
                                    },
                                    _ => {},
                                }
                            }
                            if found {
                                let p = vstd::std_specs::vec::vec_index_mut(&mut self.types, j);
                                let dup = children_insert_exec(&mut p.1.children, name, k2);
                                err_acc = err_acc || dup;
                                proof {
                                    let tfin = self.types_v();
                                    let r = children_insert(
                                        tcur[j as int].1.children,
                                        crate::access::spec_base_name(ek.path),
                                        k2 as int,
                                    );
                                    let te2 = TypeEntryView {
                                        references: tcur[j as int].1.references,
                                        children: r.0,
                                        ancestor: tcur[j as int].1.ancestor,
                                        doc: tcur[j as int].1.doc,
                                    };
                                    assert(tfin =~= tcur.update(
                                        j as int,
                                        (tcur[j as int].0, te2),
                                    ));
                                    assert forall|x: int, y: int|
                                        0 <= x < y < tfin.len() implies type_lt(
                                        (#[trigger] tfin[x]).0,
                                        (#[trigger] tfin[y]).0,
                                    ) by {
                                        assert(tfin[x].0 == tcur[x].0);
                                        assert(tfin[y].0 == tcur[y].0);
                                    }
                                    assert forall|i: int|
                                        0 <= i < tfin.len() implies type_entry_ok(
                                        #[trigger] tfin[i],
                                        n,
                                    ) by {
                                        if i != j as int {
                                            assert(tfin[i] == tcur[i]);
                                        } else {
                                            assert(type_entry_ok(tcur[j as int], n));
                                            lemma_children_insert_bounds(
                                                tcur[j as int].1.children,
                                                crate::access::spec_base_name(ek.path),
                                                k2 as int,
                                                n,
                                            );
                                        }
                                    }
                                }
                            } else {
                                err_acc = true;
                            }
                        },
                        Option::None => {},
                    }
                },
            }
            k2 = k2 + 1;
        }
        self.has_error = self.has_error || err_acc;
    }
}

/// Sortedness of the entry collection after one sorted insert.
pub(crate) proof fn lemma_sorted_after_insert_entry(s: Seq<EntryView>, e: EntryView, j: int, x: int, y: int)
    requires
        entries_sorted(s),
        j == entry_pos_from(s, e.path, 0),
        !(j < s.len() && s[j].path == e.path),
        0 <= x < y < s.insert(j, e).len(),
    ensures
        access_lt(s.insert(j, e)[x].path, s.insert(j, e)[y].path),
{
    lemma_entry_pos_from(s, e.path, 0);
    let s2 = s.insert(j, e);
    if x == j {
        let m = y - 1;
        assert(s2[y] == s[m]);
        lemma_access_lt_total(s[j].path, e.path);
        if m > j {
            lemma_access_lt_trans(e.path, s[j].path, s[m].path);
        }
    } else if y == j {
        assert(s2[x] == s[x]);
    } else {
        let mx = if x < j {
            x
        } else {
            x - 1
        };
        let my = if y < j {
            y
        } else {
            y - 1
        };
        assert(s2[x] == s[mx]);
        assert(s2[y] == s[my]);
        if x < j && y > j {
            if my == j {
                lemma_access_lt_total(s[j].path, e.path);
            } else {
                lemma_access_lt_total(s[j].path, e.path);
                lemma_access_lt_trans(e.path, s[j].path, s[my].path);
                lemma_access_lt_trans(s[mx].path, e.path, s[my].path);
            }
        }
    }
}


impl Docs {
    /// Looks an access up in the entry collection.
    pub fn find_entry(&self, key: &Access) -> (r: Option<usize>)
        ensures
            match r {
                Option::Some(j) => entry_find(self.entries_v(), key@) == j as int && j
                    < self.entries@.len(),
                Option::None => entry_find(self.entries_v(), key@) == -1,
            },
    {
        proof {
            lemma_entry_pos_from(self.entries_v(), key@, 0);
        }
        let j = entry_lower_bound(&self.entries, key, 0);
        if j < self.entries.len() {
            match cmp_access(&self.entries[j].path, key) {
                Rel::Equal => Option::Some(j),
                _ => Option::None,
            }
        } else {
            Option::None
        }
    }

    /// Looks a type up in the type collection.
    pub fn find_type(&self, key: &Type) -> (r: Option<usize>)
        ensures
            match r {
                Option::Some(j) => type_find(self.types_v(), key@) == j as int && j
                    < self.types@.len(),
                Option::None => type_find(self.types_v(), key@) == -1,
            },
    {
        proof {
            lemma_type_pos_from(self.types_v(), key@, 0);
        }
        let j = type_lower_bound(&self.types, key, 0);
        if j < self.types.len() {
            match cmp_type(&self.types[j].0, key) {
                Rel::Equal => Option::Some(j),
                _ => Option::None,
            }
        } else {
            Option::None
        }
    }
}

/// In a sorted entry collection every entry is found at its own index.
pub proof fn lemma_entry_find_self(s: Seq<EntryView>, k: int)
    requires
        entries_sorted(s),
        0 <= k < s.len(),
    ensures
        entry_find(s, s[k].path) == k,
{
    lemma_entry_pos_from(s, s[k].path, 0);
    let j = entry_pos_from(s, s[k].path, 0);
    lemma_access_lt_total(s[k].path, s[k].path);
    if j < k {
        assert(access_lt(s[j].path, s[k].path));
        assert(!access_lt(s[j].path, s[k].path));
    }
    if j > k {
        assert(access_lt(s[k].path, s[k].path));
    }
    assert(j == k);
}

/// In a sorted type collection every key is found at its own index.
pub proof fn lemma_type_find_self(s: Seq<(TypeView, TypeEntryView)>, k: int)
    requires
        types_sorted(s),
        0 <= k < s.len(),
    ensures
        type_find(s, s[k].0) == k,
{
    lemma_type_pos_from(s, s[k].0, 0);
    let j = type_pos_from(s, s[k].0, 0);
    lemma_type_lt_total(s[k].0, s[k].0);
    if j < k {
        assert(type_lt(s[j].0, s[k].0));
        assert(!type_lt(s[j].0, s[k].0));
    }
    if j > k {
        assert(type_lt(s[k].0, s[k].0));
    }
    assert(j == k);
}

} // verus!
