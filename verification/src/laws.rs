//! Laws of the documentation graph: duplicate-key safety, type-index
//! merging, ancestor detection, determinism of the rendered output and of
//! the comment arrival order, and resilience of the comment scan.

use vstd::prelude::*;
use crate::access::{AccessView, access_lt, lemma_access_lt_total};
use crate::ty::{TypeView, type_lt, spec_base_type, lemma_type_lt_total};
use crate::entry::{EntryView, TypeEntryView};
use crate::docs::{Docs, entries_sorted, types_sorted, entry_pos_from, lemma_entry_pos_from,
    entries_insert, types_ensure, type_pos_from, lemma_type_pos_from, refs_insert, ref_pos_from,
    lemma_ref_pos_from, pass1_entry, pass1_params, spec_pass1, spec_pass2, ScanSt, spec_save,
    spec_scan, empty_type_entry};
use crate::render::spec_generate;

verus! {

/// An access occurs in a reference set.
pub open spec fn ref_in(s: Seq<AccessView>, a: AccessView) -> bool {
    exists|i: int| 0 <= i < s.len() && s[i] == a
}

/// Some node of the type collection is keyed `t` and holds `a` in its
/// reference set.
pub open spec fn node_has_ref(
    types: Seq<(TypeView, TypeEntryView)>,
    t: TypeView,
    a: AccessView,
) -> bool {
    exists|j: int|
        0 <= j < types.len() && (#[trigger] types[j]).0 == t && ref_in(types[j].1.references, a)
}

/// Duplicate-key safety: saving an entry under an access that is already
/// taken leaves the collection exactly as it was and reports the
/// duplicate, which the aggregator folds into the process-wide error flag.
pub proof fn lemma_duplicate_insert_flagged(s: Seq<EntryView>, e: EntryView)
    requires
        entries_sorted(s),
        exists|i: int| 0 <= i < s.len() && (#[trigger] s[i]).path == e.path,
    ensures
        entries_insert(s, e) == (s, true),
{
    lemma_entry_pos_from(s, e.path, 0);
    let j = entry_pos_from(s, e.path, 0);
    let i = choose|i: int| 0 <= i < s.len() && (#[trigger] s[i]).path == e.path;
    lemma_access_lt_total(s[i].path, e.path);
    if i < j {
        assert(access_lt(s[i].path, e.path));
    }
    assert(j <= i);
    if s[j].path != e.path {
        lemma_access_lt_total(s[j].path, e.path);
        assert(access_lt(e.path, s[j].path));
        if j < i {
            assert(access_lt(s[j].path, s[i].path));
            lemma_access_lt_total(e.path, s[j].path);
        }
        assert(false);
    }
}

/// Inserting never removes: membership survives a sequence insert.
proof fn lemma_insert_contains<A>(s: Seq<A>, j: int, x: A, e: A)
    requires
        0 <= j <= s.len(),
        exists|i: int| 0 <= i < s.len() && s[i] == e,
    ensures
        exists|i: int| 0 <= i < s.insert(j, x).len() && s.insert(j, x)[i] == e,
{
    let i = choose|i: int| 0 <= i < s.len() && s[i] == e;
    if i < j {
        assert(s.insert(j, x)[i] == e);
    } else {
        assert(s.insert(j, x)[i + 1] == e);
    }
}

/// A reference-set insert keeps what was there and holds the new access.
proof fn lemma_refs_insert_facts(s: Seq<AccessView>, a: AccessView, b: AccessView)
    ensures
        ref_in(refs_insert(s, a), a),
        ref_in(s, b) ==> ref_in(refs_insert(s, a), b),
{
    lemma_ref_pos_from(s, a, 0);
    let j = ref_pos_from(s, a, 0);
    if j < s.len() && s[j] == a {
        assert(ref_in(refs_insert(s, a), a));
    } else {
        assert(refs_insert(s, a)[j] == a);
        if ref_in(s, b) {
            lemma_insert_contains(s, j, a, b);
        }
    }
}

/// Fetch-or-create keeps every keyed reference that was present, and the
/// key's node stands at the reported index.
proof fn lemma_types_ensure_facts(
    types: Seq<(TypeView, TypeEntryView)>,
    key: TypeView,
    t: TypeView,
    a: AccessView,
)
    ensures
        ({
            let r = types_ensure(types, key);
            &&& 0 <= r.1 < r.0.len()
            &&& r.0[r.1].0 == key
            &&& node_has_ref(types, t, a) ==> node_has_ref(r.0, t, a)
        }),
{
    lemma_type_pos_from(types, key, 0);
    let j = type_pos_from(types, key, 0);
    let r = types_ensure(types, key);
    if j < types.len() && types[j].0 == key {
    } else {
        assert(r.0[j] == (key, empty_type_entry()));
        if node_has_ref(types, t, a) {
            let i = choose|i: int|
                0 <= i < types.len() && (#[trigger] types[i]).0 == t && ref_in(
                    types[i].1.references,
                    a,
                );
            if i < j {
                assert(r.0[i] == types[i]);
            } else {
                assert(r.0[i + 1] == types[i]);
            }
        }
    }
}

/// The first pass on a signal's parameters keeps every keyed reference.
proof fn lemma_pass1_params_preserves(
    types: Seq<(TypeView, TypeEntryView)>,
    key: AccessView,
    ps: Seq<crate::entry::ParameterView>,
    m: int,
    t: TypeView,
    a: AccessView,
)
    requires
        node_has_ref(types, t, a),
    ensures
        node_has_ref(pass1_params(types, key, ps, m), t, a),
    decreases ps.len() - m,
{
    if !(0 <= m < ps.len()) {
    } else {
        match ps[m].ty {
            Option::Some(pt) => {
                let bt = spec_base_type(pt);
                lemma_types_ensure_facts(types, bt, t, a);
                let r = types_ensure(types, bt);
                let i = choose|i: int|
                    0 <= i < r.0.len() && (#[trigger] r.0[i]).0 == t && ref_in(
                        r.0[i].1.references,
                        a,
                    );
                let up = r.0.update(
                    r.1,
                    (
                        bt,
                        TypeEntryView {
                            references: refs_insert(r.0[r.1].1.references, key),
                            children: r.0[r.1].1.children,
                            ancestor: r.0[r.1].1.ancestor,
                            doc: r.0[r.1].1.doc,
                        },
                    ),
                );
                if i == r.1 {
                    lemma_refs_insert_facts(r.0[r.1].1.references, key, a);
                    assert(up[i].0 == t && ref_in(up[i].1.references, a));
                } else {
                    assert(up[i] == r.0[i]);
                }
                assert(node_has_ref(up, t, a));
                lemma_pass1_params_preserves(up, key, ps, m + 1, t, a);
            },
            Option::None => {
                lemma_pass1_params_preserves(types, key, ps, m + 1, t, a);
            },
        }
    }
}

/// The first pass on one entry keeps every keyed reference, and an entry
/// with a declared type contributes its access to its base type's node.
proof fn lemma_pass1_entry_facts(
    types: Seq<(TypeView, TypeEntryView)>,
    e: EntryView,
    t: TypeView,
    a: AccessView,
)
    ensures
        node_has_ref(types, t, a) ==> node_has_ref(pass1_entry(types, e), t, a),
        e.ty is Some ==> node_has_ref(pass1_entry(types, e), spec_base_type(e.ty->Some_0), e.path),
{
    match e.ty {
        Option::Some(ty) => {
            let bt = spec_base_type(ty);
            lemma_types_ensure_facts(types, bt, t, a);
            let r = types_ensure(types, bt);
            let te = r.0[r.1].1;
            let out = pass1_entry(types, e);
            lemma_refs_insert_facts(te.references, e.path, a);
            assert(out[r.1].0 == bt && ref_in(out[r.1].1.references, e.path));
            assert(node_has_ref(out, bt, e.path));
            if node_has_ref(types, t, a) {
                let i = choose|i: int|
                    0 <= i < r.0.len() && (#[trigger] r.0[i]).0 == t && ref_in(
                        r.0[i].1.references,
                        a,
                    );
                if i == r.1 {
                    assert(out[i].0 == t && ref_in(out[i].1.references, a));
                } else {
                    assert(out[i] == r.0[i]);
                }
                assert(node_has_ref(out, t, a));
            }
        },
        Option::None => {
            match e.params {
                Option::Some((ps, _)) => {
                    if node_has_ref(types, t, a) {
                        lemma_pass1_params_preserves(types, e.path, ps, 0, t, a);
                    }
                },
                Option::None => {},
            }
        },
    }
}

/// The whole first pass keeps every keyed reference.
proof fn lemma_pass1_preserves(
    entries: Seq<EntryView>,
    types: Seq<(TypeView, TypeEntryView)>,
    k: int,
    t: TypeView,
    a: AccessView,
)
    requires
        node_has_ref(types, t, a),
    ensures
        node_has_ref(spec_pass1(entries, types, k), t, a),
    decreases entries.len() - k,
{
    if !(0 <= k < entries.len()) {
    } else {
        lemma_pass1_entry_facts(types, entries[k], t, a);
        lemma_pass1_preserves(entries, pass1_entry(types, entries[k]), k + 1, t, a);
    }
}

/// After the first pass, every entry with a declared type has its access in
/// the reference set of its base type's node.
proof fn lemma_pass1_indexes(
    entries: Seq<EntryView>,
    types: Seq<(TypeView, TypeEntryView)>,
    k: int,
    j: int,
)
    requires
        0 <= k <= j < entries.len(),
        entries[j].ty is Some,
    ensures
        node_has_ref(
            spec_pass1(entries, types, k),
            spec_base_type(entries[j].ty->Some_0),
            entries[j].path,
        ),
    decreases entries.len() - k,
{
    let bt = spec_base_type(entries[j].ty->Some_0);
    if k == j {
        lemma_pass1_entry_facts(types, entries[k], bt, entries[j].path);
        lemma_pass1_preserves(entries, pass1_entry(types, entries[k]), k + 1, bt, entries[j].path);
    } else {
        lemma_pass1_indexes(entries, pass1_entry(types, entries[k]), k + 1, j);
    }
}

/// The second pass changes only child mappings and the error flag: keys,
/// reference sets and ancestors stay exactly as the first pass left them.
proof fn lemma_pass2_keeps_types(
    entries: Seq<EntryView>,
    types: Seq<(TypeView, TypeEntryView)>,
    k: int,
    err: bool,
)
    ensures
        ({
            let r = spec_pass2(entries, types, k, err);
            &&& r.1.len() == types.len()
            &&& forall|j: int|
                0 <= j < types.len() ==> (#[trigger] r.1[j]).0 == types[j].0 && r.1[
                    j
                ].1.references == types[j].1.references && r.1[j].1.ancestor == types[
                    j
                ].1.ancestor
        }),
    decreases entries.len() - k,
{
    if !(0 <= k < entries.len()) {
    } else {
        let e = entries[k];
        match crate::access::spec_parent(e.path) {
            Option::None => {
                lemma_pass2_keeps_types(entries, types, k + 1, err);
            },
            Option::Some(crate::access::AccessOrTypeView::Access(a)) => {
                let j = crate::docs::entry_find(entries, a);
                if j >= 0 {
                    let r = crate::docs::children_insert(
                        entries[j].children,
                        crate::access::spec_base_name(e.path),
                        k,
                    );
                    let e2 = EntryView {
                        path: entries[j].path,
                        params: entries[j].params,
                        ty: entries[j].ty,
                        doc: entries[j].doc,
                        children: r.0,
                    };
                    lemma_pass2_keeps_types(entries.update(j, e2), types, k + 1, err || r.1);
                } else {
                    lemma_pass2_keeps_types(entries, types, k + 1, true);
                }
            },
            Option::Some(crate::access::AccessOrTypeView::Type(t)) => {
                let j = crate::docs::type_find(types, t);
                if j >= 0 {
                    let r = crate::docs::children_insert(
                        types[j].1.children,
                        crate::access::spec_base_name(e.path),
                        k,
                    );
                    let te2 = TypeEntryView {
                        references: types[j].1.references,
                        children: r.0,
                        ancestor: types[j].1.ancestor,
                        doc: types[j].1.doc,
                    };
                    let types2 = types.update(j, (types[j].0, te2));
                    lemma_pass2_keeps_types(entries, types2, k + 1, err || r.1);
                    let rr = spec_pass2(entries, types2, k + 1, err || r.1);
                    assert forall|q: int| 0 <= q < types.len() implies (#[trigger] rr.1[q]).0
                        == types[q].0 && rr.1[q].1.references == types[q].1.references && rr.1[
                        q
                    ].1.ancestor == types[q].1.ancestor by {
                        assert(types2[q].0 == types[q].0);
                        assert(types2[q].1.references == types[q].1.references);
                        assert(types2[q].1.ancestor == types[q].1.ancestor);
                    }
                } else {
                    lemma_pass2_keeps_types(entries, types, k + 1, true);
                }
            },
        }
    }
}

/// Type-index merge: after both build passes, any two entries whose
/// declared types share one base type have both their accesses in the
/// reference set of a node keyed with that base type.
pub proof fn lemma_type_index_merge(
    entries: Seq<EntryView>,
    types: Seq<(TypeView, TypeEntryView)>,
    k1: int,
    k2: int,
)
    requires
        0 <= k1 < entries.len(),
        0 <= k2 < entries.len(),
        entries[k1].ty is Some,
        entries[k2].ty is Some,
        spec_base_type(entries[k1].ty->Some_0) == spec_base_type(entries[k2].ty->Some_0),
    ensures
        ({
            let after = spec_pass2(entries, spec_pass1(entries, types, 0), 0, false);
            let bt = spec_base_type(entries[k1].ty->Some_0);
            node_has_ref(after.1, bt, entries[k1].path) && node_has_ref(
                after.1,
                bt,
                entries[k2].path,
            )
        }),
{
    let t1 = spec_pass1(entries, types, 0);
    let bt = spec_base_type(entries[k1].ty->Some_0);
    lemma_pass1_indexes(entries, types, 0, k1);
    lemma_pass1_indexes(entries, types, 0, k2);
    lemma_pass2_keeps_types(entries, t1, 0, false);
    let after = spec_pass2(entries, t1, 0, false);
    let i1 = choose|i: int|
        0 <= i < t1.len() && (#[trigger] t1[i]).0 == bt && ref_in(
            t1[i].1.references,
            entries[k1].path,
        );
    assert(after.1[i1].0 == bt && ref_in(after.1[i1].1.references, entries[k1].path));
    let i2 = choose|i: int|
        0 <= i < t1.len() && (#[trigger] t1[i]).0 == bt && ref_in(
            t1[i].1.references,
            entries[k2].path,
        );
    assert(after.1[i2].0 == bt && ref_in(after.1[i2].1.references, entries[k2].path));
}

/// Membership-preserving saves: an entry already in the collection is still
/// there after another save, whatever it was.
proof fn lemma_save_preserves(st: ScanSt, e: EntryView)
    requires
        exists|i: int| 0 <= i < st.entries.len() && st.entries[i] == e,
    ensures
        exists|i: int|
            0 <= i < spec_save(st).entries.len() && spec_save(st).entries[i] == e,
{
    match st.cur {
        Option::None => {
            let i = choose|i: int| 0 <= i < st.entries.len() && st.entries[i] == e;
            assert(spec_save(st).entries[i] == e);
        },
        Option::Some(c) => {
            let doc = match st.brief {
                Option::Some(b) => Option::Some(
                    crate::entry::DocView { brief: b, body: st.body },
                ),
                Option::None => Option::None,
            };
            let e2 = EntryView {
                path: c.path,
                params: c.params,
                ty: c.ty,
                doc,
                children: c.children,
            };
            lemma_entry_pos_from(st.entries, e2.path, 0);
            let j = entry_pos_from(st.entries, e2.path, 0);
            if j < st.entries.len() && st.entries[j].path == e2.path {
            } else {
                lemma_insert_contains(st.entries, j, e2, e);
            }
        },
    }
}

/// Resilience: whatever one comment's scan runs into - a malformed
/// directive included - every entry already saved is still in the
/// collection when the scan stops.
pub proof fn lemma_scan_preserves_entries(
    paras: Seq<Seq<char>>,
    i: int,
    st: ScanSt,
    e: EntryView,
)
    requires
        0 <= i,
        exists|q: int| 0 <= q < st.entries.len() && st.entries[q] == e,
    ensures
        exists|q: int|
            0 <= q < spec_scan(paras, i, st).0.entries.len() && spec_scan(
                paras,
                i,
                st,
            ).0.entries[q] == e,
    decreases paras.len() - i,
{
    if i >= paras.len() {
        lemma_save_preserves(st, e);
    } else {
        let p = paras[i];
        if crate::strutil::spec_starts_with(p, "EXPORT:"@) {
            match crate::parse::spec_export_line(p) {
                Option::Some(ne) => {
                    let st1 = spec_save(st);
                    lemma_save_preserves(st, e);
                    lemma_scan_preserves_entries(
                        paras,
                        i + 1,
                        ScanSt {
                            cur: Option::Some(ne),
                            brief: st1.brief,
                            body: st1.body,
                            entries: st1.entries,
                            dup: st1.dup,
                        },
                        e,
                    );
                },
                Option::None => {},
            }
        } else if crate::strutil::spec_starts_with(p, "SIGNAL:"@) {
            match crate::parse::spec_signal_line(p) {
                Option::Some((j, ne)) => {
                    let st1 = spec_save(st);
                    lemma_save_preserves(st, e);
                    let b = crate::strutil::spec_trim_flatten(p, j, p.len() as int);
                    lemma_scan_preserves_entries(
                        paras,
                        i + 1,
                        ScanSt {
                            cur: Option::Some(ne),
                            brief: Option::Some(b),
                            body: st1.body,
                            entries: st1.entries,
                            dup: st1.dup,
                        },
                        e,
                    );
                },
                Option::None => {},
            }
        } else if p == "Arguments:"@ {
            if i + 1 >= paras.len() {
            } else {
                let details = crate::parse::spec_detail_lines(paras[i + 1], 0, Seq::empty());
                match st.cur {
                    Option::Some(c) => match c.params {
                        Option::Some((ps, dots)) => match crate::docs::spec_merge(
                            ps,
                            details,
                            0,
                        ) {
                            Option::Some((ps2, _)) => {
                                lemma_scan_preserves_entries(
                                    paras,
                                    i + 2,
                                    ScanSt {
                                        cur: Option::Some(
                                            EntryView {
                                                path: c.path,
                                                params: Option::Some((ps2, dots)),
                                                ty: c.ty,
                                                doc: c.doc,
                                                children: c.children,
                                            },
                                        ),
                                        brief: st.brief,
                                        body: st.body,
                                        entries: st.entries,
                                        dup: st.dup,
                                    },
                                    e,
                                );
                            },
                            Option::None => {},
                        },
                        Option::None => {},
                    },
                    Option::None => {},
                }
            }
        } else {
            if st.brief is None {
                lemma_scan_preserves_entries(
                    paras,
                    i + 1,
                    ScanSt {
                        cur: st.cur,
                        brief: Option::Some(p),
                        body: st.body,
                        entries: st.entries,
                        dup: st.dup,
                    },
                    e,
                );
            } else {
                lemma_scan_preserves_entries(
                    paras,
                    i + 1,
                    ScanSt {
                        cur: st.cur,
                        brief: st.brief,
                        body: st.body.push(p),
                        entries: st.entries,
                        dup: st.dup,
                    },
                    e,
                );
            }
        }
    }
}

/// `a` is the path of a zero-parameter ancestry entry declared with base
/// type `t`: the only kind of entry that may become `t`'s ancestor.
pub open spec fn anchor_of(entries: Seq<EntryView>, t: TypeView, a: AccessView) -> bool {
    exists|k: int|
        0 <= k < entries.len() && (#[trigger] entries[k]).path == a && a is Ancestry && entries[
            k
        ].params is None && entries[k].ty is Some && spec_base_type(entries[k].ty->Some_0) == t
}

/// Every set ancestor in the collection is an anchor of its own key type.
pub open spec fn anc_inv(types: Seq<(TypeView, TypeEntryView)>, entries: Seq<EntryView>) -> bool {
    forall|j: int|
        0 <= j < types.len() && (#[trigger] types[j]).1.ancestor is Some ==> anchor_of(
            entries,
            types[j].0,
            types[j].1.ancestor->Some_0,
        )
}

/// Some node keyed `t` has its ancestor set.
pub open spec fn had_anc(types: Seq<(TypeView, TypeEntryView)>, t: TypeView) -> bool {
    exists|j: int|
        0 <= j < types.len() && (#[trigger] types[j]).0 == t && types[j].1.ancestor is Some
}

/// Fetch-or-create touches no ancestor.
proof fn lemma_ensure_anc(
    types: Seq<(TypeView, TypeEntryView)>,
    key: TypeView,
    entries: Seq<EntryView>,
    t: TypeView,
)
    requires
        anc_inv(types, entries),
    ensures
        anc_inv(types_ensure(types, key).0, entries),
        had_anc(types, t) ==> had_anc(types_ensure(types, key).0, t),
{
    lemma_type_pos_from(types, key, 0);
    let j = type_pos_from(types, key, 0);
    let r = types_ensure(types, key);
    if j < types.len() && types[j].0 == key {
    } else {
        assert(r.0[j] == (key, empty_type_entry()));
        assert forall|q: int|
            0 <= q < r.0.len() && (#[trigger] r.0[q]).1.ancestor is Some implies anchor_of(
            entries,
            r.0[q].0,
            r.0[q].1.ancestor->Some_0,
        ) by {
            if q < j {
                assert(r.0[q] == types[q]);
            } else if q > j {
                assert(r.0[q] == types[q - 1]);
            }
        }
        if had_anc(types, t) {
            let i = choose|i: int|
                0 <= i < types.len() && (#[trigger] types[i]).0 == t && types[i].1.ancestor
                    is Some;
            if i < j {
                assert(r.0[i] == types[i]);
            } else {
                assert(r.0[i + 1] == types[i]);
            }
        }
    }
}

/// The parameter indexing of a signal touches no ancestor.
proof fn lemma_pass1_params_anc(
    types: Seq<(TypeView, TypeEntryView)>,
    key: AccessView,
    ps: Seq<crate::entry::ParameterView>,
    m: int,
    entries: Seq<EntryView>,
    t: TypeView,
)
    requires
        anc_inv(types, entries),
    ensures
        anc_inv(pass1_params(types, key, ps, m), entries),
        had_anc(types, t) ==> had_anc(pass1_params(types, key, ps, m), t),
    decreases ps.len() - m,
{
    if !(0 <= m < ps.len()) {
    } else {
        match ps[m].ty {
            Option::Some(pt) => {
                let bt = spec_base_type(pt);
                lemma_ensure_anc(types, bt, entries, t);
                lemma_types_ensure_facts(types, bt, t, crate::access::AccessView::Ancestry {
                    path: Seq::empty(),
                });
                let r = types_ensure(types, bt);
                let up = r.0.update(
                    r.1,
                    (
                        bt,
                        TypeEntryView {
                            references: refs_insert(r.0[r.1].1.references, key),
                            children: r.0[r.1].1.children,
                            ancestor: r.0[r.1].1.ancestor,
                            doc: r.0[r.1].1.doc,
                        },
                    ),
                );
                assert forall|q: int|
                    0 <= q < up.len() && (#[trigger] up[q]).1.ancestor is Some implies anchor_of(
                    entries,
                    up[q].0,
                    up[q].1.ancestor->Some_0,
                ) by {
                    if q != r.1 {
                        assert(up[q] == r.0[q]);
                    } else {
                        assert(up[q].0 == r.0[q].0 && up[q].1.ancestor == r.0[q].1.ancestor);
                    }
                }
                if had_anc(types, t) {
                    assert(had_anc(r.0, t));
                    let i = choose|i: int|
                        0 <= i < r.0.len() && (#[trigger] r.0[i]).0 == t && r.0[i].1.ancestor
                            is Some;
                    assert(up[i].0 == t && up[i].1.ancestor is Some);
                }
                lemma_pass1_params_anc(up, key, ps, m + 1, entries, t);
            },
            Option::None => {
                lemma_pass1_params_anc(types, key, ps, m + 1, entries, t);
            },
        }
    }
}

/// One entry's first-pass step keeps the ancestor invariant; an entry that
/// is an anchor leaves its base type's node with an ancestor set.
proof fn lemma_pass1_entry_anc(
    types: Seq<(TypeView, TypeEntryView)>,
    entries: Seq<EntryView>,
    kk: int,
    t: TypeView,
)
    requires
        anc_inv(types, entries),
        0 <= kk < entries.len(),
    ensures
        anc_inv(pass1_entry(types, entries[kk]), entries),
        had_anc(types, t) ==> had_anc(pass1_entry(types, entries[kk]), t),
        (entries[kk].path is Ancestry && entries[kk].params is None && entries[kk].ty is Some
            && spec_base_type(entries[kk].ty->Some_0) == t) ==> had_anc(
            pass1_entry(types, entries[kk]),
            t,
        ),
{
    let e = entries[kk];
    match e.ty {
        Option::Some(ty) => {
            let bt = spec_base_type(ty);
            lemma_ensure_anc(types, bt, entries, t);
            lemma_types_ensure_facts(types, bt, t, e.path);
            let r = types_ensure(types, bt);
            let te = r.0[r.1].1;
            let out = pass1_entry(types, e);
            let anchored = e.path is Ancestry && e.params is None;
            assert forall|q: int|
                0 <= q < out.len() && (#[trigger] out[q]).1.ancestor is Some implies anchor_of(
                entries,
                out[q].0,
                out[q].1.ancestor->Some_0,
            ) by {
                if q != r.1 {
                    assert(out[q] == r.0[q]);
                } else {
                    if anchored {
                        assert(out[q].0 == bt && out[q].1.ancestor == Option::Some(e.path));
                        assert(entries[kk].path == e.path);
                        assert(anchor_of(entries, bt, e.path));
                    } else {
                        assert(out[q].0 == r.0[q].0 && out[q].1.ancestor == r.0[q].1.ancestor);
                    }
                }
            }
            if had_anc(types, t) {
                assert(had_anc(r.0, t));
                let i = choose|i: int|
                    0 <= i < r.0.len() && (#[trigger] r.0[i]).0 == t && r.0[i].1.ancestor is Some;
                assert(out[i].0 == t && out[i].1.ancestor is Some);
            }
            if anchored && bt == t {
                assert(out[r.1].0 == t && out[r.1].1.ancestor is Some);
            }
        },
        Option::None => {
            match e.params {
                Option::Some((ps, _)) => {
                    lemma_pass1_params_anc(types, e.path, ps, 0, entries, t);
                },
                Option::None => {},
            }
        },
    }
}

/// The whole first pass keeps the ancestor invariant and any set ancestor.
proof fn lemma_pass1_anc(
    entries: Seq<EntryView>,
    types: Seq<(TypeView, TypeEntryView)>,
    k: int,
    t: TypeView,
)
    requires
        anc_inv(types, entries),
    ensures
        anc_inv(spec_pass1(entries, types, k), entries),
        had_anc(types, t) ==> had_anc(spec_pass1(entries, types, k), t),
    decreases entries.len() - k,
{
    if !(0 <= k < entries.len()) {
    } else {
        lemma_pass1_entry_anc(types, entries, k, t);
        lemma_pass1_anc(entries, pass1_entry(types, entries[k]), k + 1, t);
    }
}

/// After the first pass an anchor entry's base type carries an ancestor.
proof fn lemma_pass1_anchors(
    entries: Seq<EntryView>,
    types: Seq<(TypeView, TypeEntryView)>,
    k: int,
    j: int,
)
    requires
        anc_inv(types, entries),
        0 <= k <= j < entries.len(),
        entries[j].path is Ancestry,
        entries[j].params is None,
        entries[j].ty is Some,
    ensures
        had_anc(spec_pass1(entries, types, k), spec_base_type(entries[j].ty->Some_0)),
    decreases entries.len() - k,
{
    let t = spec_base_type(entries[j].ty->Some_0);
    lemma_pass1_entry_anc(types, entries, k, t);
    if k == j {
        lemma_pass1_anc(entries, pass1_entry(types, entries[k]), k + 1, t);
    } else {
        lemma_pass1_anchors(entries, pass1_entry(types, entries[k]), k + 1, j);
    }
}

/// Ancestor detection: a zero-parameter ancestry entry declared with a base
/// type leaves that type's node with its ancestor set, and every ancestor
/// set anywhere names such an entry of its own type - so a member entry
/// never sets one.
pub proof fn lemma_ancestor_detection(
    entries: Seq<EntryView>,
    types: Seq<(TypeView, TypeEntryView)>,
    k: int,
)
    requires
        0 <= k < entries.len(),
        entries[k].path is Ancestry,
        entries[k].params is None,
        entries[k].ty is Some,
        forall|j: int| 0 <= j < types.len() ==> (#[trigger] types[j]).1.ancestor is None,
    ensures
        ({
            let t = spec_base_type(entries[k].ty->Some_0);
            let after = spec_pass2(entries, spec_pass1(entries, types, 0), 0, false);
            &&& had_anc(after.1, t)
            &&& forall|j: int|
                0 <= j < after.1.len() && (#[trigger] after.1[j]).1.ancestor is Some ==> anchor_of(
                    entries,
                    after.1[j].0,
                    after.1[j].1.ancestor->Some_0,
                )
        }),
{
    let t = spec_base_type(entries[k].ty->Some_0);
    let t1 = spec_pass1(entries, types, 0);
    lemma_pass1_anchors(entries, types, 0, k);
    lemma_pass1_anc(entries, types, 0, t);
    lemma_pass2_keeps_types(entries, t1, 0, false);
    let after = spec_pass2(entries, t1, 0, false);
    let i = choose|i: int|
        0 <= i < t1.len() && (#[trigger] t1[i]).0 == t && t1[i].1.ancestor is Some;
    assert(after.1[i].0 == t && after.1[i].1.ancestor is Some);
    assert forall|j: int|
        0 <= j < after.1.len() && (#[trigger] after.1[j]).1.ancestor is Some implies anchor_of(
        entries,
        after.1[j].0,
        after.1[j].1.ancestor->Some_0,
    ) by {
        assert(after.1[j].0 == t1[j].0 && after.1[j].1.ancestor == t1[j].1.ancestor);
    }
}

/// The entry a scan would close right now: the one being built with the
/// pending brief and body attached as its documentation; nothing when no
/// entry is in progress.
pub open spec fn close_entry(
    cur: Option<EntryView>,
    brief: Option<Seq<char>>,
    body: Seq<Seq<char>>,
) -> Seq<EntryView> {
    match cur {
        Option::Some(e) => seq![
            EntryView {
                path: e.path,
                params: e.params,
                ty: e.ty,
                doc: match brief {
                    Option::Some(b) => Option::Some(crate::entry::DocView { brief: b, body }),
                    Option::None => Option::None,
                },
                children: e.children,
            },
        ],
        Option::None => Seq::empty(),
    }
}

/// The entries one comment's scan saves, in save order - a function of the
/// paragraphs and the comment-local state alone, never of the collection
/// the scan feeds.
pub open spec fn scan_saved(
    paras: Seq<Seq<char>>,
    i: int,
    cur: Option<EntryView>,
    brief: Option<Seq<char>>,
    body: Seq<Seq<char>>,
) -> Seq<EntryView>
    decreases paras.len() - i,
    when 0 <= i
{
    if i >= paras.len() {
        close_entry(cur, brief, body)
    } else {
        let p = paras[i];
        let brief1 = if cur is Some {
            Option::None
        } else {
            brief
        };
        let body1 = if cur is Some {
            Seq::empty()
        } else {
            body
        };
        if crate::strutil::spec_starts_with(p, "EXPORT:"@) {
            match crate::parse::spec_export_line(p) {
                Option::Some(e) => close_entry(cur, brief, body) + scan_saved(
                    paras,
                    i + 1,
                    Option::Some(e),
                    brief1,
                    body1,
                ),
                Option::None => Seq::empty(),
            }
        } else if crate::strutil::spec_starts_with(p, "SIGNAL:"@) {
            match crate::parse::spec_signal_line(p) {
                Option::Some((j, e)) => {
                    let b = crate::strutil::spec_trim_flatten(p, j, p.len() as int);
                    close_entry(cur, brief, body) + scan_saved(
                        paras,
                        i + 1,
                        Option::Some(e),
                        Option::Some(b),
                        body1,
                    )
                },
                Option::None => Seq::empty(),
            }
        } else if p == "Arguments:"@ {
            if i + 1 >= paras.len() {
                Seq::empty()
            } else {
                let details = crate::parse::spec_detail_lines(paras[i + 1], 0, Seq::empty());
                match cur {
                    Option::Some(e) => match e.params {
                        Option::Some((ps, dots)) => match crate::docs::spec_merge(
                            ps,
                            details,
                            0,
                        ) {
                            Option::Some((ps2, _)) => scan_saved(
                                paras,
                                i + 2,
                                Option::Some(
                                    EntryView {
                                        path: e.path,
                                        params: Option::Some((ps2, dots)),
                                        ty: e.ty,
                                        doc: e.doc,
                                        children: e.children,
                                    },
                                ),
                                brief,
                                body,
                            ),
                            Option::None => Seq::empty(),
                        },
                        Option::None => Seq::empty(),
                    },
                    Option::None => Seq::empty(),
                }
            }
        } else {
            if brief is None {
                scan_saved(paras, i + 1, cur, Option::Some(p), body)
            } else {
                scan_saved(paras, i + 1, cur, brief, body.push(p))
            }
        }
    }
}

/// The saved entries of a comment folded into a collection, one sorted
/// insert after the other, from entry `k` on.
pub open spec fn entries_insert_all(e: Seq<EntryView>, s: Seq<EntryView>, k: int) -> Seq<
    EntryView,
>
    decreases s.len() - k,
{
    if !(0 <= k < s.len()) {
        e
    } else {
        entries_insert_all(entries_insert(e, s[k]).0, s, k + 1)
    }
}

/// Positions past a prefix fold over the suffix alone.
proof fn lemma_insert_all_offset(e: Seq<EntryView>, s1: Seq<EntryView>, s2: Seq<EntryView>, m: int)
    requires
        0 <= m,
    ensures
        entries_insert_all(e, s1 + s2, s1.len() + m) == entries_insert_all(e, s2, m),
    decreases s2.len() - m,
{
    if m < s2.len() {
        assert((s1 + s2)[s1.len() + m] == s2[m]);
        lemma_insert_all_offset(entries_insert(e, s2[m]).0, s1, s2, m + 1);
    }
}

/// A fold over a concatenation is the fold over the first part, then the
/// second.
proof fn lemma_insert_all_split(e: Seq<EntryView>, s1: Seq<EntryView>, s2: Seq<EntryView>, k: int)
    requires
        0 <= k <= s1.len(),
    ensures
        entries_insert_all(e, s1 + s2, k) == entries_insert_all(
            entries_insert_all(e, s1, k),
            s2,
            0,
        ),
    decreases s1.len() - k,
{
    if k >= s1.len() {
        lemma_insert_all_offset(e, s1, s2, 0);
    } else {
        assert((s1 + s2)[k] == s1[k]);
        lemma_insert_all_split(entries_insert(e, s1[k]).0, s1, s2, k + 1);
    }
}

/// The scan factors: its result collection is the arrival collection with
/// the comment's own saved entries folded in.
pub proof fn lemma_scan_factors(paras: Seq<Seq<char>>, i: int, st: ScanSt)
    requires
        0 <= i,
    ensures
        spec_scan(paras, i, st).0.entries == entries_insert_all(
            st.entries,
            scan_saved(paras, i, st.cur, st.brief, st.body),
            0,
        ),
    decreases paras.len() - i,
{
    let saved = scan_saved(paras, i, st.cur, st.brief, st.body);
    if i >= paras.len() {
        match st.cur {
            Option::None => {
                assert(saved =~= Seq::<EntryView>::empty());
            },
            Option::Some(c) => {
                let closed = close_entry(st.cur, st.brief, st.body)[0];
                assert(entries_insert_all(st.entries, saved, 0) == entries_insert_all(
                    entries_insert(st.entries, closed).0,
                    saved,
                    1,
                ));
            },
        }
    } else {
        let p = paras[i];
        let st1 = spec_save(st);
        if crate::strutil::spec_starts_with(p, "EXPORT:"@) {
            match crate::parse::spec_export_line(p) {
                Option::Some(e) => {
                    let stn = ScanSt {
                        cur: Option::Some(e),
                        brief: st1.brief,
                        body: st1.body,
                        entries: st1.entries,
                        dup: st1.dup,
                    };
                    lemma_scan_factors(paras, i + 1, stn);
                    let rest = scan_saved(paras, i + 1, stn.cur, stn.brief, stn.body);
                    match st.cur {
                        Option::None => {
                            assert(saved =~= Seq::<EntryView>::empty() + rest);
                            assert(saved =~= rest);
                        },
                        Option::Some(c) => {
                            let closed = close_entry(st.cur, st.brief, st.body);
                            assert(st1.entries == entries_insert(st.entries, closed[0]).0);
                            assert(saved == closed + rest);
                            lemma_insert_all_split(st.entries, closed, rest, 0);
                            assert(entries_insert_all(st.entries, closed, 0)
                                == entries_insert_all(
                                entries_insert(st.entries, closed[0]).0,
                                closed,
                                1,
                            ));
                        },
                    }
                },
                Option::None => {
                    assert(saved =~= Seq::<EntryView>::empty());
                },
            }
        } else if crate::strutil::spec_starts_with(p, "SIGNAL:"@) {
            match crate::parse::spec_signal_line(p) {
                Option::Some((j, e)) => {
                    let b = crate::strutil::spec_trim_flatten(p, j, p.len() as int);
                    let stn = ScanSt {
                        cur: Option::Some(e),
                        brief: Option::Some(b),
                        body: st1.body,
                        entries: st1.entries,
                        dup: st1.dup,
                    };
                    lemma_scan_factors(paras, i + 1, stn);
                    let rest = scan_saved(paras, i + 1, stn.cur, stn.brief, stn.body);
                    match st.cur {
                        Option::None => {
                            assert(saved =~= Seq::<EntryView>::empty() + rest);
                            assert(saved =~= rest);
                        },
                        Option::Some(c) => {
                            let closed = close_entry(st.cur, st.brief, st.body);
                            assert(st1.entries == entries_insert(st.entries, closed[0]).0);
                            assert(saved == closed + rest);
                            lemma_insert_all_split(st.entries, closed, rest, 0);
                            assert(entries_insert_all(st.entries, closed, 0)
                                == entries_insert_all(
                                entries_insert(st.entries, closed[0]).0,
                                closed,
                                1,
                            ));
                        },
                    }
                },
                Option::None => {
                    assert(saved =~= Seq::<EntryView>::empty());
                },
            }
        } else if p == "Arguments:"@ {
            if i + 1 >= paras.len() {
                assert(saved =~= Seq::<EntryView>::empty());
            } else {
                let details = crate::parse::spec_detail_lines(paras[i + 1], 0, Seq::empty());
                match st.cur {
                    Option::Some(e) => match e.params {
                        Option::Some((ps, dots)) => match crate::docs::spec_merge(
                            ps,
                            details,
                            0,
                        ) {
                            Option::Some((ps2, _)) => {
                                lemma_scan_factors(
                                    paras,
                                    i + 2,
                                    ScanSt {
                                        cur: Option::Some(
                                            EntryView {
                                                path: e.path,
                                                params: Option::Some((ps2, dots)),
                                                ty: e.ty,
                                                doc: e.doc,
                                                children: e.children,
                                            },
                                        ),
                                        brief: st.brief,
                                        body: st.body,
                                        entries: st.entries,
                                        dup: st.dup,
                                    },
                                );
                            },
                            Option::None => {
                                assert(saved =~= Seq::<EntryView>::empty());
                            },
                        },
                        Option::None => {
                            assert(saved =~= Seq::<EntryView>::empty());
                        },
                    },
                    Option::None => {
                        assert(saved =~= Seq::<EntryView>::empty());
                    },
                }
            }
        } else {
            if st.brief is None {
                lemma_scan_factors(
                    paras,
                    i + 1,
                    ScanSt {
                        cur: st.cur,
                        brief: Option::Some(p),
                        body: st.body,
                        entries: st.entries,
                        dup: st.dup,
                    },
                );
            } else {
                lemma_scan_factors(
                    paras,
                    i + 1,
                    ScanSt {
                        cur: st.cur,
                        brief: st.brief,
                        body: st.body.push(p),
                        entries: st.entries,
                        dup: st.dup,
                    },
                );
            }
        }
    }
}

/// Two sorted entry collections holding the same entries are identical.
pub proof fn lemma_entries_determined(s1: Seq<EntryView>, s2: Seq<EntryView>)
    requires
        entries_sorted(s1),
        entries_sorted(s2),
        forall|e: EntryView| s1.contains(e) <==> s2.contains(e),
    ensures
        s1 == s2,
    decreases s1.len(),
{
    if s1.len() == 0 {
        if s2.len() > 0 {
            assert(s2.contains(s2[0]));
            assert(s1.contains(s2[0]));
        }
        assert(s1 =~= s2);
    } else if s2.len() == 0 {
        assert(s1.contains(s1[0]));
        assert(s2.contains(s1[0]));
        assert(false);
    } else {
        assert(s1.contains(s1[0]));
        assert(s2.contains(s2[0]));
        assert(s2.contains(s1[0]));
        assert(s1.contains(s2[0]));
        let i = choose|i: int| 0 <= i < s2.len() && s2[i] == s1[0];
        let j = choose|j: int| 0 <= j < s1.len() && s1[j] == s2[0];
        lemma_access_lt_total(s1[0].path, s2[0].path);
        if i > 0 && j > 0 {
            assert(access_lt(s2[0].path, s2[i].path));
            assert(access_lt(s1[0].path, s1[j].path));
            assert(false);
        }
        assert(s1[0] == s2[0]);
        assert forall|e: EntryView| s1.drop_first().contains(e) implies s2.drop_first().contains(
            e,
        ) by {
            let q = choose|q: int| 0 <= q < s1.drop_first().len() && s1.drop_first()[q] == e;
            assert(s1[q + 1] == e);
            assert(s1.contains(e));
            assert(s2.contains(e));
            let m = choose|m: int| 0 <= m < s2.len() && s2[m] == e;
            assert(access_lt(s1[0].path, s1[q + 1].path));
            lemma_access_lt_total(s1[0].path, e.path);
            if m == 0 {
                assert(e == s2[0]);
                assert(access_lt(s1[0].path, s1[0].path));
            }
            assert(s2.drop_first()[m - 1] == e);
        }
        assert forall|e: EntryView| s2.drop_first().contains(e) implies s1.drop_first().contains(
            e,
        ) by {
            let q = choose|q: int| 0 <= q < s2.drop_first().len() && s2.drop_first()[q] == e;
            assert(s2[q + 1] == e);
            assert(s2.contains(e));
            assert(s1.contains(e));
            let m = choose|m: int| 0 <= m < s1.len() && s1[m] == e;
            assert(access_lt(s2[0].path, s2[q + 1].path));
            lemma_access_lt_total(s2[0].path, e.path);
            if m == 0 {
                assert(access_lt(s2[0].path, s2[0].path));
            }
            assert(s1.drop_first()[m - 1] == e);
        }
        assert forall|x: int, y: int| 0 <= x < y < s1.drop_first().len() implies access_lt(
            (#[trigger] s1.drop_first()[x]).path,
            (#[trigger] s1.drop_first()[y]).path,
        ) by {
            assert(s1.drop_first()[x] == s1[x + 1]);
            assert(s1.drop_first()[y] == s1[y + 1]);
        }
        assert forall|x: int, y: int| 0 <= x < y < s2.drop_first().len() implies access_lt(
            (#[trigger] s2.drop_first()[x]).path,
            (#[trigger] s2.drop_first()[y]).path,
        ) by {
            assert(s2.drop_first()[x] == s2[x + 1]);
            assert(s2.drop_first()[y] == s2[y + 1]);
        }
        lemma_entries_determined(s1.drop_first(), s2.drop_first());
        assert forall|q: int| 0 <= q < s1.len() implies s1[q] == s2[q] by {
            if q > 0 {
                assert(s1.drop_first()[q - 1] == s2.drop_first()[q - 1]);
            }
        }
        assert(s1 =~= s2);
    }
}

/// Two sorted type collections holding the same nodes are identical.
pub proof fn lemma_types_determined(
    s1: Seq<(TypeView, TypeEntryView)>,
    s2: Seq<(TypeView, TypeEntryView)>,
)
    requires
        types_sorted(s1),
        types_sorted(s2),
        forall|t: (TypeView, TypeEntryView)| s1.contains(t) <==> s2.contains(t),
    ensures
        s1 == s2,
    decreases s1.len(),
{
    if s1.len() == 0 {
        if s2.len() > 0 {
            assert(s2.contains(s2[0]));
            assert(s1.contains(s2[0]));
        }
        assert(s1 =~= s2);
    } else if s2.len() == 0 {
        assert(s1.contains(s1[0]));
        assert(s2.contains(s1[0]));
        assert(false);
    } else {
        assert(s1.contains(s1[0]));
        assert(s2.contains(s2[0]));
        assert(s2.contains(s1[0]));
        assert(s1.contains(s2[0]));
        let i = choose|i: int| 0 <= i < s2.len() && s2[i] == s1[0];
        let j = choose|j: int| 0 <= j < s1.len() && s1[j] == s2[0];
        lemma_type_lt_total(s1[0].0, s2[0].0);
        if i > 0 && j > 0 {
            assert(type_lt(s2[0].0, s2[i].0));
            assert(type_lt(s1[0].0, s1[j].0));
            assert(false);
        }
        assert(s1[0] == s2[0]);
        assert forall|t: (TypeView, TypeEntryView)| s1.drop_first().contains(t)
            implies s2.drop_first().contains(t) by {
            let q = choose|q: int| 0 <= q < s1.drop_first().len() && s1.drop_first()[q] == t;
            assert(s1[q + 1] == t);
            assert(s1.contains(t));
            assert(s2.contains(t));
            let m = choose|m: int| 0 <= m < s2.len() && s2[m] == t;
            assert(type_lt(s1[0].0, s1[q + 1].0));
            lemma_type_lt_total(s1[0].0, t.0);
            if m == 0 {
                assert(type_lt(s1[0].0, s1[0].0));
            }
            assert(s2.drop_first()[m - 1] == t);
        }
        assert forall|t: (TypeView, TypeEntryView)| s2.drop_first().contains(t)
            implies s1.drop_first().contains(t) by {
            let q = choose|q: int| 0 <= q < s2.drop_first().len() && s2.drop_first()[q] == t;
            assert(s2[q + 1] == t);
            assert(s2.contains(t));
            assert(s1.contains(t));
            let m = choose|m: int| 0 <= m < s1.len() && s1[m] == t;
            assert(type_lt(s2[0].0, s2[q + 1].0));
            lemma_type_lt_total(s2[0].0, t.0);
            if m == 0 {
                assert(type_lt(s2[0].0, s2[0].0));
            }
            assert(s1.drop_first()[m - 1] == t);
        }
        assert forall|x: int, y: int| 0 <= x < y < s1.drop_first().len() implies type_lt(
            (#[trigger] s1.drop_first()[x]).0,
            (#[trigger] s1.drop_first()[y]).0,
        ) by {
            assert(s1.drop_first()[x] == s1[x + 1]);
            assert(s1.drop_first()[y] == s1[y + 1]);
        }
        assert forall|x: int, y: int| 0 <= x < y < s2.drop_first().len() implies type_lt(
            (#[trigger] s2.drop_first()[x]).0,
            (#[trigger] s2.drop_first()[y]).0,
        ) by {
            assert(s2.drop_first()[x] == s2[x + 1]);
            assert(s2.drop_first()[y] == s2[y + 1]);
        }
        lemma_types_determined(s1.drop_first(), s2.drop_first());
        assert forall|q: int| 0 <= q < s1.len() implies s1[q] == s2[q] by {
            if q > 0 {
                assert(s1.drop_first()[q - 1] == s2.drop_first()[q - 1]);
            }
        }
        assert(s1 =~= s2);
    }
}

/// An access is already the key of some entry in the collection.
pub open spec fn key_in(s: Seq<EntryView>, a: AccessView) -> bool {
    exists|i: int| 0 <= i < s.len() && (#[trigger] s[i]).path == a
}

/// One sorted insert of a fresh access: the result is sorted and holds
/// exactly the old entries and the new one.
proof fn lemma_entries_insert_set(e: Seq<EntryView>, x: EntryView)
    requires
        entries_sorted(e),
        !key_in(e, x.path),
    ensures
        entries_sorted(entries_insert(e, x).0),
        forall|y: EntryView| entries_insert(e, x).0.contains(y) <==> e.contains(y) || y == x,
{
    lemma_entry_pos_from(e, x.path, 0);
    let j = entry_pos_from(e, x.path, 0);
    assert(!(j < e.len() && e[j].path == x.path));
    let r = entries_insert(e, x).0;
    assert(r == e.insert(j, x));
    assert forall|a: int, b: int| 0 <= a < b < r.len() implies access_lt(
        (#[trigger] r[a]).path,
        (#[trigger] r[b]).path,
    ) by {
        crate::docs::lemma_sorted_after_insert_entry(e, x, j, a, b);
    }
    assert forall|y: EntryView| r.contains(y) <==> e.contains(y) || y == x by {
        if r.contains(y) {
            let m = choose|m: int| 0 <= m < r.len() && r[m] == y;
            if m < j {
                assert(e[m] == y);
                assert(e.contains(y));
            } else if m > j {
                assert(e[m - 1] == y);
                assert(e.contains(y));
            } else {
                assert(y == x);
            }
        }
        if e.contains(y) {
            let m = choose|m: int| 0 <= m < e.len() && e[m] == y;
            if m < j {
                assert(r[m] == y);
            } else {
                assert(r[m + 1] == y);
            }
            assert(r.contains(y));
        }
        if y == x {
            assert(r[j] == y);
            assert(r.contains(y));
        }
    }
}

/// Folding fresh, pairwise distinct accesses into a sorted collection
/// keeps it sorted and yields exactly the union.
proof fn lemma_insert_all_content(e: Seq<EntryView>, s: Seq<EntryView>, k: int)
    requires
        entries_sorted(e),
        0 <= k <= s.len(),
        forall|m: int| k <= m < s.len() ==> !key_in(e, (#[trigger] s[m]).path),
        forall|m: int, l: int| k <= m < l < s.len() ==> (#[trigger] s[m]).path != (#[trigger] s[l]).path,
    ensures
        entries_sorted(entries_insert_all(e, s, k)),
        forall|y: EntryView|
            entries_insert_all(e, s, k).contains(y) <==> e.contains(y) || exists|m: int|
                k <= m < s.len() && s[m] == y,
    decreases s.len() - k,
{
    if k >= s.len() {
    } else {
        lemma_entries_insert_set(e, s[k]);
        let e2 = entries_insert(e, s[k]).0;
        assert forall|m: int| k + 1 <= m < s.len() implies !key_in(e2, (#[trigger] s[m]).path) by {
            if key_in(e2, s[m].path) {
                let q = choose|q: int| 0 <= q < e2.len() && (#[trigger] e2[q]).path == s[m].path;
                assert(e2.contains(e2[q]));
                assert(e.contains(e2[q]) || e2[q] == s[k]);
                if e.contains(e2[q]) {
                    let w = choose|w: int| 0 <= w < e.len() && e[w] == e2[q];
                    assert(key_in(e, s[m].path));
                } else {
                    assert(s[k].path == s[m].path);
                }
            }
        }
        lemma_insert_all_content(e2, s, k + 1);
        let r = entries_insert_all(e, s, k);
        assert forall|y: EntryView| r.contains(y) <==> e.contains(y) || exists|m: int|
            k <= m < s.len() && s[m] == y by {
            if r.contains(y) {
                assert(e2.contains(y) || exists|m: int| k + 1 <= m < s.len() && s[m] == y);
                if e2.contains(y) {
                    assert(e.contains(y) || y == s[k]);
                }
            }
            if e.contains(y) {
                assert(e2.contains(y));
                assert(r.contains(y));
            }
            if exists|m: int| k <= m < s.len() && s[m] == y {
                let m = choose|m: int| k <= m < s.len() && s[m] == y;
                if m == k {
                    assert(e2.contains(y));
                    assert(r.contains(y));
                } else {
                    assert(r.contains(y));
                }
            }
        }
    }
}

/// Determinism of arrival order: folding the same entries into a sorted
/// collection, in any two orders, gives identical collections - provided
/// no access is claimed twice.
pub proof fn lemma_insert_order_irrelevant(
    e: Seq<EntryView>,
    s1: Seq<EntryView>,
    s2: Seq<EntryView>,
)
    requires
        entries_sorted(e),
        forall|y: EntryView| s1.contains(y) <==> s2.contains(y),
        forall|m: int| 0 <= m < s1.len() ==> !key_in(e, (#[trigger] s1[m]).path),
        forall|m: int, l: int|
            0 <= m < l < s1.len() ==> (#[trigger] s1[m]).path != (#[trigger] s1[l]).path,
        forall|m: int| 0 <= m < s2.len() ==> !key_in(e, (#[trigger] s2[m]).path),
        forall|m: int, l: int|
            0 <= m < l < s2.len() ==> (#[trigger] s2[m]).path != (#[trigger] s2[l]).path,
    ensures
        entries_insert_all(e, s1, 0) == entries_insert_all(e, s2, 0),
{
    lemma_insert_all_content(e, s1, 0);
    lemma_insert_all_content(e, s2, 0);
    let r1 = entries_insert_all(e, s1, 0);
    let r2 = entries_insert_all(e, s2, 0);
    assert forall|y: EntryView| r1.contains(y) <==> r2.contains(y) by {
        if r1.contains(y) {
            assert(e.contains(y) || exists|m: int| 0 <= m < s1.len() && s1[m] == y);
            if !e.contains(y) {
                let m = choose|m: int| 0 <= m < s1.len() && s1[m] == y;
                assert(s1.contains(y));
                assert(s2.contains(y));
                let w = choose|w: int| 0 <= w < s2.len() && s2[w] == y;
                assert(exists|q: int| 0 <= q < s2.len() && s2[q] == y);
            }
            assert(r2.contains(y));
        }
        if r2.contains(y) {
            assert(e.contains(y) || exists|m: int| 0 <= m < s2.len() && s2[m] == y);
            if !e.contains(y) {
                let m = choose|m: int| 0 <= m < s2.len() && s2[m] == y;
                assert(s2.contains(y));
                assert(s1.contains(y));
                let w = choose|w: int| 0 <= w < s1.len() && s1[w] == y;
                assert(exists|q: int| 0 <= q < s1.len() && s1[q] == y);
            }
            assert(r1.contains(y));
        }
    }
    lemma_entries_determined(r1, r2);
}

/// Determinism across comment order: two comments fed in either order onto
/// one collection build one identical collection, because each comment's
/// saved entries depend on its own paragraphs alone and the sorted inserts
/// commute - provided no access is claimed twice over the whole input.
pub proof fn lemma_comment_order_irrelevant(
    ca: Seq<Seq<char>>,
    cb: Seq<Seq<char>>,
    e: Seq<EntryView>,
)
    requires
        entries_sorted(e),
        ({
            let u = scan_saved(ca, 0, Option::None, Option::None, Seq::empty()) + scan_saved(
                cb,
                0,
                Option::None,
                Option::None,
                Seq::empty(),
            );
            &&& forall|m: int| 0 <= m < u.len() ==> !key_in(e, (#[trigger] u[m]).path)
            &&& forall|m: int, l: int|
                0 <= m < l < u.len() ==> (#[trigger] u[m]).path != (#[trigger] u[l]).path
        }),
    ensures
        spec_scan(
            cb,
            0,
            crate::docs::init_scan(spec_scan(ca, 0, crate::docs::init_scan(e)).0.entries),
        ).0.entries == spec_scan(
            ca,
            0,
            crate::docs::init_scan(spec_scan(cb, 0, crate::docs::init_scan(e)).0.entries),
        ).0.entries,
{
    let sa = scan_saved(ca, 0, Option::None, Option::None, Seq::empty());
    let sb = scan_saved(cb, 0, Option::None, Option::None, Seq::empty());
    lemma_scan_factors(ca, 0, crate::docs::init_scan(e));
    let ra = spec_scan(ca, 0, crate::docs::init_scan(e)).0.entries;
    lemma_scan_factors(cb, 0, crate::docs::init_scan(ra));
    lemma_insert_all_split(e, sa, sb, 0);
    assert(spec_scan(cb, 0, crate::docs::init_scan(ra)).0.entries == entries_insert_all(
        e,
        sa + sb,
        0,
    ));
    lemma_scan_factors(cb, 0, crate::docs::init_scan(e));
    let rb = spec_scan(cb, 0, crate::docs::init_scan(e)).0.entries;
    lemma_scan_factors(ca, 0, crate::docs::init_scan(rb));
    lemma_insert_all_split(e, sb, sa, 0);
    assert(spec_scan(ca, 0, crate::docs::init_scan(rb)).0.entries == entries_insert_all(
        e,
        sb + sa,
        0,
    ));
    let u = sa + sb;
    let v = sb + sa;
    assert forall|y: EntryView| u.contains(y) <==> v.contains(y) by {
        if u.contains(y) {
            let m = choose|m: int| 0 <= m < u.len() && u[m] == y;
            if m < sa.len() {
                assert(v[sb.len() + m] == y);
            } else {
                assert(v[m - sa.len()] == y);
            }
            assert(v.contains(y));
        }
        if v.contains(y) {
            let m = choose|m: int| 0 <= m < v.len() && v[m] == y;
            if m < sb.len() {
                assert(u[sa.len() + m] == y);
            } else {
                assert(u[m - sb.len()] == y);
            }
            assert(u.contains(y));
        }
    }
    assert forall|m: int| 0 <= m < v.len() implies !key_in(e, (#[trigger] v[m]).path) by {
        if m < sb.len() {
            assert(v[m] == u[sa.len() + m]);
        } else {
            assert(v[m] == u[m - sb.len()]);
        }
    }
    assert forall|m: int, l: int| 0 <= m < l < v.len() implies (#[trigger] v[m]).path != (
    #[trigger] v[l]).path by {
        let um = if m < sb.len() {
            sa.len() + m
        } else {
            m - sb.len()
        };
        let ul = if l < sb.len() {
            sa.len() + l
        } else {
            l - sb.len()
        };
        assert(v[m] == u[um]);
        assert(v[l] == u[ul]);
        if um < ul {
            assert(u[um].path != u[ul].path);
        } else if ul < um {
            assert(u[ul].path != u[um].path);
        } else {
            assert(false);
        }
    }
    lemma_insert_order_irrelevant(e, u, v);
}

/// Determinism: two well-formed graphs that hold the same entries and the
/// same type nodes - in whatever order they were built - are identical, so
/// every artifact rendered from them is byte-identical.
pub proof fn lemma_generate_deterministic(d1: Docs, d2: Docs)
    requires
        d1.wf(),
        d2.wf(),
        forall|e: EntryView| d1.entries_v().contains(e) <==> d2.entries_v().contains(e),
        forall|t: (TypeView, TypeEntryView)| d1.types_v().contains(t) <==> d2.types_v().contains(
            t,
        ),
    ensures
        d1.entries_v() == d2.entries_v(),
        d1.types_v() == d2.types_v(),
        spec_generate(d1.entries_v(), d1.types_v()) == spec_generate(
            d2.entries_v(),
            d2.types_v(),
        ),
{
    lemma_entries_determined(d1.entries_v(), d2.entries_v());
    lemma_types_determined(d1.types_v(), d2.types_v());
}

} // verus!
