//! The annotation grammar: declaration lines (`EXPORT:`, `SIGNAL:`,
//! `TYPE:`), parameter lists and parameter-detail blocks, as one verified
//! recursive-descent parser over character vectors.
//!
//! Each executable parser mirrors a spec function that defines the grammar;
//! the contract of the parser is exactly that it computes the spec parse.

use vstd::prelude::*;
use vstd::string::StrSliceExecFns;
use crate::chars::{spec_ident_char, is_ident_char, spec_multispace_char, is_multispace_char,
    spec_line_space_char, is_line_space_char};
use crate::ty::{Type, TypeView};
use crate::access::{Access, AccessView};
use crate::entry::{Parameter, ParameterView, Entry, EntryView};
use crate::strutil::string_of_range;

verus! {

/// End of the run of grammar whitespace beginning at `i`.
pub open spec fn ms_end(s: Seq<char>, i: int) -> int
    decreases s.len() - i,
{
    if 0 <= i < s.len() && spec_multispace_char(s[i]) {
        ms_end(s, i + 1)
    } else {
        i
    }
}

pub proof fn lemma_ms_end(s: Seq<char>, i: int)
    requires
        0 <= i <= s.len(),
    ensures
        i <= ms_end(s, i) <= s.len(),
    decreases s.len() - i,
{
    if i < s.len() && spec_multispace_char(s[i]) {
        lemma_ms_end(s, i + 1);
    }
}

/// End of the run of horizontal space beginning at `i`.
pub open spec fn sp_end(s: Seq<char>, i: int) -> int
    decreases s.len() - i,
{
    if 0 <= i < s.len() && spec_line_space_char(s[i]) {
        sp_end(s, i + 1)
    } else {
        i
    }
}

pub proof fn lemma_sp_end(s: Seq<char>, i: int)
    requires
        0 <= i <= s.len(),
    ensures
        i <= sp_end(s, i) <= s.len(),
    decreases s.len() - i,
{
    if i < s.len() && spec_line_space_char(s[i]) {
        lemma_sp_end(s, i + 1);
    }
}

/// End of the run of identifier characters beginning at `i`.
pub open spec fn ident_end(s: Seq<char>, i: int) -> int
    decreases s.len() - i,
{
    if 0 <= i < s.len() && spec_ident_char(s[i]) {
        ident_end(s, i + 1)
    } else {
        i
    }
}

pub proof fn lemma_ident_end(s: Seq<char>, i: int)
    requires
        0 <= i <= s.len(),
    ensures
        i <= ident_end(s, i) <= s.len(),
    decreases s.len() - i,
{
    if i < s.len() && spec_ident_char(s[i]) {
        lemma_ident_end(s, i + 1);
    }
}

/// An identifier (at least one identifier character) begins at `i`.
pub open spec fn has_ident(s: Seq<char>, i: int) -> bool {
    ident_end(s, i) > i
}

/// The literal `t` occurs at position `i` of `s`.
pub open spec fn match_at(s: Seq<char>, i: int, t: Seq<char>) -> bool {
    &&& i >= 0
    &&& i + t.len() <= s.len()
    &&& forall|j: int| 0 <= j < t.len() ==> s[i + j] == t[j]
}

/// End of a dotted identifier sequence beginning at `i`; equals
/// `ident_end(s, i)` extended across every `.` that is followed by another
/// identifier.
pub open spec fn nsid_end(s: Seq<char>, i: int) -> int
    decreases s.len() - i,
    when i <= s.len()
    via nsid_end_dec
{
    let e = ident_end(s, i);
    if e < s.len() && s[e] == '.' && has_ident(s, e + 1) {
        nsid_end(s, e + 1)
    } else {
        e
    }
}

#[via_fn]
proof fn nsid_end_dec(s: Seq<char>, i: int) {
    if 0 <= i {
        lemma_ident_end(s, i);
    }
}

pub proof fn lemma_nsid_end(s: Seq<char>, i: int)
    requires
        0 <= i <= s.len(),
    ensures
        ident_end(s, i) <= nsid_end(s, i) <= s.len(),
    decreases s.len() - i,
{
    lemma_ident_end(s, i);
    let e = ident_end(s, i);
    if e < s.len() && s[e] == '.' && has_ident(s, e + 1) {
        lemma_nsid_end(s, e + 1);
    }
}

/// A base type expression: `[namespace] ":" member`.
pub open spec fn spec_base_type(s: Seq<char>, i: int) -> Option<(int, TypeView)> {
    if has_ident(s, i) {
        let ne = nsid_end(s, i);
        if ne < s.len() && s[ne] == ':' && has_ident(s, ne + 1) {
            Option::Some(
                (
                    ident_end(s, ne + 1),
                    TypeView::Base {
                        namespace: Option::Some(s.subrange(i, ne)),
                        member: s.subrange(ne + 1, ident_end(s, ne + 1)),
                    },
                ),
            )
        } else {
            Option::None
        }
    } else {
        if 0 <= i < s.len() && s[i] == ':' && has_ident(s, i + 1) {
            Option::Some(
                (
                    ident_end(s, i + 1),
                    TypeView::Base {
                        namespace: Option::None,
                        member: s.subrange(i + 1, ident_end(s, i + 1)),
                    },
                ),
            )
        } else {
            Option::None
        }
    }
}

pub proof fn lemma_base_type_bounds(s: Seq<char>, i: int)
    requires
        0 <= i <= s.len(),
    ensures
        spec_base_type(s, i) matches Option::Some((e, _)) ==> i < e <= s.len(),
{
    lemma_ident_end(s, i);
    lemma_nsid_end(s, i);
    if has_ident(s, i) {
        let ne = nsid_end(s, i);
        if ne < s.len() {
            lemma_ident_end(s, ne + 1);
        }
    } else {
        if i < s.len() {
            lemma_ident_end(s, i + 1);
        }
    }
}

/// A type expression: a base type, or brackets (with surrounding whitespace)
/// around a type.
pub open spec fn spec_type(s: Seq<char>, i: int) -> Option<(int, TypeView)>
    decreases s.len() - i,
    when 0 <= i <= s.len()
    via spec_type_dec
{
    let a0 = ms_end(s, i);
    if a0 < s.len() && s[a0] == '[' {
        let a = ms_end(s, a0 + 1);
        match spec_type(s, a) {
            Option::Some((e, t)) => {
                let b = ms_end(s, e);
                if b < s.len() && s[b] == ']' {
                    Option::Some((ms_end(s, b + 1), TypeView::Array(Box::new(t))))
                } else {
                    Option::None
                }
            },
            Option::None => Option::None,
        }
    } else {
        spec_base_type(s, i)
    }
}

#[via_fn]
proof fn spec_type_dec(s: Seq<char>, i: int) {
    lemma_ms_end(s, i);
    let a0 = ms_end(s, i);
    if a0 < s.len() && s[a0] == '[' {
        lemma_ms_end(s, a0 + 1);
    }
}

pub proof fn lemma_spec_type_bounds(s: Seq<char>, i: int)
    requires
        0 <= i <= s.len(),
    ensures
        spec_type(s, i) matches Option::Some((e, _)) ==> i < e <= s.len(),
    decreases s.len() - i,
{
    lemma_ms_end(s, i);
    let a0 = ms_end(s, i);
    if a0 < s.len() && s[a0] == '[' {
        lemma_ms_end(s, a0 + 1);
        let a = ms_end(s, a0 + 1);
        lemma_spec_type_bounds(s, a);
        match spec_type(s, a) {
            Option::Some((e, _)) => {
                lemma_ms_end(s, e);
                let b = ms_end(s, e);
                if b < s.len() && s[b] == ']' {
                    lemma_ms_end(s, b + 1);
                }
            },
            Option::None => {},
        }
    } else {
        lemma_base_type_bounds(s, i);
    }
}

/// Skips grammar whitespace.
pub fn skip_ms(s: &Vec<char>, i: usize) -> (r: usize)
    requires
        i <= s@.len(),
    ensures
        r as int == ms_end(s@, i as int),
        i <= r <= s@.len(),
    decreases s@.len() - i,
{
    proof {
        lemma_ms_end(s@, i as int);
    }
    if i < s.len() && is_multispace_char(s[i]) {
        skip_ms(s, i + 1)
    } else {
        i
    }
}

/// Skips horizontal space.
pub fn skip_sp(s: &Vec<char>, i: usize) -> (r: usize)
    requires
        i <= s@.len(),
    ensures
        r as int == sp_end(s@, i as int),
        i <= r <= s@.len(),
    decreases s@.len() - i,
{
    proof {
        lemma_sp_end(s@, i as int);
    }
    if i < s.len() && is_line_space_char(s[i]) {
        skip_sp(s, i + 1)
    } else {
        i
    }
}

/// Skips identifier characters.
pub fn skip_ident(s: &Vec<char>, i: usize) -> (r: usize)
    requires
        i <= s@.len(),
    ensures
        r as int == ident_end(s@, i as int),
        i <= r <= s@.len(),
    decreases s@.len() - i,
{
    proof {
        lemma_ident_end(s@, i as int);
    }
    if i < s.len() && is_ident_char(s[i]) {
        skip_ident(s, i + 1)
    } else {
        i
    }
}

/// Whether the literal `t` occurs at position `i`.
pub fn match_lit(s: &Vec<char>, i: usize, t: &str) -> (r: bool)
    requires
        i <= s@.len(),
    ensures
        r == match_at(s@, i as int, t@),
{
    let n = t.unicode_len();
    let slen = s.len();
    if n > slen - i {
        return false;
    }
    let mut j: usize = 0;
    while j < n
        invariant
            j <= n,
            n == t@.len(),
            slen == s@.len(),
            i + n <= slen,
            forall|k: int| 0 <= k < j ==> s@[i + k] == t@[k],
        decreases n - j,
    {
        if s[i + j] != t.get_char(j) {
            return false;
        }
        j = j + 1;
    }
    true
}

/// Skips a dotted identifier sequence.
pub fn skip_nsid(s: &Vec<char>, i: usize) -> (r: usize)
    requires
        i <= s@.len(),
    ensures
        r as int == nsid_end(s@, i as int),
        i <= r <= s@.len(),
    decreases s@.len() - i,
{
    proof {
        lemma_nsid_end(s@, i as int);
        lemma_ident_end(s@, i as int);
    }
    let e = skip_ident(s, i);
    if e < s.len() && s[e] == '.' {
        let e2 = skip_ident(s, e + 1);
        if e2 > e + 1 {
            return skip_nsid(s, e + 1);
        }
    }
    e
}

/// Parses a base type expression.
pub fn parse_base_type(s: &Vec<char>, i: usize) -> (r: Option<(usize, Type)>)
    requires
        i <= s@.len(),
    ensures
        match r {
            Option::Some((j, t)) => spec_base_type(s@, i as int) == Option::Some(
                (j as int, t@),
            ) && i < j <= s@.len(),
            Option::None => spec_base_type(s@, i as int) is None,
        },
{
    proof {
        lemma_base_type_bounds(s@, i as int);
    }
    let e0 = skip_ident(s, i);
    if e0 > i {
        let ne = skip_nsid(s, i);
        if ne < s.len() && s[ne] == ':' {
            let me = skip_ident(s, ne + 1);
            if me > ne + 1 {
                let ns = string_of_range(s, i, ne);
                let member = string_of_range(s, ne + 1, me);
                return Option::Some(
                    (me, Type::Base { namespace: Option::Some(ns), member }),
                );
            }
        }
        Option::None
    } else {
        if i < s.len() && s[i] == ':' {
            let me = skip_ident(s, i + 1);
            if me > i + 1 {
                let member = string_of_range(s, i + 1, me);
                return Option::Some((me, Type::Base { namespace: Option::None, member }));
            }
        }
        Option::None
    }
}

/// Parses a type expression.
pub fn parse_type(s: &Vec<char>, i: usize) -> (r: Option<(usize, Type)>)
    requires
        i <= s@.len(),
    ensures
        match r {
            Option::Some((j, t)) => spec_type(s@, i as int) == Option::Some((j as int, t@)) && i
                < j <= s@.len(),
            Option::None => spec_type(s@, i as int) is None,
        },
    decreases s@.len() - i,
{
    proof {
        lemma_spec_type_bounds(s@, i as int);
    }
    let a0 = skip_ms(s, i);
    if a0 < s.len() && s[a0] == '[' {
        let a = skip_ms(s, a0 + 1);
        match parse_type(s, a) {
            Option::Some((e, t)) => {
                let b = skip_ms(s, e);
                if b < s.len() && s[b] == ']' {
                    let j = skip_ms(s, b + 1);
                    Option::Some((j, Type::Array(Box::new(t))))
                } else {
                    Option::None
                }
            },
            Option::None => Option::None,
        }
    } else {
        parse_base_type(s, i)
    }
}

/// An ancestry access: a dotted identifier path.
pub open spec fn spec_ancestry(s: Seq<char>, i: int) -> Option<(int, AccessView)> {
    if has_ident(s, i) {
        Option::Some(
            (nsid_end(s, i), AccessView::Ancestry { path: s.subrange(i, nsid_end(s, i)) }),
        )
    } else {
        Option::None
    }
}

/// An access: `base_type.member`, or an ancestry path.
pub open spec fn spec_access(s: Seq<char>, i: int) -> Option<(int, AccessView)> {
    match spec_base_type(s, i) {
        Option::Some((e, t)) => {
            if e < s.len() && s[e] == '.' && has_ident(s, e + 1) {
                Option::Some(
                    (
                        ident_end(s, e + 1),
                        AccessView::Member { ty: t, member: s.subrange(e + 1, ident_end(s, e + 1)) },
                    ),
                )
            } else {
                spec_ancestry(s, i)
            }
        },
        Option::None => spec_ancestry(s, i),
    }
}

pub proof fn lemma_access_bounds(s: Seq<char>, i: int)
    requires
        0 <= i <= s.len(),
    ensures
        spec_access(s, i) matches Option::Some((e, _)) ==> i < e <= s.len(),
{
    lemma_base_type_bounds(s, i);
    lemma_ident_end(s, i);
    lemma_nsid_end(s, i);
    match spec_base_type(s, i) {
        Option::Some((e, _)) => {
            if e < s.len() {
                lemma_ident_end(s, e + 1);
            }
        },
        Option::None => {},
    }
}

/// Parses an access.
pub fn parse_access(s: &Vec<char>, i: usize) -> (r: Option<(usize, Access)>)
    requires
        i <= s@.len(),
    ensures
        match r {
            Option::Some((j, a)) => spec_access(s@, i as int) == Option::Some((j as int, a@)) && i
                < j <= s@.len(),
            Option::None => spec_access(s@, i as int) is None,
        },
{
    proof {
        lemma_access_bounds(s@, i as int);
        lemma_base_type_bounds(s@, i as int);
    }
    match parse_base_type(s, i) {
        Option::Some((e, t)) => {
            if e < s.len() && s[e] == '.' {
                let me = skip_ident(s, e + 1);
                if me > e + 1 {
                    let member = string_of_range(s, e + 1, me);
                    return Option::Some((me, Access::Member { ty: t, member }));
                }
            }
            parse_ancestry(s, i)
        },
        Option::None => parse_ancestry(s, i),
    }
}

/// One element of a parameter list: `name`, optionally `: type` (the colon
/// surrounded by whitespace).
pub open spec fn spec_param_elem(s: Seq<char>, i: int) -> Option<(int, ParameterView)> {
    if has_ident(s, i) {
        let e = ident_end(s, i);
        let name = s.subrange(i, e);
        let c = ms_end(s, e);
        if c < s.len() && s[c] == ':' {
            let d = ms_end(s, c + 1);
            match spec_type(s, d) {
                Option::Some((f, t)) => Option::Some(
                    (f, ParameterView { name, ty: Option::Some(t), doc: Seq::empty() }),
                ),
                Option::None => Option::Some(
                    (e, ParameterView { name, ty: Option::None, doc: Seq::empty() }),
                ),
            }
        } else {
            Option::Some((e, ParameterView { name, ty: Option::None, doc: Seq::empty() }))
        }
    } else {
        Option::None
    }
}

pub proof fn lemma_param_elem_bounds(s: Seq<char>, i: int)
    requires
        0 <= i <= s.len(),
    ensures
        spec_param_elem(s, i) matches Option::Some((e, _)) ==> i < e <= s.len(),
{
    lemma_ident_end(s, i);
    if has_ident(s, i) {
        let e = ident_end(s, i);
        lemma_ms_end(s, e);
        let c = ms_end(s, e);
        if c < s.len() && s[c] == ':' {
            lemma_ms_end(s, c + 1);
            lemma_spec_type_bounds(s, ms_end(s, c + 1));
        }
    }
}

/// The later elements of a parameter list: `, name[: type]` repeated as long
/// as it parses; the position stops before any comma that is not followed by
/// an element.
pub open spec fn spec_params_more(s: Seq<char>, i: int, acc: Seq<ParameterView>) -> (int, Seq<
    ParameterView,
>)
    decreases s.len() - i,
    when 0 <= i <= s.len()
    via spec_params_more_dec
{
    let c = ms_end(s, i);
    if c < s.len() && s[c] == ',' {
        let d = ms_end(s, c + 1);
        match spec_param_elem(s, d) {
            Option::Some((e, p)) => spec_params_more(s, e, acc.push(p)),
            Option::None => (i, acc),
        }
    } else {
        (i, acc)
    }
}

#[via_fn]
proof fn spec_params_more_dec(s: Seq<char>, i: int, acc: Seq<ParameterView>) {
    lemma_ms_end(s, i);
    let c = ms_end(s, i);
    if c < s.len() && s[c] == ',' {
        lemma_ms_end(s, c + 1);
        lemma_param_elem_bounds(s, ms_end(s, c + 1));
    }
}

/// A possibly empty comma-separated parameter list.
pub open spec fn spec_params(s: Seq<char>, i: int) -> (int, Seq<ParameterView>) {
    match spec_param_elem(s, i) {
        Option::None => (i, Seq::empty()),
        Option::Some((e, p)) => spec_params_more(s, e, seq![p]),
    }
}

pub proof fn lemma_params_more_bounds(s: Seq<char>, i: int, acc: Seq<ParameterView>)
    requires
        0 <= i <= s.len(),
    ensures
        i <= spec_params_more(s, i, acc).0 <= s.len(),
    decreases s.len() - i,
{
    lemma_ms_end(s, i);
    let c = ms_end(s, i);
    if c < s.len() && s[c] == ',' {
        lemma_ms_end(s, c + 1);
        let d = ms_end(s, c + 1);
        lemma_param_elem_bounds(s, d);
        match spec_param_elem(s, d) {
            Option::Some((e, p)) => {
                lemma_params_more_bounds(s, e, acc.push(p));
            },
            Option::None => {},
        }
    }
}

pub proof fn lemma_params_bounds(s: Seq<char>, i: int)
    requires
        0 <= i <= s.len(),
    ensures
        i <= spec_params(s, i).0 <= s.len(),
{
    lemma_param_elem_bounds(s, i);
    match spec_param_elem(s, i) {
        Option::Some((e, p)) => {
            lemma_params_more_bounds(s, e, seq![p]);
        },
        Option::None => {},
    }
}

/// Parses one parameter-list element.
fn parse_param_elem(s: &Vec<char>, i: usize) -> (r: Option<(usize, Parameter)>)
    requires
        i <= s@.len(),
    ensures
        match r {
            Option::Some((j, p)) => spec_param_elem(s@, i as int) == Option::Some(
                (j as int, p@),
            ) && i < j <= s@.len(),
            Option::None => spec_param_elem(s@, i as int) is None,
        },
{
    proof {
        lemma_param_elem_bounds(s@, i as int);
    }
    let e = skip_ident(s, i);
    if e > i {
        let name = string_of_range(s, i, e);
        let c = skip_ms(s, e);
        if c < s.len() && s[c] == ':' {
            let d = skip_ms(s, c + 1);
            match parse_type(s, d) {
                Option::Some((f, t)) => Option::Some(
                    (f, Parameter { name, ty: Option::Some(t), doc: String::new() }),
                ),
                Option::None => Option::Some(
                    (e, Parameter { name, ty: Option::None, doc: String::new() }),
                ),
            }
        } else {
            Option::Some((e, Parameter { name, ty: Option::None, doc: String::new() }))
        }
    } else {
        Option::None
    }
}

/// Parses the later elements of a parameter list onto `acc`.
fn parse_params_more(s: &Vec<char>, i: usize, acc: Vec<Parameter>) -> (r: (usize, Vec<Parameter>))
    requires
        i <= s@.len(),
    ensures
        ({
            let (j, ps) = spec_params_more(s@, i as int, acc@.map_values(|p: Parameter| p@));
            &&& r.0 as int == j
            &&& r.1@.map_values(|p: Parameter| p@) == ps
            &&& i <= r.0 <= s@.len()
        }),
    decreases s@.len() - i,
{
    let c = skip_ms(s, i);
    if c < s.len() && s[c] == ',' {
        let d = skip_ms(s, c + 1);
        match parse_param_elem(s, d) {
            Option::Some((e, p)) => {
                let ghost old_accv = acc@.map_values(|q: Parameter| q@);
                let ghost pv = p@;
                let mut acc2 = acc;
                acc2.push(p);
                proof {
                    assert(acc2@.map_values(|q: Parameter| q@) =~= old_accv.push(pv));
                }
                parse_params_more(s, e, acc2)
            },
            Option::None => (i, acc),
        }
    } else {
        (i, acc)
    }
}

/// Parses a possibly empty comma-separated parameter list.
pub fn parse_params(s: &Vec<char>, i: usize) -> (r: (usize, Vec<Parameter>))
    requires
        i <= s@.len(),
    ensures
        ({
            let (j, ps) = spec_params(s@, i as int);
            &&& r.0 as int == j
            &&& r.1@.map_values(|p: Parameter| p@) == ps
            &&& i <= r.0 <= s@.len()
        }),
{
    match parse_param_elem(s, i) {
        Option::None => {
            let acc: Vec<Parameter> = Vec::new();
            proof {
                assert(acc@.map_values(|q: Parameter| q@) =~= Seq::<ParameterView>::empty());
            }
            (i, acc)
        },
        Option::Some((e, p)) => {
            let ghost pv = p@;
            let mut acc: Vec<Parameter> = Vec::new();
            acc.push(p);
            proof {
                assert(acc@.map_values(|q: Parameter| q@) =~= seq![pv]);
            }
            parse_params_more(s, e, acc)
        },
    }
}

/// The result of parsing a declaration: its end, the access, and the
/// parameter list with its variadic marker.
pub struct DeclView {
    pub end: int,
    pub path: AccessView,
    pub params: Option<(Seq<ParameterView>, bool)>,
}

/// A declaration: an access, optionally followed by a parenthesized
/// parameter list with an optional trailing variadic marker - `, ...`
/// after parameters, or a bare `...` when the list is otherwise empty.
pub open spec fn spec_declaration(s: Seq<char>, i: int) -> Option<DeclView> {
    match spec_access(s, i) {
        Option::None => Option::None,
        Option::Some((e, acc)) => {
            let o = ms_end(s, e);
            if o < s.len() && s[o] == '(' {
                let a = ms_end(s, o + 1);
                let (pe, ps) = spec_params(s, a);
                let c = ms_end(s, pe);
                let comma_dots = c < s.len() && s[c] == ',' && match_at(
                    s,
                    ms_end(s, c + 1),
                    "..."@,
                );
                let bare_dots = ps.len() == 0 && match_at(s, c, "..."@);
                let has_dots = comma_dots || bare_dots;
                let dpos = if comma_dots {
                    ms_end(s, c + 1) + "..."@.len() as int
                } else if bare_dots {
                    c + "..."@.len() as int
                } else {
                    pe
                };
                let f = ms_end(s, dpos);
                if f < s.len() && s[f] == ')' {
                    Option::Some(
                        DeclView {
                            end: ms_end(s, f + 1),
                            path: acc,
                            params: Option::Some((ps, has_dots)),
                        },
                    )
                } else {
                    Option::Some(DeclView { end: e, path: acc, params: Option::None })
                }
            } else {
                Option::Some(DeclView { end: e, path: acc, params: Option::None })
            }
        },
    }
}

pub proof fn lemma_declaration_bounds(s: Seq<char>, i: int)
    requires
        0 <= i <= s.len(),
    ensures
        spec_declaration(s, i) matches Option::Some(d) ==> i < d.end <= s.len(),
{
    lemma_access_bounds(s, i);
    match spec_access(s, i) {
        Option::Some((e, acc)) => {
            lemma_ms_end(s, e);
            let o = ms_end(s, e);
            if o < s.len() && s[o] == '(' {
                lemma_ms_end(s, o + 1);
                let a = ms_end(s, o + 1);
                lemma_params_bounds(s, a);
                let (pe, ps) = spec_params(s, a);
                lemma_ms_end(s, pe);
                let c = ms_end(s, pe);
                let comma_dots = c < s.len() && s[c] == ',' && match_at(
                    s,
                    ms_end(s, c + 1),
                    "..."@,
                );
                let bare_dots = ps.len() == 0 && match_at(s, c, "..."@);
                if c < s.len() {
                    lemma_ms_end(s, c + 1);
                }
                let dpos = if comma_dots {
                    ms_end(s, c + 1) + "..."@.len() as int
                } else if bare_dots {
                    c + "..."@.len() as int
                } else {
                    pe
                };
                lemma_ms_end(s, dpos);
                let f = ms_end(s, dpos);
                if f < s.len() && s[f] == ')' {
                    lemma_ms_end(s, f + 1);
                }
            }
        },
        Option::None => {},
    }
}

/// Parses a declaration.
pub fn parse_declaration(s: &Vec<char>, i: usize) -> (r: Option<
    (usize, Access, Option<(Vec<Parameter>, bool)>),
>)
    requires
        i <= s@.len(),
    ensures
        match r {
            Option::Some((j, a, ps)) => spec_declaration(s@, i as int) == Option::Some(
                DeclView {
                    end: j as int,
                    path: a@,
                    params: crate::entry::params_view(ps),
                },
            ) && i < j <= s@.len(),
            Option::None => spec_declaration(s@, i as int) is None,
        },
{
    proof {
        lemma_declaration_bounds(s@, i as int);
    }
    match parse_access(s, i) {
        Option::None => Option::None,
        Option::Some((e, acc)) => {
            let o = skip_ms(s, e);
            if o < s.len() && s[o] == '(' {
                let a = skip_ms(s, o + 1);
                let (pe, ps) = parse_params(s, a);
                let c = skip_ms(s, pe);
                let dl = "...".unicode_len();
                let mut has_dots = false;
                let mut dpos = pe;
                if c < s.len() && s[c] == ',' {
                    let d2 = skip_ms(s, c + 1);
                    if match_lit(s, d2, "...") {
                        has_dots = true;
                        dpos = d2 + dl;
                    }
                }
                if !has_dots && ps.is_empty() && match_lit(s, c, "...") {
                    has_dots = true;
                    dpos = c + dl;
                }
                let f = skip_ms(s, dpos);
                if f < s.len() && s[f] == ')' {
                    let j = skip_ms(s, f + 1);
                    Option::Some((j, acc, Option::Some((ps, has_dots))))
                } else {
                    Option::Some((e, acc, Option::None))
                }
            } else {
                Option::Some((e, acc, Option::None))
            }
        },
    }
}

/// An `EXPORT:` line: marker, horizontal space, declaration, a colon
/// surrounded by whitespace, and the declared type. Trailing text is
/// ignored.
pub open spec fn spec_export_line(s: Seq<char>) -> Option<EntryView> {
    if match_at(s, 0, "EXPORT:"@) {
        let p0 = sp_end(s, "EXPORT:"@.len() as int);
        match spec_declaration(s, p0) {
            Option::None => Option::None,
            Option::Some(d) => {
                let c = ms_end(s, d.end);
                if c < s.len() && s[c] == ':' {
                    let t0 = ms_end(s, c + 1);
                    match spec_type(s, t0) {
                        Option::Some((_, t)) => Option::Some(
                            EntryView {
                                path: d.path,
                                params: d.params,
                                ty: Option::Some(t),
                                doc: Option::None,
                                children: Seq::empty(),
                            },
                        ),
                        Option::None => Option::None,
                    }
                } else {
                    Option::None
                }
            },
        }
    } else {
        Option::None
    }
}

/// Parses an `EXPORT:` line into an entry.
pub fn parse_export_line(s: &Vec<char>) -> (r: Option<Entry>)
    ensures
        match r {
            Option::Some(e) => spec_export_line(s@) == Option::Some(e@),
            Option::None => spec_export_line(s@) is None,
        },
{
    if !match_lit(s, 0, "EXPORT:") {
        return Option::None;
    }
    let ml = "EXPORT:".unicode_len();
    let p0 = skip_sp(s, ml);
    proof {
        lemma_declaration_bounds(s@, p0 as int);
    }
    match parse_declaration(s, p0) {
        Option::None => Option::None,
        Option::Some((j, acc, ps)) => {
            let c = skip_ms(s, j);
            if c < s.len() && s[c] == ':' {
                let t0 = skip_ms(s, c + 1);
                match parse_type(s, t0) {
                    Option::Some((_, t)) => {
                        let e = Entry {
                            path: acc,
                            params: ps,
                            ty: Option::Some(t),
                            doc: Option::None,
                            children: Vec::new(),
                        };
                        proof {
                            assert(e@.children =~= Seq::<(Seq<char>, int)>::empty());
                        }
                        Option::Some(e)
                    },
                    Option::None => Option::None,
                }
            } else {
                Option::None
            }
        },
    }
}

/// A `SIGNAL:` line: marker, horizontal space, declaration with a
/// parameter group (an event declaration always carries one). The position
/// after the declaration is returned: the line's remainder becomes the
/// brief.
pub open spec fn spec_signal_line(s: Seq<char>) -> Option<(int, EntryView)> {
    if match_at(s, 0, "SIGNAL:"@) {
        let p0 = sp_end(s, "SIGNAL:"@.len() as int);
        match spec_declaration(s, p0) {
            Option::Some(d) => {
                if d.params is Some {
                    Option::Some(
                        (
                            d.end,
                            EntryView {
                                path: d.path,
                                params: d.params,
                                ty: Option::None,
                                doc: Option::None,
                                children: Seq::empty(),
                            },
                        ),
                    )
                } else {
                    Option::None
                }
            },
            Option::None => Option::None,
        }
    } else {
        Option::None
    }
}

/// Parses a `SIGNAL:` line into an entry and the position of the line's
/// remainder.
pub fn parse_signal_line(s: &Vec<char>) -> (r: Option<(usize, Entry)>)
    ensures
        match r {
            Option::Some((j, e)) => spec_signal_line(s@) == Option::Some((j as int, e@)) && j
                <= s@.len(),
            Option::None => spec_signal_line(s@) is None,
        },
{
    if !match_lit(s, 0, "SIGNAL:") {
        return Option::None;
    }
    let ml = "SIGNAL:".unicode_len();
    let p0 = skip_sp(s, ml);
    match parse_declaration(s, p0) {
        Option::Some((j, acc, ps)) => {
            if ps.is_some() {
                let e = Entry {
                    path: acc,
                    params: ps,
                    ty: Option::None,
                    doc: Option::None,
                    children: Vec::new(),
                };
                proof {
                    assert(e@.children =~= Seq::<(Seq<char>, int)>::empty());
                }
                Option::Some((j, e))
            } else {
                Option::None
            }
        },
        Option::None => Option::None,
    }
}

/// A `TYPE:` line: marker, horizontal space, base type.
pub open spec fn spec_type_line(s: Seq<char>) -> Option<TypeView> {
    if match_at(s, 0, "TYPE:"@) {
        let p0 = sp_end(s, "TYPE:"@.len() as int);
        match spec_base_type(s, p0) {
            Option::Some((_, t)) => Option::Some(t),
            Option::None => Option::None,
        }
    } else {
        Option::None
    }
}

/// Parses a `TYPE:` line into the named base type.
pub fn parse_type_line(s: &Vec<char>) -> (r: Option<Type>)
    ensures
        match r {
            Option::Some(t) => spec_type_line(s@) == Option::Some(t@),
            Option::None => spec_type_line(s@) is None,
        },
{
    if !match_lit(s, 0, "TYPE:") {
        return Option::None;
    }
    let ml = "TYPE:".unicode_len();
    let p0 = skip_sp(s, ml);
    match parse_base_type(s, p0) {
        Option::Some((_, t)) => Option::Some(t),
        Option::None => Option::None,
    }
}

/// The head of a parameter-detail line: `- name`, optionally `(type)`.
pub open spec fn spec_detail_prefix(s: Seq<char>, i: int) -> Option<(int, ParameterView)> {
    let a0 = ms_end(s, i);
    if a0 < s.len() && s[a0] == '-' {
        let a = ms_end(s, a0 + 1);
        if has_ident(s, a) {
            let e = ident_end(s, a);
            let name = s.subrange(a, e);
            let c = ms_end(s, e);
            if c < s.len() && s[c] == '(' {
                let d = ms_end(s, c + 1);
                match spec_type(s, d) {
                    Option::Some((f, t)) => {
                        let g = ms_end(s, f);
                        if g < s.len() && s[g] == ')' {
                            Option::Some(
                                (g + 1, ParameterView { name, ty: Option::Some(t), doc: Seq::empty() }),
                            )
                        } else {
                            Option::Some(
                                (e, ParameterView { name, ty: Option::None, doc: Seq::empty() }),
                            )
                        }
                    },
                    Option::None => Option::Some(
                        (e, ParameterView { name, ty: Option::None, doc: Seq::empty() }),
                    ),
                }
            } else {
                Option::Some((e, ParameterView { name, ty: Option::None, doc: Seq::empty() }))
            }
        } else {
            Option::None
        }
    } else {
        Option::None
    }
}

pub proof fn lemma_detail_prefix_bounds(s: Seq<char>, i: int)
    requires
        0 <= i <= s.len(),
    ensures
        spec_detail_prefix(s, i) matches Option::Some((e, _)) ==> i < e <= s.len(),
{
    lemma_ms_end(s, i);
    let a0 = ms_end(s, i);
    if a0 < s.len() && s[a0] == '-' {
        lemma_ms_end(s, a0 + 1);
        let a = ms_end(s, a0 + 1);
        lemma_ident_end(s, a);
        if has_ident(s, a) {
            let e = ident_end(s, a);
            lemma_ms_end(s, e);
            let c = ms_end(s, e);
            if c < s.len() && s[c] == '(' {
                lemma_ms_end(s, c + 1);
                let d = ms_end(s, c + 1);
                lemma_spec_type_bounds(s, d);
                match spec_type(s, d) {
                    Option::Some((f, _)) => {
                        lemma_ms_end(s, f);
                    },
                    Option::None => {},
                }
            }
        }
    }
}

/// Parses the head of a parameter-detail line.
fn parse_detail_prefix(s: &Vec<char>, i: usize) -> (r: Option<(usize, Parameter)>)
    requires
        i <= s@.len(),
    ensures
        match r {
            Option::Some((j, p)) => spec_detail_prefix(s@, i as int) == Option::Some(
                (j as int, p@),
            ) && i < j <= s@.len(),
            Option::None => spec_detail_prefix(s@, i as int) is None,
        },
{
    proof {
        lemma_detail_prefix_bounds(s@, i as int);
    }
    let a0 = skip_ms(s, i);
    if a0 < s.len() && s[a0] == '-' {
        let a = skip_ms(s, a0 + 1);
        let e = skip_ident(s, a);
        if e > a {
            let name = string_of_range(s, a, e);
            let c = skip_ms(s, e);
            if c < s.len() && s[c] == '(' {
                let d = skip_ms(s, c + 1);
                match parse_type(s, d) {
                    Option::Some((f, t)) => {
                        let g = skip_ms(s, f);
                        if g < s.len() && s[g] == ')' {
                            Option::Some(
                                (g + 1, Parameter { name, ty: Option::Some(t), doc: String::new() }),
                            )
                        } else {
                            Option::Some(
                                (e, Parameter { name, ty: Option::None, doc: String::new() }),
                            )
                        }
                    },
                    Option::None => Option::Some(
                        (e, Parameter { name, ty: Option::None, doc: String::new() }),
                    ),
                }
            } else {
                Option::Some((e, Parameter { name, ty: Option::None, doc: String::new() }))
            }
        } else {
            Option::None
        }
    } else {
        Option::None
    }
}

/// The free-text documentation of a detail line: characters up to (and
/// including) the line break that precedes the next detail head, or up to
/// the block's end; runs of line breaks and following indentation collapse
/// to one space.
pub open spec fn spec_detail_doc(s: Seq<char>, i: int) -> (int, Seq<char>)
    decreases s.len() - i,
    when 0 <= i <= s.len()
    via spec_detail_doc_dec
{
    if i >= s.len() {
        (i, Seq::empty())
    } else if s[i] == '\n' || s[i] == '\r' {
        let w = ms_end(s, i + 1);
        if spec_detail_prefix(s, w) is Some {
            (i + 1, Seq::empty())
        } else {
            let (e, d) = spec_detail_doc(s, w);
            (e, seq![' '] + d)
        }
    } else {
        let (e, d) = spec_detail_doc(s, i + 1);
        (e, seq![s[i]] + d)
    }
}

#[via_fn]
proof fn spec_detail_doc_dec(s: Seq<char>, i: int) {
    if i < s.len() {
        lemma_ms_end(s, i + 1);
    }
}

pub proof fn lemma_detail_doc_bounds(s: Seq<char>, i: int)
    requires
        0 <= i <= s.len(),
    ensures
        i <= spec_detail_doc(s, i).0 <= s.len(),
    decreases s.len() - i,
{
    if i >= s.len() {
    } else if s[i] == '\n' || s[i] == '\r' {
        lemma_ms_end(s, i + 1);
        let w = ms_end(s, i + 1);
        if !(spec_detail_prefix(s, w) is Some) {
            lemma_detail_doc_bounds(s, w);
        }
    } else {
        lemma_detail_doc_bounds(s, i + 1);
    }
}

/// Parses the free-text documentation of a detail line.
fn parse_detail_doc(s: &Vec<char>, i: usize) -> (r: (usize, String))
    requires
        i <= s@.len(),
    ensures
        ({
            let (e, d) = spec_detail_doc(s@, i as int);
            &&& r.0 as int == e
            &&& r.1@ == d
            &&& i <= r.0 <= s@.len()
        }),
    decreases s@.len() - i,
{
    proof {
        lemma_detail_doc_bounds(s@, i as int);
    }
    if i >= s.len() {
        (i, String::new())
    } else if s[i] == '\n' || s[i] == '\r' {
        let w = skip_ms(s, i + 1);
        if parse_detail_prefix(s, w).is_some() {
            (i + 1, String::new())
        } else {
            let (e, d) = parse_detail_doc(s, w);
            let mut out = String::new();
            out.push(' ');
            out.append(d.as_str());
            proof {
                assert(out@ =~= seq![' '] + d@);
            }
            (e, out)
        }
    } else {
        let c = s[i];
        let (e, d) = parse_detail_doc(s, i + 1);
        let mut out = String::new();
        out.push(c);
        out.append(d.as_str());
        proof {
            assert(out@ =~= seq![s@[i as int]] + d@);
        }
        (e, out)
    }
}

/// A sequence with its leading spaces removed: the line-joining of the
/// documentation scan never contributes them to the front of a doc.
pub open spec fn drop_leading_spaces(d: Seq<char>) -> Seq<char>
    decreases d.len(),
{
    if d.len() > 0 && d[0] == ' ' {
        drop_leading_spaces(d.drop_first())
    } else {
        d
    }
}

/// One parameter-detail line: its head, horizontal space, then its
/// documentation with leading spaces stripped.
pub open spec fn spec_detail_line(s: Seq<char>, i: int) -> Option<(int, ParameterView)> {
    match spec_detail_prefix(s, i) {
        Option::Some((e, p)) => {
            let f = sp_end(s, e);
            let (g, doc) = spec_detail_doc(s, f);
            Option::Some((g, ParameterView { name: p.name, ty: p.ty, doc: drop_leading_spaces(doc) }))
        },
        Option::None => Option::None,
    }
}

pub proof fn lemma_detail_line_bounds(s: Seq<char>, i: int)
    requires
        0 <= i <= s.len(),
    ensures
        spec_detail_line(s, i) matches Option::Some((e, _)) ==> i < e <= s.len(),
{
    lemma_detail_prefix_bounds(s, i);
    match spec_detail_prefix(s, i) {
        Option::Some((e, _)) => {
            lemma_sp_end(s, e);
            lemma_detail_doc_bounds(s, sp_end(s, e));
        },
        Option::None => {},
    }
}

/// Parses one parameter-detail line.
pub fn parse_detail_line(s: &Vec<char>, i: usize) -> (r: Option<(usize, Parameter)>)
    requires
        i <= s@.len(),
    ensures
        match r {
            Option::Some((j, p)) => spec_detail_line(s@, i as int) == Option::Some(
                (j as int, p@),
            ) && i < j <= s@.len(),
            Option::None => spec_detail_line(s@, i as int) is None,
        },
{
    proof {
        lemma_detail_line_bounds(s@, i as int);
    }
    match parse_detail_prefix(s, i) {
        Option::Some((e, p)) => {
            let f = skip_sp(s, e);
            let (g, doc) = parse_detail_doc(s, f);
            let dc = crate::strutil::chars_of(doc.as_str());
            let mut a: usize = 0;
            proof {
                assert(doc@.skip(0) =~= doc@);
            }
            while a < dc.len() && dc[a] == ' '
                invariant
                    a <= dc@.len(),
                    dc@ == doc@,
                    drop_leading_spaces(doc@) == drop_leading_spaces(doc@.skip(a as int)),
                decreases dc@.len() - a,
            {
                proof {
                    assert(doc@.skip(a as int)[0] == doc@[a as int]);
                    assert(doc@.skip(a as int).drop_first() =~= doc@.skip(a as int + 1));
                }
                a = a + 1;
            }
            let stripped = crate::strutil::string_of_range(&dc, a, dc.len());
            proof {
                assert(doc@.skip(a as int) =~= doc@.subrange(a as int, doc@.len() as int));
                if a < dc@.len() {
                    assert(doc@.skip(a as int)[0] == doc@[a as int]);
                }
                assert(drop_leading_spaces(doc@.skip(a as int)) == doc@.skip(a as int));
            }
            Option::Some((g, Parameter { name: p.name, ty: p.ty, doc: stripped }))
        },
        Option::None => Option::None,
    }
}

/// First index at or after `i` whose parameter is named `name`, or `-1`.
pub open spec fn find_name_from(acc: Seq<ParameterView>, name: Seq<char>, i: int) -> int
    decreases acc.len() - i,
{
    if i < 0 || i >= acc.len() {
        -1
    } else if acc[i].name == name {
        i
    } else {
        find_name_from(acc, name, i + 1)
    }
}

/// First index whose parameter is named `name`, or `-1`.
pub open spec fn find_name(acc: Seq<ParameterView>, name: Seq<char>) -> int {
    find_name_from(acc, name, 0)
}

pub proof fn lemma_find_name_from(acc: Seq<ParameterView>, name: Seq<char>, i: int)
    requires
        0 <= i,
    ensures
        find_name_from(acc, name, i) == -1 || (i <= find_name_from(acc, name, i) < acc.len()
            && acc[find_name_from(acc, name, i)].name == name),
    decreases acc.len() - i,
{
    if 0 <= i < acc.len() && acc[i].name != name {
        lemma_find_name_from(acc, name, i + 1);
    }
}

/// Finds the parameter with the given name.
fn find_param_from(acc: &Vec<Parameter>, name: &str, i: usize) -> (r: Option<usize>)
    requires
        i <= acc@.len(),
    ensures
        ({
            let fv = find_name_from(acc@.map_values(|q: Parameter| q@), name@, i as int);
            match r {
                Option::Some(j) => fv == j as int && j < acc@.len(),
                Option::None => fv == -1,
            }
        }),
    decreases acc@.len() - i,
{
    proof {
        lemma_find_name_from(acc@.map_values(|q: Parameter| q@), name@, i as int);
    }
    if i >= acc.len() {
        Option::None
    } else if crate::strutil::str_eq(acc[i].name.as_str(), name) {
        Option::Some(i)
    } else {
        find_param_from(acc, name, i + 1)
    }
}

/// Finds the parameter with the given name.
pub fn find_param(acc: &Vec<Parameter>, name: &str) -> (r: Option<usize>)
    ensures
        ({
            let fv = find_name(acc@.map_values(|q: Parameter| q@), name@);
            match r {
                Option::Some(j) => fv == j as int && j < acc@.len(),
                Option::None => fv == -1,
            }
        }),
{
    find_param_from(acc, name, 0)
}

/// Inserting a detail entry into the name-keyed collection: a line about an
/// already seen name replaces that entry, a new name is appended.
pub open spec fn detail_insert(acc: Seq<ParameterView>, p: ParameterView) -> Seq<ParameterView> {
    let j = find_name(acc, p.name);
    if j >= 0 {
        acc.update(j, p)
    } else {
        acc.push(p)
    }
}

/// The whole detail block: detail lines as long as they parse, collected
/// name-keyed with the last line of a name winning.
pub open spec fn spec_detail_lines(s: Seq<char>, i: int, acc: Seq<ParameterView>) -> Seq<
    ParameterView,
>
    decreases s.len() - i,
    when 0 <= i <= s.len()
    via spec_detail_lines_dec
{
    match spec_detail_line(s, i) {
        Option::Some((e, p)) => spec_detail_lines(s, e, detail_insert(acc, p)),
        Option::None => acc,
    }
}

#[via_fn]
proof fn spec_detail_lines_dec(s: Seq<char>, i: int, acc: Seq<ParameterView>) {
    lemma_detail_line_bounds(s, i);
}

/// Parses a whole parameter-detail block into a name-keyed collection.
pub fn parse_detail_lines(s: &Vec<char>) -> (r: Vec<Parameter>)
    ensures
        r@.map_values(|q: Parameter| q@) == spec_detail_lines(s@, 0, Seq::empty()),
{
    let mut acc: Vec<Parameter> = Vec::new();
    proof {
        assert(acc@.map_values(|q: Parameter| q@) =~= Seq::<ParameterView>::empty());
    }
    let mut i: usize = 0;
    loop
        invariant
            i <= s@.len(),
            spec_detail_lines(s@, 0, Seq::empty()) == spec_detail_lines(
                s@,
                i as int,
                acc@.map_values(|q: Parameter| q@),
            ),
        ensures
            spec_detail_lines(s@, 0, Seq::empty()) == acc@.map_values(|q: Parameter| q@),
        decreases s@.len() - i,
    {
        match parse_detail_line(s, i) {
            Option::Some((e, p)) => {
                let ghost accv = acc@.map_values(|q: Parameter| q@);
                let ghost pv = p@;
                proof {
                    lemma_find_name_from(accv, pv.name, 0);
                }
                match find_param(&acc, p.name.as_str()) {
                    Option::Some(j) => {
                        acc.push(p);
                        acc.swap_remove(j);
                        proof {
                            assert(acc@.map_values(|q: Parameter| q@) =~= accv.update(
                                j as int,
                                pv,
                            ));
                        }
                    },
                    Option::None => {
                        acc.push(p);
                        proof {
                            assert(acc@.map_values(|q: Parameter| q@) =~= accv.push(pv));
                        }
                    },
                }
                i = e;
            },
            Option::None => {
                break;
            },
        }
    }
    acc
}

/// Parses an ancestry access.
fn parse_ancestry(s: &Vec<char>, i: usize) -> (r: Option<(usize, Access)>)
    requires
        i <= s@.len(),
    ensures
        match r {
            Option::Some((j, a)) => spec_ancestry(s@, i as int) == Option::Some(
                (j as int, a@),
            ) && i < j <= s@.len(),
            Option::None => spec_ancestry(s@, i as int) is None,
        },
{
    proof {
        lemma_ident_end(s@, i as int);
        lemma_nsid_end(s@, i as int);
    }
    let e0 = skip_ident(s, i);
    if e0 > i {
        let ne = skip_nsid(s, i);
        let path = string_of_range(s, i, ne);
        Option::Some((ne, Access::Ancestry { path }))
    } else {
        Option::None
    }
}

} // verus!
