//! The scheme registry: an arena of loaded scheme documents, verified
//! lazily and memoized.
//!
//! Each document is appended once at load time and never moves; every
//! cross-scheme reference is a name lookup through the registry's own
//! table. Verification derives a scheme's binding map (merging `@INCLUDE`
//! inclusions recursively), its remap layers, and its transform
//! definitions; a set of currently-resolving (scheme, subpath) pairs
//! catches inclusion cycles.

use vstd::prelude::*;
use crate::bindings::BindingMap;
use crate::bindings::lemma_map_model_insert;
use crate::bindings::map_model;
use crate::configs::BindFunction;
use crate::configs::ConfigError;
use crate::doc::Context;
use crate::doc::DocTable;
use crate::doc::DocVal;
use crate::doc::DocValue;
use crate::doc::GetErrKind;
use crate::doc::TableGetError;
use crate::doc::dv;
use crate::doc::get_table;
use crate::doc::table_lookup;
use crate::doc::text_outcome;
use crate::engine::chars_to_string;
use crate::engine::first_esc;
use crate::engine::lemma_first_esc_bounds;
use crate::engine::to_chars;

verus! {

/// One scheme document as loaded: its identity, its origin, and its raw
/// table. Raw documents never change after loading.
#[derive(Debug)]
pub struct SchemeDoc {
    pub name: String,
    pub root_context: String,
    pub table: DocTable,
}

/// A scheme's derived, verified content.
#[derive(Debug)]
pub struct Scheme {
    /// The merged binding map.
    pub bindings: BindingMap,
    /// The named remap layers, in declaration order.
    pub remaps: Vec<(String, BindingMap)>,
    /// The named transform definitions, in declaration order.
    pub functions: Vec<(String, BindFunction)>,
    /// Where the scheme was loaded from.
    pub root_context: String,
}

/// The first entry with the given name in an association list.
pub open spec fn assoc_find<T>(s: Seq<(String, T)>, name: Seq<char>) -> Option<T>
    decreases s.len(),
{
    if s.len() == 0 {
        None
    } else if s[0].0@ == name {
        Some(s[0].1)
    } else {
        assoc_find(s.drop_first(), name)
    }
}

proof fn lemma_assoc_find_skip<T>(s: Seq<(String, T)>, name: Seq<char>, i: int)
    requires
        0 <= i <= s.len(),
        forall|j: int| 0 <= j < i ==> s[j].0@ != name,
    ensures
        assoc_find(s, name) == assoc_find(s.skip(i), name),
    decreases i,
{
    if i > 0 {
        lemma_assoc_find_skip(s, name, i - 1);
        assert(s.skip(i - 1).drop_first() =~= s.skip(i));
        assert(s.skip(i - 1)[0] == s[i - 1]);
    } else {
        assert(s.skip(0) =~= s);
    }
}

/// Look a name up in an association list.
fn assoc_get<'a, T>(v: &'a Vec<(String, T)>, name: &String) -> (r: Option<&'a T>)
    ensures
        match r {
            Some(t) => assoc_find(v@, name@) == Some(*t),
            None => assoc_find(v@, name@) is None,
        },
{
    let n = v.len();
    let mut i: usize = 0;
    while i < n
        invariant
            i <= n,
            n == v@.len(),
            forall|j: int| 0 <= j < i ==> (#[trigger] v@[j]).0@ != name@,
        decreases n - i,
    {
        if v[i].0 == *name {
            proof {
                lemma_assoc_find_skip(v@, name@, i as int);
                assert(v@.skip(i as int)[0] == v@[i as int]);
            }
            return Some(&v[i].1);
        }
        i = i + 1;
    }
    proof {
        lemma_assoc_find_skip(v@, name@, n as int);
        assert(v@.skip(n as int).len() == 0);
    }
    None
}

impl Scheme {
    /// The remap layer of the given name, if the scheme declares one.
    pub fn remap_layer<'a>(&'a self, name: &String) -> (r: Option<&'a BindingMap>)
        ensures
            match r {
                Some(m) => assoc_find(self.remaps@, name@) == Some(*m),
                None => assoc_find(self.remaps@, name@) is None,
            },
    {
        assoc_get(&self.remaps, name)
    }

    /// The transform definition of the given name, if the scheme
    /// declares one.
    pub fn function_def<'a>(&'a self, name: &String) -> (r: Option<&'a BindFunction>)
        ensures
            match r {
                Some(f) => assoc_find(self.functions@, name@) == Some(*f),
                None => assoc_find(self.functions@, name@) is None,
            },
    {
        assoc_get(&self.functions, name)
    }
}

/// The names of the loaded documents, in load order.
pub open spec fn names_of(ds: Seq<SchemeDoc>) -> Seq<Seq<char>> {
    Seq::new(ds.len(), |i: int| ds[i].name@)
}

/// The index of the last document with the given name, or -1: a scheme
/// loaded later shadows an earlier one of the same name.
pub open spec fn last_index_of(names: Seq<Seq<char>>, name: Seq<char>) -> int
    decreases names.len(),
{
    if names.len() == 0 {
        -1
    } else if names.last() == name {
        names.len() - 1
    } else {
        last_index_of(names.drop_last(), name)
    }
}

pub proof fn lemma_last_index_bounds(names: Seq<Seq<char>>, name: Seq<char>)
    ensures
        -1 <= last_index_of(names, name) < names.len(),
        last_index_of(names, name) >= 0 ==> names[last_index_of(names, name)] == name,
        last_index_of(names, name) == -1 ==> forall|j: int|
            0 <= j < names.len() ==> names[j] != name,
        forall|j: int|
            last_index_of(names, name) < j < names.len() ==> names[j] != name,
    decreases names.len(),
{
    if names.len() > 0 && names.last() != name {
        lemma_last_index_bounds(names.drop_last(), name);
        assert forall|j: int|
            last_index_of(names, name) < j < names.len() implies names[j] != name by {
            if j < names.len() - 1 {
                assert(names.drop_last()[j] == names[j]);
            }
        }
        if last_index_of(names, name) == -1 {
            assert forall|j: int| 0 <= j < names.len() implies names[j] != name by {
                if j < names.len() - 1 {
                    assert(names.drop_last()[j] == names[j]);
                }
            }
        }
    }
}

/// The value of `key` read directly off a table, later entries shadowing
/// earlier ones, non-text entries ignored.
pub open spec fn direct_get(tv: Seq<(Seq<char>, DocVal)>, key: Seq<char>) -> Option<Seq<char>>
    decreases tv.len(),
{
    if tv.len() == 0 {
        None
    } else if tv.last().0 == key && tv.last().1 is Text {
        Some(tv.last().1->Text_0)
    } else {
        direct_get(tv.drop_last(), key)
    }
}

/// Every entry of the table is text.
pub open spec fn all_text_entries(tv: Seq<(Seq<char>, DocVal)>) -> bool {
    forall|j: int| 0 <= j < tv.len() ==> (#[trigger] tv[j]).1 is Text
}

/// Every entry of the table is either a binding (text) or a nested
/// group (a sub-table, reachable only through an inclusion subpath).
pub open spec fn bindable_entries(tv: Seq<(Seq<char>, DocVal)>) -> bool {
    forall|j: int| 0 <= j < tv.len() ==> ((#[trigger] tv[j]).1 is Text || tv[j].1 is Table)
}

/// Every entry that is not an inclusion request is a binding (text) or
/// a nested group (a sub-table); no scalar of another type stands in
/// the table.
pub open spec fn plain_entries_ok(tv: Seq<(Seq<char>, DocVal)>) -> bool {
    forall|j: int|
        0 <= j < tv.len() && (#[trigger] tv[j]).0 != "@INCLUDE"@ ==> (tv[j].1 is Text || tv[j].1
            is Table)
}

/// The position of the first entry, at or after `i`, that is neither a
/// binding (text) nor a nested group (table); the table's length when
/// every entry is fine.
pub open spec fn first_bad_from(tv: Seq<(Seq<char>, DocVal)>, i: int) -> int
    decreases tv.len() - i,
{
    if i < 0 || i >= tv.len() {
        tv.len() as int
    } else if !(tv[i].1 is Text || tv[i].1 is Table) {
        i
    } else {
        first_bad_from(tv, i + 1)
    }
}

proof fn lemma_first_bad_skip(tv: Seq<(Seq<char>, DocVal)>, i: int)
    requires
        0 <= i <= tv.len(),
        forall|j: int| 0 <= j < i ==> ((#[trigger] tv[j]).1 is Text || tv[j].1 is Table),
    ensures
        first_bad_from(tv, 0) == first_bad_from(tv, i),
    decreases i,
{
    if i > 0 {
        lemma_first_bad_skip(tv, i - 1);
    }
}

/// No entry of the table asks for an inclusion.
pub open spec fn include_free(tv: Seq<(Seq<char>, DocVal)>) -> bool {
    forall|j: int| 0 <= j < tv.len() ==> (#[trigger] tv[j]).0 != "@INCLUDE"@
}

proof fn lemma_direct_get_snoc(tv: Seq<(Seq<char>, DocVal)>, i: int)
    requires
        0 <= i < tv.len(),
    ensures
        tv[i].1 is Text ==> direct_get(tv.subrange(0, i + 1), tv[i].0) == Some(
            tv[i].1->Text_0,
        ),
        forall|k: Seq<char>|
            k != tv[i].0 ==> direct_get(tv.subrange(0, i + 1), k) == direct_get(
                tv.subrange(0, i),
                k,
            ),
        !(tv[i].1 is Text) ==> forall|k: Seq<char>|
            direct_get(tv.subrange(0, i + 1), k) == direct_get(tv.subrange(0, i), k),
{
    let ext = tv.subrange(0, i + 1);
    assert(ext.last() == tv[i]);
    assert(ext.drop_last() =~= tv.subrange(0, i));
}

/// Parse a table as a plain binding map: every entry must be text; later
/// entries shadow earlier ones. No inclusion support: this is how remap
/// layers and transform tables are read.
pub fn direct_bindmap(t: &DocTable, ctx: &Context) -> (r: Result<BindingMap, ConfigError>)
    ensures
        match r {
            Ok(m) => {
                &&& all_text_entries(t@)
                &&& m.wf()
                &&& forall|k: Seq<char>| #[trigger] m.spec_get(k) == direct_get(t@, k)
            },
            Err(_) => !all_text_entries(t@),
        },
{
    let mut m = BindingMap::new();
    let n = t.len();
    let mut i: usize = 0;
    proof {
        assert(t@.subrange(0, 0) =~= Seq::<(Seq<char>, DocVal)>::empty());
    }
    while i < n
        invariant
            n == t@.len(),
            i <= n,
            m.wf(),
            forall|j: int| 0 <= j < i ==> (#[trigger] t@[j]).1 is Text,
            forall|k: Seq<char>| #[trigger] m.spec_get(k) == direct_get(t@.subrange(0, i as int), k),
        decreases n - i,
    {
        let (key, val) = t.entry_at(i);
        match val {
            DocValue::Text(s) => {
                let ghost pre = m;
                m.insert(key.clone(), s.clone());
                proof {
                    lemma_direct_get_snoc(t@, i as int);
                    assert(t@[i as int].0 == key@ && t@[i as int].1 == dv(
                        DocValue::Text(*s),
                    ));
                    assert forall|k: Seq<char>| #[trigger] m.spec_get(k) == direct_get(
                        t@.subrange(0, i + 1),
                        k,
                    ) by {
                        if k == key@ {
                            assert(m.spec_get(k) == Some(s@));
                        } else {
                            assert(m.spec_get(k) == pre.spec_get(k));
                        }
                    }
                }
            },
            _ => {
                proof {
                    assert(!((#[trigger] t@[i as int]).1 is Text));
                }
                return Err(
                    ConfigError::TableGet(
                        TableGetError { kind: GetErrKind::WrongType, context: ctx.with(key) },
                    ),
                );
            },
        }
        i = i + 1;
    }
    proof {
        assert(t@.subrange(0, n as int) =~= t@);
    }
    Ok(m)
}

/// Split an inclusion reference at its first dot: `"scheme.sub.path"`
/// names scheme `"scheme"` and subpath `"sub.path"`; without a dot the
/// whole string is the scheme name and the subpath is empty.
pub fn split_reference(s: &String) -> (r: (String, String))
    ensures
        ({
            let k = first_esc(s@, '.');
            if k < s@.len() {
                r.0@ == s@.subrange(0, k) && r.1@ == s@.skip(k + 1)
            } else {
                r.0@ == s@ && r.1@.len() == 0
            }
        }),
{
    proof {
        lemma_first_esc_bounds(s@, '.');
    }
    let tc = to_chars(s.as_str());
    let n = tc.len();
    let mut j: usize = 0;
    while j < n && tc[j] != '.'
        invariant
            j <= n,
            n == tc@.len(),
            forall|m: int| 0 <= m < j ==> tc@[m] != '.',
        decreases n - j,
    {
        j = j + 1;
    }
    proof {
        crate::engine::lemma_first_esc_at(tc@, '.', j as int);
    }
    let mut head: Vec<char> = Vec::new();
    let mut m: usize = 0;
    while m < j
        invariant
            m <= j <= n,
            n == tc@.len(),
            head@ =~= tc@.subrange(0, m as int),
        decreases j - m,
    {
        head.push(tc[m]);
        m = m + 1;
    }
    let mut tail: Vec<char> = Vec::new();
    if j < n {
        let mut q: usize = j + 1;
        while q < n
            invariant
                j + 1 <= q <= n,
                n == tc@.len(),
                tail@ =~= tc@.subrange(j + 1, q as int),
            decreases n - q,
        {
            tail.push(tc[q]);
            q = q + 1;
        }
        proof {
            assert(tail@ =~= tc@.skip(j + 1));
        }
    }
    proof {
        if j == n {
            assert(head@ =~= s@);
        }
    }
    (chars_to_string(&head), chars_to_string(&tail))
}

/// The parsed remap layers agree with the raw `remaps` table: one layer
/// per entry, each a plain binding map of the entry's sub-table.
pub open spec fn remaps_match(rt: Seq<(Seq<char>, DocVal)>, rs: Seq<(String, BindingMap)>) -> bool {
    &&& rs.len() == rt.len()
    &&& forall|j: int|
        0 <= j < rt.len() ==> {
            &&& (#[trigger] rt[j]).1 is Table
            &&& rs[j].0@ == rt[j].0
            &&& rs[j].1.wf()
            &&& forall|k: Seq<char>| #[trigger] rs[j].1.spec_get(k) == direct_get(
                rt[j].1->Table_0,
                k,
            )
        }
}

/// The parsed transform definitions agree with the raw `functions`
/// table: one definition per entry, with its `shell` and `command`.
pub open spec fn functions_match(
    ft: Seq<(Seq<char>, DocVal)>,
    fs: Seq<(String, BindFunction)>,
) -> bool {
    &&& fs.len() == ft.len()
    &&& forall|j: int|
        0 <= j < ft.len() ==> {
            &&& (#[trigger] ft[j]).1 is Table
            &&& fs[j].0@ == ft[j].0
            &&& text_outcome(ft[j].1->Table_0, "shell"@) == Some(fs[j].1.shell@)
            &&& text_outcome(ft[j].1->Table_0, "command"@) == Some(fs[j].1.rcommand@)
        }
}

/// A verified scheme's derived content agrees with its raw document: the
/// origin is kept; a `bindings` table exists, and an inclusion-free one is
/// read off exactly; remap layers and transforms mirror their tables
/// entry by entry.
pub open spec fn scheme_matches(doc: SchemeDoc, s: Scheme) -> bool {
    let tv = doc.table@;
    &&& s.root_context@ == doc.root_context@
    &&& s.bindings.wf()
    &&& table_lookup(tv, "bindings"@) matches Some(DocVal::Table(_))
    &&& (table_lookup(tv, "bindings"@) matches Some(DocVal::Table(bt)) ==> (include_free(bt)
        ==> bindable_entries(bt) && forall|k: Seq<char>| #[trigger] s.bindings.spec_get(k)
            == direct_get(bt, k)))
    &&& (table_lookup(tv, "bindings"@) matches Some(DocVal::Table(bt)) ==> direct_keys_in(
        s.bindings,
        bt,
    ))
    &&& (table_lookup(tv, "bindings"@) matches Some(DocVal::Table(bt)) ==> plain_entries_ok(bt))
    &&& match table_lookup(tv, "remaps"@) {
        None => s.remaps@.len() == 0,
        Some(DocVal::Table(rt)) => remaps_match(rt, s.remaps@),
        Some(_) => false,
    }
    &&& match table_lookup(tv, "functions"@) {
        None => s.functions@.len() == 0,
        Some(DocVal::Table(ft)) => functions_match(ft, s.functions@),
        Some(_) => false,
    }
}

/// Every verified slot agrees with its document.
pub open spec fn states_wf(ds: Seq<SchemeDoc>, st: Seq<Option<Scheme>>) -> bool {
    &&& st.len() == ds.len()
    &&& forall|i: int|
        0 <= i < st.len() && (#[trigger] st[i]) is Some ==> scheme_matches(ds[i], st[i]->0)
}

/// The scheme name of an inclusion reference: everything before the
/// first dot, or the whole reference.
pub open spec fn ref_scheme(r: Seq<char>) -> Seq<char> {
    let k = first_esc(r, '.');
    if k < r.len() {
        r.subrange(0, k)
    } else {
        r
    }
}

/// The subpath of an inclusion reference: everything after the first
/// dot, or nothing.
pub open spec fn ref_subpath(r: Seq<char>) -> Seq<char> {
    let k = first_esc(r, '.');
    if k < r.len() {
        r.skip(k + 1)
    } else {
        Seq::empty()
    }
}

/// The raw table that an inclusion reference denotes: the referenced
/// scheme's `bindings` table, narrowed by the subpath when there is one;
/// `None` when anything along the way does not resolve.
pub open spec fn include_target(ds: Seq<SchemeDoc>, r: Seq<char>) -> Option<
    Seq<(Seq<char>, DocVal)>,
> {
    let idx = last_index_of(names_of(ds), ref_scheme(r));
    if idx < 0 {
        None
    } else {
        match table_lookup(ds[idx].table@, "bindings"@) {
            Some(DocVal::Table(bt)) => if ref_subpath(r).len() == 0 {
                Some(bt)
            } else {
                match table_lookup(bt, ref_subpath(r)) {
                    Some(DocVal::Table(st)) => Some(st),
                    _ => None,
                }
            },
            _ => None,
        }
    }
}

/// Every direct (text) binding of the table is present in the map.
pub open spec fn direct_keys_in(m: BindingMap, tv: Seq<(Seq<char>, DocVal)>) -> bool {
    forall|p: int|
        0 <= p < tv.len() && (#[trigger] tv[p]).1 is Text ==> m.spec_get(tv[p].0) is Some
}

/// Every inclusion reference of the table resolves to a raw table whose
/// direct bindings are all present in the map.
pub open spec fn includes_resolved(
    ds: Seq<SchemeDoc>,
    tv: Seq<(Seq<char>, DocVal)>,
    m: BindingMap,
) -> bool {
    forall|j: int, q: int|
        #![trigger tv[j].1->List_0[q]]
        (0 <= j < tv.len() && tv[j].0 == "@INCLUDE"@ && tv[j].1 is List && 0 <= q
            < tv[j].1->List_0.len() && tv[j].1->List_0[q] is Text) ==> (include_target(
            ds,
            tv[j].1->List_0[q]->Text_0,
        ) matches Some(st) && direct_keys_in(m, st))
}

/// Every inclusion that the scheme's bindings table asks for resolved,
/// and everything it directly provides ended up in the derived map.
pub open spec fn bindings_includes_ok(ds: Seq<SchemeDoc>, doc: SchemeDoc, s: Scheme) -> bool {
    table_lookup(doc.table@, "bindings"@) matches Some(DocVal::Table(bt)) ==> includes_resolved(
        ds,
        bt,
        s.bindings,
    )
}

proof fn lemma_direct_extend(tv: Seq<(Seq<char>, DocVal)>, i: int, m: BindingMap)
    requires
        0 <= i < tv.len(),
        direct_keys_in(m, tv.subrange(0, i)),
        tv[i].1 is Text ==> m.spec_get(tv[i].0) is Some,
    ensures
        direct_keys_in(m, tv.subrange(0, i + 1)),
{
    let ext = tv.subrange(0, i + 1);
    assert forall|p: int|
        0 <= p < ext.len() && (#[trigger] ext[p]).1 is Text implies m.spec_get(ext[p].0)
        is Some by {
        assert(ext[p] == tv[p]);
        if p < i {
            assert(tv.subrange(0, i)[p] == tv[p]);
        }
    }
}

proof fn lemma_resolved_extend_plain(
    ds: Seq<SchemeDoc>,
    tv: Seq<(Seq<char>, DocVal)>,
    i: int,
    m: BindingMap,
)
    requires
        0 <= i < tv.len(),
        tv[i].0 != "@INCLUDE"@,
        includes_resolved(ds, tv.subrange(0, i), m),
    ensures
        includes_resolved(ds, tv.subrange(0, i + 1), m),
{
    let ext = tv.subrange(0, i + 1);
    assert forall|j: int, q2: int|
        #![trigger ext[j].1->List_0[q2]]
        (0 <= j < ext.len() && ext[j].0 == "@INCLUDE"@ && ext[j].1 is List && 0 <= q2
            < ext[j].1->List_0.len() && ext[j].1->List_0[q2] is Text) implies (include_target(
        ds,
        ext[j].1->List_0[q2]->Text_0,
    ) matches Some(st) && direct_keys_in(m, st)) by {
        assert(ext[j] == tv[j]);
        assert(j < i);
        assert(tv.subrange(0, i)[j] == tv[j]);
        assert(tv.subrange(0, i)[j].1->List_0[q2] is Text);
    }
}

proof fn lemma_resolved_extend_include(
    ds: Seq<SchemeDoc>,
    tv: Seq<(Seq<char>, DocVal)>,
    i: int,
    m: BindingMap,
    lst: Seq<DocVal>,
)
    requires
        0 <= i < tv.len(),
        tv[i].0 == "@INCLUDE"@,
        tv[i].1 is List,
        tv[i].1->List_0 == lst,
        includes_resolved(ds, tv.subrange(0, i), m),
        forall|q: int|
            0 <= q < lst.len() && (#[trigger] lst[q]) is Text ==> (include_target(
                ds,
                lst[q]->Text_0,
            ) matches Some(st) && direct_keys_in(m, st)),
    ensures
        includes_resolved(ds, tv.subrange(0, i + 1), m),
{
    let ext = tv.subrange(0, i + 1);
    assert forall|j: int, q2: int|
        #![trigger ext[j].1->List_0[q2]]
        (0 <= j < ext.len() && ext[j].0 == "@INCLUDE"@ && ext[j].1 is List && 0 <= q2
            < ext[j].1->List_0.len() && ext[j].1->List_0[q2] is Text) implies (include_target(
        ds,
        ext[j].1->List_0[q2]->Text_0,
    ) matches Some(st) && direct_keys_in(m, st)) by {
        assert(ext[j] == tv[j]);
        if j < i {
            assert(tv.subrange(0, i)[j] == tv[j]);
            assert(tv.subrange(0, i)[j].1->List_0[q2] is Text);
        } else {
            assert(lst[q2] is Text);
        }
    }
}

proof fn lemma_grow_direct(m1: BindingMap, m2: BindingMap, tv: Seq<(Seq<char>, DocVal)>)
    requires
        direct_keys_in(m1, tv),
        forall|k: Seq<char>| #[trigger] m1.spec_get(k) is Some ==> m2.spec_get(k) is Some,
    ensures
        direct_keys_in(m2, tv),
{
}

proof fn lemma_grow_includes(
    ds: Seq<SchemeDoc>,
    tv: Seq<(Seq<char>, DocVal)>,
    m1: BindingMap,
    m2: BindingMap,
)
    requires
        includes_resolved(ds, tv, m1),
        forall|k: Seq<char>| #[trigger] m1.spec_get(k) is Some ==> m2.spec_get(k) is Some,
    ensures
        includes_resolved(ds, tv, m2),
{
    assert forall|j: int, q: int|
        #![trigger tv[j].1->List_0[q]]
        (0 <= j < tv.len() && tv[j].0 == "@INCLUDE"@ && tv[j].1 is List && 0 <= q
            < tv[j].1->List_0.len() && tv[j].1->List_0[q] is Text) implies (include_target(
        ds,
        tv[j].1->List_0[q]->Text_0,
    ) matches Some(st) && direct_keys_in(m2, st)) by {
        assert(include_target(ds, tv[j].1->List_0[q]->Text_0) matches Some(st)
            && direct_keys_in(m1, st));
    }
}

/// The (scheme, subpath) pair is in the currently-resolving set.
pub open spec fn in_guard(gv: Seq<(Seq<char>, Seq<char>)>, s: Seq<char>, p: Seq<char>) -> bool {
    exists|j: int| 0 <= j < gv.len() && gv[j] == (s, p)
}

/// The mathematical mirror of the bindings merge, from entry `i` of the
/// table on: a text entry binds its key (later entries shadow earlier
/// ones), a nested table is passed over, an `@INCLUDE` entry merges its
/// references in order, and anything else fails. `None` marks exactly
/// the failures of the merge itself; verification can also fail for
/// reasons outside the merge (a broken included scheme), so a computed
/// map always equals this mirror, while the mirror alone does not
/// promise success.
pub open spec fn merge_table(
    ds: Seq<SchemeDoc>,
    tv: Seq<(Seq<char>, DocVal)>,
    i: int,
    acc: Map<Seq<char>, Seq<char>>,
    gv: Seq<(Seq<char>, Seq<char>)>,
    fuel: nat,
) -> Option<Map<Seq<char>, Seq<char>>>
    decreases fuel, tv.len() - i, 1nat, 0nat,
{
    if i < 0 || i >= tv.len() {
        Some(acc)
    } else if tv[i].0 == "@INCLUDE"@ {
        if tv[i].1 matches DocVal::List(items) && crate::doc::all_text(items) {
            merge_includes(ds, tv, i, tv[i].1->List_0, 0, acc, gv, fuel)
        } else {
            None
        }
    } else {
        match tv[i].1 {
            DocVal::Text(s) => merge_table(ds, tv, i + 1, acc.insert(tv[i].0, s), gv, fuel),
            DocVal::Table(_) => merge_table(ds, tv, i + 1, acc, gv, fuel),
            _ => None,
        }
    }
}

/// Merge the inclusion references `items[q..]` of entry `i`, then the
/// rest of the table: each reference must not be on the resolving path,
/// must fit the budget, and must denote a raw table, which is merged
/// with the reference on the path.
pub open spec fn merge_includes(
    ds: Seq<SchemeDoc>,
    tv: Seq<(Seq<char>, DocVal)>,
    i: int,
    items: Seq<DocVal>,
    q: int,
    acc: Map<Seq<char>, Seq<char>>,
    gv: Seq<(Seq<char>, Seq<char>)>,
    fuel: nat,
) -> Option<Map<Seq<char>, Seq<char>>>
    decreases fuel, tv.len() - i, 0nat, items.len() - q,
{
    if q < 0 || q >= items.len() {
        if 0 <= i < tv.len() {
            merge_table(ds, tv, i + 1, acc, gv, fuel)
        } else {
            None
        }
    } else {
        let r = items[q]->Text_0;
        let pr = (ref_scheme(r), ref_subpath(r));
        if in_guard(gv, pr.0, pr.1) {
            None
        } else if fuel == 0 {
            None
        } else {
            match include_target(ds, r) {
                None => None,
                Some(sub) => match merge_table(ds, sub, 0, acc, gv.push(pr), (fuel - 1) as nat) {
                    None => None,
                    Some(acc2) => merge_includes(ds, tv, i, items, q + 1, acc2, gv, fuel),
                },
            }
        }
    }
}

/// A document whose three sections are all well-shaped and whose bindings
/// use no inclusion: verification of such a document must succeed.
/// The remaps and functions sections are well-shaped: each remap layer
/// a table of strings, each transform a table with string `shell` and
/// `command`. The bindings section is judged separately.
pub open spec fn sections_plain(tv: Seq<(Seq<char>, DocVal)>) -> bool {
    &&& match table_lookup(tv, "remaps"@) {
        None => true,
        Some(DocVal::Table(rt)) => forall|j: int|
            0 <= j < rt.len() ==> ((#[trigger] rt[j]).1 matches DocVal::Table(lt)
                && all_text_entries(lt)),
        Some(_) => false,
    }
    &&& match table_lookup(tv, "functions"@) {
        None => true,
        Some(DocVal::Table(ft)) => forall|j: int|
            0 <= j < ft.len() ==> ((#[trigger] ft[j]).1 matches DocVal::Table(ftab) && (
            text_outcome(ftab, "shell"@) is Some) && (text_outcome(ftab, "command"@) is Some)),
        Some(_) => false,
    }
}

pub open spec fn doc_plain(tv: Seq<(Seq<char>, DocVal)>) -> bool {
    &&& table_lookup(tv, "bindings"@) matches Some(DocVal::Table(bt)) && include_free(bt)
        && bindable_entries(bt)
    &&& sections_plain(tv)
}

/// Verification of the scheme at `idx` must succeed: its bindings table
/// exists and every step of its merge goes through (`p_ok`), and its
/// remaps and functions sections are well-shaped — recursively so for
/// every scheme an inclusion pulls in.
pub open spec fn v_ok(ds: Seq<SchemeDoc>, idx: int, gv: Seq<(Seq<char>, Seq<char>)>, fuel: nat) -> bool
    decreases fuel, 1nat, 0nat, 0nat, 0nat,
{
    &&& 0 <= idx < ds.len()
    &&& table_lookup(ds[idx].table@, "bindings"@) matches Some(DocVal::Table(bt)) && p_ok(
        ds,
        bt,
        0,
        gv,
        fuel,
    )
    &&& sections_plain(ds[idx].table@)
}

/// The bindings merge of `tv[i..]` succeeds: plain entries are bindings
/// or nested groups, and every inclusion goes through.
pub open spec fn p_ok(
    ds: Seq<SchemeDoc>,
    tv: Seq<(Seq<char>, DocVal)>,
    i: int,
    gv: Seq<(Seq<char>, Seq<char>)>,
    fuel: nat,
) -> bool
    decreases fuel, 0nat, tv.len() - i, 1nat, 0nat,
{
    if i < 0 || i >= tv.len() {
        true
    } else if tv[i].0 == "@INCLUDE"@ {
        (tv[i].1 matches DocVal::List(items) && crate::doc::all_text(items)) && inc_ok(
            ds,
            tv,
            i,
            tv[i].1->List_0,
            0,
            gv,
            fuel,
        )
    } else {
        (tv[i].1 is Text || tv[i].1 is Table) && p_ok(ds, tv, i + 1, gv, fuel)
    }
}

/// The inclusion references `items[q..]` of entry `i` all resolve and
/// verify, off the resolving path and within the budget, and the rest of
/// the table goes through too.
pub open spec fn inc_ok(
    ds: Seq<SchemeDoc>,
    tv: Seq<(Seq<char>, DocVal)>,
    i: int,
    items: Seq<DocVal>,
    q: int,
    gv: Seq<(Seq<char>, Seq<char>)>,
    fuel: nat,
) -> bool
    decreases fuel, 0nat, tv.len() - i, 0nat, items.len() - q,
{
    if q < 0 || q >= items.len() {
        if 0 <= i < tv.len() {
            p_ok(ds, tv, i + 1, gv, fuel)
        } else {
            true
        }
    } else {
        let r = items[q]->Text_0;
        let pr = (ref_scheme(r), ref_subpath(r));
        &&& !in_guard(gv, pr.0, pr.1)
        &&& fuel != 0
        &&& last_index_of(names_of(ds), pr.0) >= 0
        &&& v_ok(ds, last_index_of(names_of(ds), pr.0), gv.push(pr), (fuel - 1) as nat)
        &&& include_target(ds, r) matches Some(sub) && p_ok(ds, sub, 0, gv.push(pr), (fuel
            - 1) as nat)
        &&& inc_ok(ds, tv, i, items, q + 1, gv, fuel)
    }
}

/// Find the last document with the given name.
fn find_scheme(docs: &Vec<SchemeDoc>, name: &String) -> (r: Option<usize>)
    ensures
        match r {
            Some(i) => i < docs@.len() && last_index_of(names_of(docs@), name@) == i as int,
            None => last_index_of(names_of(docs@), name@) == -1,
        },
{
    proof {
        lemma_last_index_bounds(names_of(docs@), name@);
    }
    let n = docs.len();
    let mut i: usize = n;
    while i > 0
        invariant
            i <= n,
            n == docs@.len(),
            forall|j: int| i <= j < n ==> names_of(docs@)[j] != name@,
        decreases i,
    {
        i = i - 1;
        if docs[i].name == *name {
            proof {
                assert(names_of(docs@)[i as int] == name@);
                lemma_last_index_bounds(names_of(docs@), name@);
                let li = last_index_of(names_of(docs@), name@);
                assert(names_of(docs@)[li] == name@);
            }
            return Some(i);
        }
        proof {
            assert(names_of(docs@)[i as int] == docs@[i as int].name@);
        }
    }
    proof {
        lemma_last_index_bounds(names_of(docs@), name@);
        if last_index_of(names_of(docs@), name@) >= 0 {
            assert(names_of(docs@)[last_index_of(names_of(docs@), name@)] == name@);
        }
    }
    None
}

/// Whether a (scheme, subpath) pair is in the currently-resolving set.
fn guard_contains(guard: &Vec<(String, String)>, sname: &String, spath: &String) -> (r: bool)
    ensures
        r == exists|j: int|
            0 <= j < guard@.len() && (#[trigger] guard@[j]).0@ == sname@ && guard@[j].1@
                == spath@,
{
    let n = guard.len();
    let mut i: usize = 0;
    while i < n
        invariant
            i <= n,
            n == guard@.len(),
            forall|j: int|
                0 <= j < i ==> !((#[trigger] guard@[j]).0@ == sname@ && guard@[j].1@ == spath@),
        decreases n - i,
    {
        if guard[i].0 == *sname && guard[i].1 == *spath {
            return true;
        }
        i = i + 1;
    }
    false
}

/// How large a document value is, counting every node: the budget that
/// bounds any chain of inclusions through the registry.
fn value_size(v: &DocValue) -> (r: u64)
    decreases *v,
{
    match v {
        DocValue::Text(_) => 1,
        DocValue::Bool(_) => 1,
        DocValue::Other => 1,
        DocValue::List(items) => {
            let mut total: u64 = 1;
            let mut j: usize = 0;
            #[verifier::loop_isolation(false)]
            while j < items.len()
                invariant
                    j <= items@.len(),
                decreases items@.len() - j,
            {
                let s = value_size(&items[j]);
                total = if total <= u64::MAX - s {
                    total + s
                } else {
                    u64::MAX
                };
                j = j + 1;
            }
            total
        },
        DocValue::Table(t) => {
            let mut total: u64 = 1;
            let mut j: usize = 0;
            #[verifier::loop_isolation(false)]
            while j < t.entries.len()
                invariant
                    j <= t.entries@.len(),
                decreases t.entries@.len() - j,
            {
                let s = value_size(&t.entries[j].1);
                total = if total <= u64::MAX - s {
                    total + s
                } else {
                    u64::MAX
                };
                j = j + 1;
            }
            total
        },
    }
}

/// How large a table is, counting every node.
fn table_size(t: &DocTable) -> (r: u64) {
    let mut total: u64 = 1;
    let mut j: usize = 0;
    while j < t.entries.len()
        invariant
            j <= t.entries@.len(),
        decreases t.entries@.len() - j,
    {
        let s = value_size(&t.entries[j].1);
        total = if total <= u64::MAX - s {
            total + s
        } else {
            u64::MAX
        };
        j = j + 1;
    }
    total
}

/// Populate `map` from a bindings table: plain entries must be text and
/// are merged in order, later shadowing earlier; an `@INCLUDE` entry
/// lists references whose schemes are verified and whose raw bindings
/// (narrowed by the subpath) are merged recursively. The guard set
/// catches cyclic inclusion chains.
fn populate_bindings(
    docs: &Vec<SchemeDoc>,
    state: &mut Vec<Option<Scheme>>,
    map: &mut BindingMap,
    table: &DocTable,
    ctx: &Context,
    guard: &mut Vec<(String, String)>,
    fuel: u64,
) -> (r: Result<(), ConfigError>)
    requires
        states_wf(docs@, old(state)@),
        old(map).wf(),
    ensures
        states_wf(docs@, final(state)@),
        forall|j: int|
            0 <= j < old(state)@.len() && (#[trigger] old(state)@[j]) is Some ==> final(state)@[j] == old(state)@[j],
        final(map).wf(),
        r is Ok ==> final(guard)@ == old(guard)@,
        include_free(table@) ==> (r is Ok <==> bindable_entries(table@)),
        include_free(table@) ==> final(guard)@ == old(guard)@ && final(state)@ == old(state)@,
        (include_free(table@) && r is Ok) ==> forall|k: Seq<char>|
            #[trigger] final(map).spec_get(k) == (match direct_get(table@, k) {
                Some(v) => Some(v),
                None => old(map).spec_get(k),
            }),
        r is Ok ==> forall|k: Seq<char>| #[trigger] old(map).spec_get(k) is Some
            ==> final(map).spec_get(k) is Some,
        r is Ok ==> direct_keys_in(*final(map), table@),
        r is Ok ==> includes_resolved(docs@, table@, *final(map)),
        r is Ok ==> plain_entries_ok(table@),
        r is Ok ==> merge_table(
            docs@,
            table@,
            0,
            map_model(*old(map)),
            old(guard).deep_view(),
            fuel as nat,
        ) == Some(map_model(*final(map))),
        p_ok(docs@, table@, 0, old(guard).deep_view(), fuel as nat) ==> r is Ok,
        (include_free(table@) && !bindable_entries(table@)) ==> (r matches Err(
            ConfigError::TableGet(e),
        ) && ({
            let b = first_bad_from(table@, 0);
            &&& 0 <= b < table@.len()
            &&& e.kind is WrongType
            &&& e.context.root_view() == ctx.root_view()
            &&& e.context.keys_view() =~= ctx.keys_view().push(table@[b].0)
        })),
    decreases fuel, 0nat,
{
    let include_key = String::from_str("@INCLUDE");
    let n = table.len();
    let mut i: usize = 0;
    proof {
        assert(table@.subrange(0, 0) =~= Seq::<(Seq<char>, DocVal)>::empty());
    }
    while i < n
        invariant
            n == table@.len(),
            i <= n,
            include_key@ == "@INCLUDE"@,
            states_wf(docs@, state@),
            state@.len() == old(state)@.len(),
            forall|j: int|
                0 <= j < old(state)@.len() && (#[trigger] old(state)@[j]) is Some ==> state@[j]
                    == old(state)@[j],
            map.wf(),
            forall|k: Seq<char>| #[trigger] old(map).spec_get(k) is Some ==> map.spec_get(k)
                is Some,
            direct_keys_in(*map, table@.subrange(0, i as int)),
            includes_resolved(docs@, table@.subrange(0, i as int), *map),
            plain_entries_ok(table@.subrange(0, i as int)),
            merge_table(
                docs@,
                table@,
                0,
                map_model(*old(map)),
                old(guard).deep_view(),
                fuel as nat,
            ) == merge_table(
                docs@,
                table@,
                i as int,
                map_model(*map),
                old(guard).deep_view(),
                fuel as nat,
            ),
            p_ok(docs@, table@, 0, old(guard).deep_view(), fuel as nat) ==> p_ok(
                docs@,
                table@,
                i as int,
                old(guard).deep_view(),
                fuel as nat,
            ),
            guard@ == old(guard)@,
            include_free(table@) ==> state@ == old(state)@,
            include_free(table@) ==> forall|j: int|
                0 <= j < i ==> ((#[trigger] table@[j]).1 is Text || table@[j].1 is Table),
            include_free(table@) ==> forall|k: Seq<char>|
                #[trigger] map.spec_get(k) == (match direct_get(table@.subrange(0, i as int), k) {
                    Some(v) => Some(v),
                    None => old(map).spec_get(k),
                }),
        decreases n - i,
    {
        let (key, val) = table.entry_at(i);
        if *key == include_key {
            proof {
                assert((#[trigger] table@[i as int]).0 == "@INCLUDE"@);
                assert(!include_free(table@));
            }
            let items = match val {
                DocValue::List(items) => items,
                _ => {
                    return Err(
                        ConfigError::TableGet(
                            TableGetError {
                                kind: GetErrKind::WrongType,
                                context: ctx.with(&include_key),
                            },
                        ),
                    );
                },
            };
            let incs = match crate::doc::extract_array_strings(items, &ctx.with(&include_key)) {
                Ok(v) => v,
                Err(e) => {
                    return Err(ConfigError::TableGet(e));
                },
            };
            let ghost lst = crate::doc::dv_list(items@, 0);
            proof {
                assert(table@[i as int].1 == dv(*val));
                assert(table@[i as int].1->List_0 == lst);
                assert(incs.deep_view() == crate::doc::texts_of(lst));
            }
            let m = incs.len();
            proof {
                assert(incs.deep_view().len() == incs@.len());
                assert(merge_table(
                    docs@,
                    table@,
                    i as int,
                    map_model(*map),
                    old(guard).deep_view(),
                    fuel as nat,
                ) == merge_includes(
                    docs@,
                    table@,
                    i as int,
                    lst,
                    0,
                    map_model(*map),
                    old(guard).deep_view(),
                    fuel as nat,
                ));
            }
            let mut q: usize = 0;
            while q < m
                invariant
                    q <= m,
                    m == incs@.len(),
                    m == lst.len(),
                    lst == table@[i as int].1->List_0,
                    0 <= i < table@.len(),
                    table@[i as int].0 == "@INCLUDE"@,
                    table@[i as int].1 is List,
                    crate::doc::all_text(lst),
                    incs.deep_view() == crate::doc::texts_of(lst),
                    !include_free(table@),
                    states_wf(docs@, state@),
                    state@.len() == old(state)@.len(),
                    forall|j: int|
                        0 <= j < old(state)@.len() && (#[trigger] old(state)@[j]) is Some
                            ==> state@[j] == old(state)@[j],
                    map.wf(),
                    forall|k: Seq<char>| #[trigger] old(map).spec_get(k) is Some
                        ==> map.spec_get(k) is Some,
                    direct_keys_in(*map, table@.subrange(0, i as int)),
                    includes_resolved(docs@, table@.subrange(0, i as int), *map),
                    forall|q2: int|
                        #![trigger lst[q2]]
                        0 <= q2 < q ==> (include_target(docs@, lst[q2]->Text_0) matches Some(
                            st,
                        ) && direct_keys_in(*map, st)),
                    merge_table(
                        docs@,
                        table@,
                        0,
                        map_model(*old(map)),
                        old(guard).deep_view(),
                        fuel as nat,
                    ) == merge_includes(
                        docs@,
                        table@,
                        i as int,
                        lst,
                        q as int,
                        map_model(*map),
                        old(guard).deep_view(),
                        fuel as nat,
                    ),
                    p_ok(docs@, table@, 0, old(guard).deep_view(), fuel as nat) ==> inc_ok(
                        docs@,
                        table@,
                        i as int,
                        lst,
                        q as int,
                        old(guard).deep_view(),
                        fuel as nat,
                    ),
                    guard@ == old(guard)@,
                decreases m - q,
            {
                let inc = &incs[q];
                let (sname, spath) = split_reference(inc);
                if guard_contains(guard, &sname, &spath) {
                    proof {
                        assert(inc@ == incs.deep_view()[q as int]);
                        assert(inc@ == lst[q as int]->Text_0);
                        assert(sname@ == ref_scheme(inc@));
                        assert(spath@ == ref_subpath(inc@));
                        let gv0 = old(guard).deep_view();
                        let w = choose|j: int|
                            0 <= j < guard@.len() && guard@[j].0@ == sname@ && guard@[j].1@
                                == spath@;
                        assert(gv0[w] == (sname@, spath@));
                        assert(in_guard(gv0, sname@, spath@));
                    }
                    return Err(ConfigError::Cycle(ctx.with(&include_key), inc.clone()));
                }
                // The budget started as the total size of every loaded
                // document, and an acyclic chain passes each reference at
                // most once, so only a circling chain can drain it.
                if fuel == 0 {
                    return Err(ConfigError::Cycle(ctx.with(&include_key), inc.clone()));
                }
                let si = match find_scheme(docs, &sname) {
                    Some(si) => si,
                    None => {
                        return Err(ConfigError::SchemeExpected(ctx.with(&include_key), sname));
                    },
                };
                proof {
                    assert(inc@ == incs.deep_view()[q as int]);
                    assert(inc@ == lst[q as int]->Text_0);
                    assert(sname@ == ref_scheme(inc@));
                    assert(spath@ == ref_subpath(inc@));
                }
                let ghost pre_guard = guard@;
                guard.push((sname, spath.clone()));
                let ghost gcall = guard.deep_view();
                proof {
                    let gv0 = old(guard).deep_view();
                    assert forall|j2: int| 0 <= j2 < gcall.len() implies #[trigger] gcall[j2]
                        == gv0.push((sname@, spath@))[j2] by {
                        assert(gcall[j2] == (guard@[j2].0@, guard@[j2].1@));
                        if j2 < pre_guard.len() {
                            assert(guard@[j2] == pre_guard[j2]);
                            assert(gv0[j2] == (pre_guard[j2].0@, pre_guard[j2].1@));
                        }
                    }
                    assert(gcall =~= gv0.push((sname@, spath@)));
                }
                match verify_at(docs, state, si, guard, fuel - 1) {
                    Ok(()) => {},
                    Err(e) => {
                        return Err(e);
                    },
                }
                let sctx = Context::from_root(docs[si].root_context.clone());
                let bkey = String::from_str("bindings");
                let nb = match get_table(&docs[si].table, &sctx, &bkey) {
                    Ok(t) => t,
                    Err(e) => {
                        return Err(ConfigError::TableRefExpect(ctx.with(&include_key), e));
                    },
                };
                let (nb2, nctx) = if spath.as_str().is_empty() {
                    (nb, sctx.with(&bkey))
                } else {
                    match get_table(nb, &sctx.with(&bkey), &spath) {
                        Ok(t) => (t, sctx.with(&bkey).with(&spath)),
                        Err(e) => {
                            return Err(ConfigError::TableRefExpect(ctx.with(&include_key), e));
                        },
                    }
                };
                proof {
                    assert(include_target(docs@, inc@) == Some(nb2@));
                }
                let ghost mpre = *map;
                match populate_bindings(docs, state, map, nb2, &nctx, guard, fuel - 1) {
                    Ok(()) => {},
                    Err(e) => {
                        return Err(e);
                    },
                }
                guard.pop();
                proof {
                    assert(guard@ =~= pre_guard);
                    let gv0 = old(guard).deep_view();
                    let pr = (sname@, spath@);
                    assert(!in_guard(gv0, sname@, spath@)) by {
                        assert forall|j2: int| 0 <= j2 < gv0.len() implies #[trigger] gv0[j2]
                            != pr by {
                            assert(gv0[j2] == (old(guard)@[j2].0@, old(guard)@[j2].1@));
                            if gv0[j2] == pr {
                                assert(old(guard)@[j2].0@ == sname@ && old(guard)@[j2].1@
                                    == spath@);
                            }
                        }
                    }
                    assert(fuel as nat != 0);
                    assert(merge_includes(
                        docs@,
                        table@,
                        i as int,
                        lst,
                        q as int,
                        map_model(mpre),
                        gv0,
                        fuel as nat,
                    ) == merge_includes(
                        docs@,
                        table@,
                        i as int,
                        lst,
                        q + 1,
                        map_model(*map),
                        gv0,
                        fuel as nat,
                    ));
                    lemma_grow_direct(mpre, *map, table@.subrange(0, i as int));
                    lemma_grow_includes(docs@, table@.subrange(0, i as int), mpre, *map);
                    assert forall|q2: int|
                        #![trigger lst[q2]]
                        0 <= q2 < q + 1 implies (include_target(
                        docs@,
                        lst[q2]->Text_0,
                    ) matches Some(st) && direct_keys_in(*map, st)) by {
                        if q2 < q {
                            assert(include_target(docs@, lst[q2]->Text_0) matches Some(st)
                                && direct_keys_in(mpre, st));
                            let st = include_target(docs@, lst[q2]->Text_0)->0;
                            lemma_grow_direct(mpre, *map, st);
                        } else {
                            assert(include_target(docs@, lst[q2]->Text_0) == Some(nb2@));
                        }
                    }
                }
                q = q + 1;
            }
            proof {
                lemma_direct_extend(table@, i as int, *map);
                lemma_resolved_extend_include(docs@, table@, i as int, *map, lst);
            }
        } else {
            match val {
                DocValue::Text(s) => {
                    let ghost pre = *map;
                    map.insert(key.clone(), s.clone());
                    proof {
                        assert(table@[i as int] == (key@, dv(DocValue::Text(*s))));
                        assert(table@[i as int].0 != "@INCLUDE"@);
                        lemma_map_model_insert(pre, *map, key@, s@);
                        assert(merge_table(
                            docs@,
                            table@,
                            i as int,
                            map_model(pre),
                            old(guard).deep_view(),
                            fuel as nat,
                        ) == merge_table(
                            docs@,
                            table@,
                            i + 1,
                            map_model(pre).insert(key@, s@),
                            old(guard).deep_view(),
                            fuel as nat,
                        ));
                        assert forall|k: Seq<char>| #[trigger] pre.spec_get(k)
                            is Some implies map.spec_get(k) is Some by {
                            if k != key@ {
                                assert(map.spec_get(k) == pre.spec_get(k));
                            }
                        }
                        lemma_grow_direct(pre, *map, table@.subrange(0, i as int));
                        lemma_grow_includes(docs@, table@.subrange(0, i as int), pre, *map);
                        assert(map.spec_get(key@) is Some);
                        lemma_direct_extend(table@, i as int, *map);
                        lemma_resolved_extend_plain(docs@, table@, i as int, *map);
                        if include_free(table@) {
                            lemma_direct_get_snoc(table@, i as int);
                            assert(table@[i as int].0 == key@ && table@[i as int].1 == dv(
                                DocValue::Text(*s),
                            ));
                            assert forall|k: Seq<char>|
                                #[trigger] map.spec_get(k) == (match direct_get(
                                    table@.subrange(0, i + 1),
                                    k,
                                ) {
                                    Some(v) => Some(v),
                                    None => old(map).spec_get(k),
                                }) by {
                                if k == key@ {
                                    assert(map.spec_get(k) == Some(s@));
                                } else {
                                    assert(map.spec_get(k) == pre.spec_get(k));
                                }
                            }
                        }
                    }
                },
                DocValue::Table(_) => {
                    // A nested group: not itself a binding, only the
                    // target of an inclusion subpath.
                    proof {
                        assert(table@[i as int] == (key@, dv(*val)));
                        assert(table@[i as int].0 != "@INCLUDE"@);
                        assert(merge_table(
                            docs@,
                            table@,
                            i as int,
                            map_model(*map),
                            old(guard).deep_view(),
                            fuel as nat,
                        ) == merge_table(
                            docs@,
                            table@,
                            i + 1,
                            map_model(*map),
                            old(guard).deep_view(),
                            fuel as nat,
                        ));
                        lemma_direct_extend(table@, i as int, *map);
                        lemma_resolved_extend_plain(docs@, table@, i as int, *map);
                        if include_free(table@) {
                            lemma_direct_get_snoc(table@, i as int);
                            assert((#[trigger] table@[i as int]).1 is Table);
                        }
                    }
                },
                _ => {
                    proof {
                        assert(!((#[trigger] table@[i as int]).1 is Text) && !(table@[
                            i as int].1 is Table));
                        if include_free(table@) {
                            lemma_first_bad_skip(table@, i as int);
                            assert(first_bad_from(table@, 0) == i as int);
                            assert(table@[i as int].0 == key@);
                        }
                    }
                    return Err(
                        ConfigError::TableGet(
                            TableGetError { kind: GetErrKind::WrongType, context: ctx.with(key) },
                        ),
                    );
                },
            }
        }
        i = i + 1;
    }
    proof {
        assert(table@.subrange(0, n as int) =~= table@);
    }
    Ok(())
}

/// Verify the scheme at `idx`, memoized: derive its binding map, remap
/// layers and transform definitions from its raw document, or report
/// why the document is broken. A verified slot is never recomputed.
fn verify_at(
    docs: &Vec<SchemeDoc>,
    state: &mut Vec<Option<Scheme>>,
    idx: usize,
    guard: &mut Vec<(String, String)>,
    fuel: u64,
) -> (r: Result<(), ConfigError>)
    requires
        idx < docs@.len(),
        states_wf(docs@, old(state)@),
    ensures
        states_wf(docs@, final(state)@),
        final(state)@.len() == old(state)@.len(),
        forall|j: int|
            0 <= j < old(state)@.len() && (#[trigger] old(state)@[j]) is Some ==> final(state)@[j] == old(state)@[j],
        r is Ok ==> final(state)@[idx as int] is Some,
        r is Ok ==> final(guard)@ == old(guard)@,
        old(state)@[idx as int] is Some ==> r is Ok && final(state)@ == old(state)@ && final(guard)@ == old(guard)@,
        doc_plain(docs@[idx as int].table@) ==> r is Ok,
        v_ok(docs@, idx as int, old(guard).deep_view(), fuel as nat) ==> r is Ok,
        (old(state)@[idx as int] is None && !(table_lookup(
            docs@[idx as int].table@,
            "bindings"@,
        ) matches Some(DocVal::Table(_)))) ==> (r matches Err(ConfigError::TableGet(e)) && ({
            &&& e.context.root_view() == docs@[idx as int].root_context@
            &&& e.context.keys_view() =~= seq!["bindings"@]
            &&& (e.kind is NoKey <==> table_lookup(docs@[idx as int].table@, "bindings"@)
                is None)
        })),
        (old(state)@[idx as int] is None && (table_lookup(
            docs@[idx as int].table@,
            "bindings"@,
        ) matches Some(DocVal::Table(bt)) && include_free(bt) && !bindable_entries(bt))) ==> (
        r matches Err(ConfigError::TableGet(e)) && (table_lookup(
            docs@[idx as int].table@,
            "bindings"@,
        ) matches Some(DocVal::Table(bt)) && ({
            let b = first_bad_from(bt, 0);
            &&& 0 <= b < bt.len()
            &&& e.kind is WrongType
            &&& e.context.root_view() == docs@[idx as int].root_context@
            &&& e.context.keys_view() =~= seq!["bindings"@, bt[b].0]
        }))),
        (r is Ok && old(state)@[idx as int] is None) ==> (final(state)@[idx as int] matches Some(
            s,
        ) && bindings_includes_ok(docs@, docs@[idx as int], s)),
        (r is Ok && old(state)@[idx as int] is None) ==> (final(state)@[idx as int] matches Some(
            s,
        ) && (table_lookup(docs@[idx as int].table@, "bindings"@) matches Some(DocVal::Table(bt))
            && merge_table(
            docs@,
            bt,
            0,
            Map::<Seq<char>, Seq<char>>::empty(),
            old(guard).deep_view(),
            fuel as nat,
        ) == Some(map_model(s.bindings)))),
    decreases fuel, 1nat,
{
    if state[idx].is_some() {
        return Ok(());
    }
    let ctx = Context::from_root(docs[idx].root_context.clone());
    let bkey = String::from_str("bindings");
    let btable = match get_table(&docs[idx].table, &ctx, &bkey) {
        Ok(t) => t,
        Err(e) => {
            return Err(ConfigError::TableGet(e));
        },
    };
    let mut bmap = BindingMap::new();
    proof {
        assert(map_model(bmap) =~= Map::<Seq<char>, Seq<char>>::empty());
    }
    match populate_bindings(docs, state, &mut bmap, btable, &ctx.with(&bkey), guard, fuel) {
        Ok(()) => {},
        Err(e) => {
            return Err(e);
        },
    }
    let mut remaps: Vec<(String, BindingMap)> = Vec::new();
    let rkey = String::from_str("remaps");
    match docs[idx].table.get(&rkey) {
        None => {},
        Some(DocValue::Table(rt)) => {
            let rctx = ctx.with(&rkey);
            let rn = rt.len();
            let mut j: usize = 0;
            while j < rn
                invariant
                    idx < docs@.len(),
                    table_lookup(docs@[idx as int].table@, "bindings"@) matches Some(
                        DocVal::Table(bt),
                    ) && (include_free(bt) ==> bindable_entries(bt)),
                    table_lookup(docs@[idx as int].table@, "remaps"@) == Some(
                        DocVal::Table(rt@),
                    ),
                    rn == rt@.len(),
                    j <= rn,
                    states_wf(docs@, state@),
                    state@.len() == old(state)@.len(),
                    forall|p2: int|
                        0 <= p2 < old(state)@.len() && (#[trigger] old(state)@[p2]) is Some
                            ==> state@[p2] == old(state)@[p2],
                    guard@ == old(guard)@,
                    !(old(state)@[idx as int] is Some),
                    remaps@.len() == j,
                    forall|p: int|
                        0 <= p < j ==> {
                            &&& (#[trigger] rt@[p]).1 is Table
                            &&& remaps@[p].0@ == rt@[p].0
                            &&& remaps@[p].1.wf()
                            &&& forall|k: Seq<char>| #[trigger] remaps@[p].1.spec_get(k)
                                == direct_get(rt@[p].1->Table_0, k)
                        },
                decreases rn - j,
            {
                let (rname, rval) = rt.entry_at(j);
                match rval {
                    DocValue::Table(lt) => {
                        let layer = match direct_bindmap(lt, &rctx.with(rname)) {
                            Ok(m) => m,
                            Err(e) => {
                                proof {
                                    assert(rt@[j as int].1 == dv(DocValue::Table(*lt)));
                                }
                                return Err(e);
                            },
                        };
                        let ghost prer = remaps@;
                        remaps.push((rname.clone(), layer));
                        proof {
                            assert(remaps@ =~= prer.push((remaps@[j as int].0, remaps@[
                                j as int].1)));
                            assert(remaps@[j as int].0@ == rt@[j as int].0);
                        }
                    },
                    _ => {
                        proof {
                            assert(rt@[j as int].1 == dv(*rval));
                        }
                        return Err(
                            ConfigError::TableGet(
                                TableGetError {
                                    kind: GetErrKind::WrongType,
                                    context: rctx.with(rname),
                                },
                            ),
                        );
                    },
                }
                j = j + 1;
            }
        },
        Some(_) => {
            return Err(
                ConfigError::TableGet(
                    TableGetError { kind: GetErrKind::WrongType, context: ctx.with(&rkey) },
                ),
            );
        },
    }
    let mut functions: Vec<(String, BindFunction)> = Vec::new();
    let fkey = String::from_str("functions");
    match docs[idx].table.get(&fkey) {
        None => {},
        Some(DocValue::Table(ft)) => {
            let fctx = ctx.with(&fkey);
            let fnum = ft.len();
            let mut j: usize = 0;
            while j < fnum
                invariant
                    idx < docs@.len(),
                    table_lookup(docs@[idx as int].table@, "bindings"@) matches Some(
                        DocVal::Table(bt),
                    ) && (include_free(bt) ==> bindable_entries(bt)),
                    table_lookup(docs@[idx as int].table@, "functions"@) == Some(
                        DocVal::Table(ft@),
                    ),
                    fnum == ft@.len(),
                    j <= fnum,
                    states_wf(docs@, state@),
                    state@.len() == old(state)@.len(),
                    forall|p2: int|
                        0 <= p2 < old(state)@.len() && (#[trigger] old(state)@[p2]) is Some
                            ==> state@[p2] == old(state)@[p2],
                    guard@ == old(guard)@,
                    !(old(state)@[idx as int] is Some),
                    functions@.len() == j,
                    forall|p: int|
                        0 <= p < j ==> {
                            &&& (#[trigger] ft@[p]).1 is Table
                            &&& functions@[p].0@ == ft@[p].0
                            &&& text_outcome(ft@[p].1->Table_0, "shell"@) == Some(
                                functions@[p].1.shell@,
                            )
                            &&& text_outcome(ft@[p].1->Table_0, "command"@) == Some(
                                functions@[p].1.rcommand@,
                            )
                        },
                decreases fnum - j,
            {
                let (fname, fval) = ft.entry_at(j);
                match fval {
                    DocValue::Table(ftab) => {
                        let fitemctx = fctx.with(fname);
                        let shell = match crate::doc::get_text(
                            ftab,
                            &fitemctx,
                            &String::from_str("shell"),
                        ) {
                            Ok(s) => s.clone(),
                            Err(e) => {
                                proof {
                                    assert(ft@[j as int].1 == dv(DocValue::Table(*ftab)));
                                }
                                return Err(ConfigError::TableGet(e));
                            },
                        };
                        let rcommand = match crate::doc::get_text(
                            ftab,
                            &fitemctx,
                            &String::from_str("command"),
                        ) {
                            Ok(s) => s.clone(),
                            Err(e) => {
                                proof {
                                    assert(ft@[j as int].1 == dv(DocValue::Table(*ftab)));
                                }
                                return Err(ConfigError::TableGet(e));
                            },
                        };
                        functions.push((fname.clone(), BindFunction { shell, rcommand }));
                    },
                    _ => {
                        proof {
                            assert(ft@[j as int].1 == dv(*fval));
                        }
                        return Err(
                            ConfigError::TableGet(
                                TableGetError {
                                    kind: GetErrKind::WrongType,
                                    context: fctx.with(fname),
                                },
                            ),
                        );
                    },
                }
                j = j + 1;
            }
        },
        Some(_) => {
            return Err(
                ConfigError::TableGet(
                    TableGetError { kind: GetErrKind::WrongType, context: ctx.with(&fkey) },
                ),
            );
        },
    }
    let scheme = Scheme {
        bindings: bmap,
        remaps,
        functions,
        root_context: docs[idx].root_context.clone(),
    };
    let ghost pre_state = state@;
    state.set(idx, Some(scheme));
    proof {
        assert forall|i2: int|
            0 <= i2 < state@.len() && (#[trigger] state@[i2]) is Some implies scheme_matches(
            docs@[i2],
            state@[i2]->0,
        ) by {
            if i2 != idx {
                assert(state@[i2] == pre_state[i2]);
            }
        }
    }
    Ok(())
}

/// What happened to one candidate document offered to the registry.
#[derive(Debug)]
pub enum AddOutcome {
    /// The document carries an identity key and was added.
    Added,
    /// The document has no identity key and was skipped.
    NoIdentity,
    /// The identity key is not a string; the document was skipped.
    BadIdentity,
}

/// The arena of loaded schemes: documents in load order, each with its
/// lazily-computed verified content.
#[derive(Debug)]
pub struct SchemeRegistry {
    docs: Vec<SchemeDoc>,
    state: Vec<Option<Scheme>>,
    fuel: u64,
}

impl SchemeRegistry {
    pub closed spec fn docs_view(&self) -> Seq<SchemeDoc> {
        self.docs@
    }

    pub closed spec fn states_view(&self) -> Seq<Option<Scheme>> {
        self.state@
    }

    pub open spec fn wf(&self) -> bool {
        states_wf(self.docs_view(), self.states_view())
    }

    /// The registry's inclusion budget: at least the total size of every
    /// loaded document, so that no acyclic chain can exhaust it.
    pub closed spec fn spec_fuel(&self) -> nat {
        self.fuel as nat
    }

    pub open spec fn spec_names(&self) -> Seq<Seq<char>> {
        names_of(self.docs_view())
    }

    /// Some loaded document carries this name.
    pub open spec fn has_scheme(&self, name: Seq<char>) -> bool {
        last_index_of(self.spec_names(), name) >= 0
    }

    /// An empty registry.
    pub fn new() -> (r: SchemeRegistry)
        ensures
            r.wf(),
            r.docs_view() =~= Seq::<SchemeDoc>::empty(),
    {
        SchemeRegistry { docs: Vec::new(), state: Vec::new(), fuel: 0 }
    }

    pub fn scheme_count(&self) -> (r: usize)
        ensures
            r == self.docs_view().len(),
    {
        self.docs.len()
    }

    /// Offer one parsed document to the registry. It is added under the
    /// name its identity key carries; a document without a string
    /// identity is reported and not added. A name seen before shadows
    /// the earlier document.
    pub fn add_document(&mut self, table: DocTable, origin: String) -> (r: AddOutcome)
        requires
            old(self).wf(),
        ensures
            final(self).wf(),
            match table_lookup(table@, "axbind_scheme"@) {
                Some(DocVal::Text(nm)) => {
                    &&& r is Added
                    &&& final(self).docs_view().len() == old(self).docs_view().len() + 1
                    &&& final(self).docs_view().last().name@ == nm
                    &&& final(self).docs_view().last().root_context@ == origin@
                    &&& final(self).docs_view().last().table@ == table@
                    &&& final(self).docs_view().drop_last() == old(self).docs_view()
                    &&& final(self).states_view().last() is None
                },
                None => r is NoIdentity && final(self).docs_view() == old(self).docs_view()
                    && final(self).states_view() == old(self).states_view(),
                Some(_) => r is BadIdentity && final(self).docs_view() == old(self).docs_view()
                    && final(self).states_view() == old(self).states_view(),
            },
            forall|j: int|
                0 <= j < old(self).docs_view().len() ==> final(self).docs_view()[j] == old(
                    self,
                ).docs_view()[j] && final(self).states_view()[j] == old(self).states_view()[j],
    {
        let idkey = String::from_str("axbind_scheme");
        let name = match table.get(&idkey) {
            None => {
                return AddOutcome::NoIdentity;
            },
            Some(DocValue::Text(nm)) => nm.clone(),
            Some(_) => {
                return AddOutcome::BadIdentity;
            },
        };
        let sz = table_size(&table);
        let add = if sz <= u64::MAX - 1 {
            sz + 1
        } else {
            u64::MAX
        };
        self.fuel = if self.fuel <= u64::MAX - add {
            self.fuel + add
        } else {
            u64::MAX
        };
        let ghost pre_docs = self.docs@;
        let ghost pre_state = self.state@;
        self.docs.push(SchemeDoc { name, root_context: origin, table });
        self.state.push(None);
        proof {
            assert(self.docs_view().drop_last() =~= pre_docs);
            assert forall|i2: int|
                0 <= i2 < self.state@.len() && (#[trigger] self.state@[i2]) is Some
                implies scheme_matches(self.docs@[i2], self.state@[i2]->0) by {
                assert(i2 < pre_state.len());
                assert(self.state@[i2] == pre_state[i2]);
                assert(self.docs@[i2] == pre_docs[i2]);
            }
        }
        AddOutcome::Added
    }

    /// The index of the document that `name` resolves to: the last one
    /// loaded under that name.
    pub fn index_of(&self, name: &String) -> (r: Option<usize>)
        ensures
            match r {
                Some(i) => i < self.docs_view().len() && last_index_of(
                    names_of(self.docs_view()),
                    name@,
                ) == i as int,
                None => !self.has_scheme(name@),
            },
    {
        proof {
            lemma_last_index_bounds(names_of(self.docs@), name@);
        }
        find_scheme(&self.docs, name)
    }

    /// The verified scheme in slot `i`.
    pub fn scheme_at<'a>(&'a self, i: usize) -> (r: &'a Scheme)
        requires
            i < self.states_view().len(),
            self.states_view()[i as int] is Some,
        ensures
            *r == self.states_view()[i as int]->0,
    {
        self.state[i].as_ref().unwrap()
    }

    /// Look up a scheme by name, verifying it on first access.
    ///
    /// An unknown name is `Ok(None)`, never an error; a known name is
    /// verified (or served from the cache) and returned, or the reason
    /// its descriptor is broken is reported. Raw documents and already
    /// verified schemes are never changed.
    pub fn get<'a>(&'a mut self, name: &String) -> (r: Result<Option<&'a Scheme>, ConfigError>)
        requires
            old(self).wf(),
        ensures
            final(self).wf(),
            final(self).docs_view() == old(self).docs_view(),
            final(self).states_view().len() == old(self).states_view().len(),
            forall|j: int|
                0 <= j < old(self).states_view().len() && (#[trigger] old(
                    self,
                ).states_view()[j]) is Some ==> final(self).states_view()[j] == old(
                    self,
                ).states_view()[j],
            (r matches Ok(o) && o is None) <==> !old(self).has_scheme(name@),
            r matches Ok(Some(s)) ==> {
                let idx = last_index_of(names_of(old(self).docs_view()), name@);
                &&& 0 <= idx < final(self).states_view().len()
                &&& final(self).states_view()[idx] == Some(*s)
                &&& scheme_matches(final(self).docs_view()[idx], *s)
            },
            r matches Ok(Some(s)) ==> ({
                let idx = last_index_of(names_of(old(self).docs_view()), name@);
                old(self).states_view()[idx] is None ==> bindings_includes_ok(
                    old(self).docs_view(),
                    old(self).docs_view()[idx],
                    *s,
                )
            }),
            r matches Ok(Some(s)) ==> ({
                let idx = last_index_of(names_of(old(self).docs_view()), name@);
                old(self).states_view()[idx] is None ==> (table_lookup(
                    old(self).docs_view()[idx].table@,
                    "bindings"@,
                ) matches Some(DocVal::Table(bt)) && merge_table(
                    old(self).docs_view(),
                    bt,
                    0,
                    Map::<Seq<char>, Seq<char>>::empty(),
                    Seq::<(Seq<char>, Seq<char>)>::empty(),
                    old(self).spec_fuel(),
                ) == Some(map_model(s.bindings)))
            }),
            ({
                let idx = last_index_of(names_of(old(self).docs_view()), name@);
                0 <= idx && old(self).states_view()[idx] is Some
            }) ==> (r is Ok && final(self).states_view() == old(self).states_view()),
            ({
                let idx = last_index_of(names_of(old(self).docs_view()), name@);
                &&& 0 <= idx
                &&& old(self).states_view()[idx] is None
                &&& !(table_lookup(old(self).docs_view()[idx].table@, "bindings"@) matches Some(
                    DocVal::Table(_),
                ))
            }) ==> (r matches Err(ConfigError::TableGet(e)) && ({
                let idx = last_index_of(names_of(old(self).docs_view()), name@);
                &&& e.context.root_view() == old(self).docs_view()[idx].root_context@
                &&& e.context.keys_view() =~= seq!["bindings"@]
                &&& (e.kind is NoKey <==> table_lookup(
                    old(self).docs_view()[idx].table@,
                    "bindings"@,
                ) is None)
            })),
            ({
                let idx = last_index_of(names_of(old(self).docs_view()), name@);
                &&& 0 <= idx
                &&& old(self).states_view()[idx] is None
                &&& (table_lookup(old(self).docs_view()[idx].table@, "bindings"@) matches Some(
                    DocVal::Table(bt),
                ) && include_free(bt) && !bindable_entries(bt))
            }) ==> (r matches Err(ConfigError::TableGet(e)) && ({
                let idx = last_index_of(names_of(old(self).docs_view()), name@);
                table_lookup(old(self).docs_view()[idx].table@, "bindings"@) matches Some(
                    DocVal::Table(bt),
                ) && ({
                    let b = first_bad_from(bt, 0);
                    &&& 0 <= b < bt.len()
                    &&& e.kind is WrongType
                    &&& e.context.root_view() == old(self).docs_view()[idx].root_context@
                    &&& e.context.keys_view() =~= seq!["bindings"@, bt[b].0]
                })
            })),
            (old(self).has_scheme(name@) && v_ok(
                old(self).docs_view(),
                last_index_of(names_of(old(self).docs_view()), name@),
                Seq::<(Seq<char>, Seq<char>)>::empty(),
                old(self).spec_fuel(),
            )) ==> r is Ok,
            (old(self).has_scheme(name@) && doc_plain(
                old(self).docs_view()[last_index_of(
                    names_of(old(self).docs_view()),
                    name@,
                )].table@,
            )) ==> r is Ok,
    {
        let idx = match find_scheme(&self.docs, name) {
            Some(i) => i,
            None => {
                return Ok(None);
            },
        };
        let fuel = self.fuel;
        let docs = &self.docs;
        let state = &mut self.state;
        let mut guard: Vec<(String, String)> = Vec::new();
        proof {
            assert(guard.deep_view() =~= Seq::<(Seq<char>, Seq<char>)>::empty());
        }
        match verify_at(docs, state, idx, &mut guard, fuel) {
            Ok(()) => {},
            Err(e) => {
                return Err(e);
            },
        }
        match &self.state[idx] {
            Some(s) => Ok(Some(s)),
            None => {
                proof {
                    assert(false);
                }
                Ok(None)
            },
        }
    }
}

} // verus!
