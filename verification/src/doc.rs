//! The structured-document model.
//!
//! Scheme and tag descriptors arrive as trees of plain values: text leaves,
//! lists, and key-ordered tables. Parsing the on-disk format into this tree
//! is the caller's business; everything in the library reads documents
//! through this model, so that every lookup and every type check is
//! verified.

use vstd::prelude::*;

verus! {

broadcast use vstd::std_specs::vec::axiom_vec_index_decreases, vstd::seq::axiom_seq_index_decreases, vstd::std_specs::vec::axiom_vec_decreases_to_view;

/// One value of a structured document. `Other` stands for any scalar that
/// the descriptors never use (numbers, booleans, dates): such a value can
/// only ever produce a type-mismatch error.
#[derive(Debug)]
pub enum DocValue {
    Text(String),
    Bool(bool),
    List(Vec<DocValue>),
    Table(DocTable),
    Other,
}

/// A table of a structured document: entries in source order, keys unique.
#[derive(Debug)]
pub struct DocTable {
    pub entries: Vec<(String, DocValue)>,
}

/// The mathematical shape of a document value.
pub enum DocVal {
    Text(Seq<char>),
    Bool(bool),
    List(Seq<DocVal>),
    Table(Seq<(Seq<char>, DocVal)>),
    Other,
}

pub open spec fn dv(v: DocValue) -> DocVal
    decreases v, 0nat, 0nat,
{
    match v {
        DocValue::Text(s) => DocVal::Text(s@),
        DocValue::Bool(b) => DocVal::Bool(b),
        DocValue::List(items) => DocVal::List(dv_list(items@, 0)),
        DocValue::Table(t) => DocVal::Table(dv_entries(t.entries@, 0)),
        DocValue::Other => DocVal::Other,
    }
}

pub open spec fn dv_list(items: Seq<DocValue>, i: int) -> Seq<DocVal>
    decreases items, items.len() - i, 1nat,
{
    if i < 0 || i >= items.len() {
        Seq::empty()
    } else {
        seq![dv(items[i])] + dv_list(items, i + 1)
    }
}

pub open spec fn dv_entries(entries: Seq<(String, DocValue)>, i: int) -> Seq<(Seq<char>, DocVal)>
    decreases entries, entries.len() - i, 1nat,
{
    if i < 0 || i >= entries.len() {
        Seq::empty()
    } else {
        seq![(entries[i].0@, dv(entries[i].1))] + dv_entries(entries, i + 1)
    }
}

impl View for DocValue {
    type V = DocVal;

    open spec fn view(&self) -> DocVal {
        dv(*self)
    }
}

impl View for DocTable {
    type V = Seq<(Seq<char>, DocVal)>;

    open spec fn view(&self) -> Seq<(Seq<char>, DocVal)> {
        dv_entries(self.entries@, 0)
    }
}

pub broadcast proof fn lemma_dv_list_props(items: Seq<DocValue>, i: int)
    requires
        0 <= i <= items.len(),
    ensures
        (#[trigger] dv_list(items, i)).len() == items.len() - i,
        forall|j: int|
            0 <= j < items.len() - i ==> dv_list(items, i)[j] == dv(items[i + j]),
    decreases items.len() - i,
{
    if i < items.len() {
        lemma_dv_list_props(items, i + 1);
    }
}

pub broadcast proof fn lemma_dv_entries_props(entries: Seq<(String, DocValue)>, i: int)
    requires
        0 <= i <= entries.len(),
    ensures
        (#[trigger] dv_entries(entries, i)).len() == entries.len() - i,
        forall|j: int|
            0 <= j < entries.len() - i ==> dv_entries(entries, i)[j] == (
                entries[i + j].0@,
                dv(entries[i + j].1),
            ),
    decreases entries.len() - i,
{
    if i < entries.len() {
        lemma_dv_entries_props(entries, i + 1);
    }
}

/// The value under `key` in a table view: the first entry whose key matches.
pub open spec fn table_lookup(entries: Seq<(Seq<char>, DocVal)>, key: Seq<char>) -> Option<DocVal>
    decreases entries.len(),
{
    if entries.len() == 0 {
        None
    } else if entries[0].0 == key {
        Some(entries[0].1)
    } else {
        table_lookup(entries.drop_first(), key)
    }
}

proof fn lemma_table_lookup_skip(entries: Seq<(Seq<char>, DocVal)>, key: Seq<char>, i: int)
    requires
        0 <= i <= entries.len(),
        forall|j: int| 0 <= j < i ==> entries[j].0 != key,
    ensures
        table_lookup(entries, key) == table_lookup(entries.skip(i), key),
    decreases i,
{
    if i > 0 {
        lemma_table_lookup_skip(entries, key, i - 1);
        assert(entries.skip(i - 1).drop_first() =~= entries.skip(i));
        assert(entries.skip(i - 1).len() > 0);
        assert(entries.skip(i - 1)[0] == entries[i - 1]);
    } else {
        assert(entries.skip(0) =~= entries);
    }
}

impl DocTable {
    /// An empty table.
    pub fn new() -> (r: DocTable)
        ensures
            r@ =~= Seq::<(Seq<char>, DocVal)>::empty(),
    {
        let t = DocTable { entries: Vec::new() };
        proof {
            lemma_dv_entries_props(t.entries@, 0);
        }
        t
    }

    pub fn len(&self) -> (r: usize)
        ensures
            r == self@.len(),
    {
        proof {
            lemma_dv_entries_props(self.entries@, 0);
        }
        self.entries.len()
    }

    /// The key and value of the entry at `i`.
    pub fn entry_at<'a>(&'a self, i: usize) -> (r: (&'a String, &'a DocValue))
        requires
            i < self@.len(),
        ensures
            self@[i as int] == (r.0@, dv(*r.1)),
    {
        proof {
            lemma_dv_entries_props(self.entries@, 0);
        }
        let p = &self.entries[i];
        (&p.0, &p.1)
    }

    /// The value under `key`, if the table has that key.
    pub fn get<'a>(&'a self, key: &String) -> (r: Option<&'a DocValue>)
        ensures
            match r {
                Some(v) => table_lookup(self@, key@) == Some(dv(*v)),
                None => table_lookup(self@, key@) is None,
            },
    {
        proof {
            lemma_dv_entries_props(self.entries@, 0);
        }
        let n = self.entries.len();
        let mut i: usize = 0;
        while i < n
            invariant
                n == self.entries@.len(),
                i <= n,
                forall|j: int| 0 <= j < i ==> self@[j].0 != key@,
            decreases n - i,
        {
            proof {
                lemma_dv_entries_props(self.entries@, 0);
            }
            let hit = self.entries[i].0 == *key;
            proof {
                assert(self@[i as int] == (self.entries@[i as int].0@, dv(
                    self.entries@[i as int].1,
                )));
            }
            if hit {
                proof {
                    lemma_table_lookup_skip(self@, key@, i as int);
                    assert(self@.skip(i as int)[0] == self@[i as int]);
                }
                return Some(&self.entries[i].1);
            }
            i = i + 1;
        }
        proof {
            lemma_table_lookup_skip(self@, key@, n as int);
            assert(self@.skip(n as int).len() == 0);
        }
        None
    }
}

/// Where a value sits in its descriptor: the origin (a file path or a
/// scheme name) and the dotted key path below it. Every error carries one,
/// so that a broken descriptor can be located.
#[derive(Debug)]
pub struct Context {
    pub root: String,
    pub keys: Vec<String>,
}

impl Context {
    pub open spec fn root_view(&self) -> Seq<char> {
        self.root@
    }

    pub open spec fn keys_view(&self) -> Seq<Seq<char>> {
        self.keys.deep_view()
    }

    pub fn from_root(root: String) -> (r: Context)
        ensures
            r.root_view() == root@,
            r.keys_view() =~= Seq::<Seq<char>>::empty(),
    {
        Context { root, keys: Vec::new() }
    }

    /// This context, narrowed by one more key.
    pub fn with(&self, key: &String) -> (r: Context)
        ensures
            r.root_view() == self.root_view(),
            r.keys_view() =~= self.keys_view().push(key@),
    {
        let mut keys = self.keys.clone();
        proof {
            assert(keys.deep_view() =~= self.keys.deep_view());
        }
        keys.push(key.clone());
        proof {
            assert(keys.deep_view() =~= self.keys.deep_view().push(key@));
        }
        Context { root: self.root.clone(), keys }
    }
}

impl Clone for Context {
    fn clone(&self) -> (r: Self)
        ensures
            r.root_view() == self.root_view(),
            r.keys_view() == self.keys_view(),
    {
        let keys = self.keys.clone();
        proof {
            assert(keys.deep_view() =~= self.keys.deep_view());
        }
        Context { root: self.root.clone(), keys }
    }
}

/// How a table lookup can fail.
#[derive(Debug)]
pub enum GetErrKind {
    /// The key is absent.
    NoKey,
    /// The key is present but its value has the wrong type.
    WrongType,
}

/// A failed typed lookup, with the context of the key that failed.
#[derive(Debug)]
pub struct TableGetError {
    pub kind: GetErrKind,
    pub context: Context,
}

/// The text under `key`, when the key holds text; anything else (a
/// missing key, or another type) is `None`.
pub open spec fn text_outcome(entries: Seq<(Seq<char>, DocVal)>, key: Seq<char>) -> Option<
    Seq<char>,
> {
    match table_lookup(entries, key) {
        Some(DocVal::Text(s)) => Some(s),
        _ => None,
    }
}

/// The text value under `key`.
///
/// Returns the string when the key holds one; `NoKey` when the key is
/// absent; `WrongType` when it holds anything else. The error context is
/// the table's context narrowed by the key.
pub fn get_text<'a>(t: &'a DocTable, ctx: &Context, key: &String) -> (r: Result<
    &'a String,
    TableGetError,
>)
    ensures
        match r {
            Ok(s) => table_lookup(t@, key@) == Some(DocVal::Text(s@)),
            Err(e) => {
                &&& !(table_lookup(t@, key@) matches Some(DocVal::Text(_)))
                &&& e.kind is NoKey <==> table_lookup(t@, key@) is None
                &&& e.context.root_view() == ctx.root_view()
                &&& e.context.keys_view() == ctx.keys_view().push(key@)
            },
        },
{
    match t.get(key) {
        Some(DocValue::Text(s)) => Ok(s),
        Some(_) => Err(
            TableGetError { kind: GetErrKind::WrongType, context: ctx.with(key) },
        ),
        None => Err(TableGetError { kind: GetErrKind::NoKey, context: ctx.with(key) }),
    }
}

/// The sub-table under `key`, under the same reporting rule as `get_text`.
pub fn get_table<'a>(t: &'a DocTable, ctx: &Context, key: &String) -> (r: Result<
    &'a DocTable,
    TableGetError,
>)
    ensures
        match r {
            Ok(sub) => table_lookup(t@, key@) == Some(DocVal::Table(sub@)),
            Err(e) => {
                &&& !(table_lookup(t@, key@) matches Some(DocVal::Table(_)))
                &&& e.kind is NoKey <==> table_lookup(t@, key@) is None
                &&& e.context.root_view() == ctx.root_view()
                &&& e.context.keys_view() == ctx.keys_view().push(key@)
            },
        },
{
    match t.get(key) {
        Some(DocValue::Table(sub)) => Ok(sub),
        Some(_) => Err(
            TableGetError { kind: GetErrKind::WrongType, context: ctx.with(key) },
        ),
        None => Err(TableGetError { kind: GetErrKind::NoKey, context: ctx.with(key) }),
    }
}

/// The list under `key`, under the same reporting rule as `get_text`.
pub fn get_list<'a>(t: &'a DocTable, ctx: &Context, key: &String) -> (r: Result<
    &'a Vec<DocValue>,
    TableGetError,
>)
    ensures
        match r {
            Ok(items) => table_lookup(t@, key@) == Some(DocVal::List(dv_list(items@, 0))),
            Err(e) => {
                &&& !(table_lookup(t@, key@) matches Some(DocVal::List(_)))
                &&& e.kind is NoKey <==> table_lookup(t@, key@) is None
                &&& e.context.root_view() == ctx.root_view()
                &&& e.context.keys_view() == ctx.keys_view().push(key@)
            },
        },
{
    match t.get(key) {
        Some(DocValue::List(items)) => Ok(items),
        Some(_) => Err(
            TableGetError { kind: GetErrKind::WrongType, context: ctx.with(key) },
        ),
        None => Err(TableGetError { kind: GetErrKind::NoKey, context: ctx.with(key) }),
    }
}

/// Every element of the list view is text.
pub open spec fn all_text(items: Seq<DocVal>) -> bool {
    forall|i: int| 0 <= i < items.len() ==> items[i] is Text
}

/// The texts of a list view whose elements are all text.
pub open spec fn texts_of(items: Seq<DocVal>) -> Seq<Seq<char>> {
    Seq::new(items.len(), |i: int| items[i]->Text_0)
}

/// The list's elements as strings.
///
/// Succeeds exactly when every element is text; otherwise reports a
/// type mismatch at the list's own context.
pub fn extract_array_strings(items: &Vec<DocValue>, ctx: &Context) -> (r: Result<
    Vec<String>,
    TableGetError,
>)
    ensures
        match r {
            Ok(ss) => all_text(dv_list(items@, 0)) && ss.deep_view() =~= texts_of(
                dv_list(items@, 0),
            ),
            Err(e) => {
                &&& !all_text(dv_list(items@, 0))
                &&& e.kind is WrongType
                &&& e.context.root_view() == ctx.root_view()
                &&& e.context.keys_view() == ctx.keys_view()
            },
        },
{
    proof {
        lemma_dv_list_props(items@, 0);
    }
    let ghost iv = dv_list(items@, 0);
    let mut out: Vec<String> = Vec::new();
    let n = items.len();
    let mut i: usize = 0;
    while i < n
        invariant
            n == items@.len(),
            iv == dv_list(items@, 0),
            iv.len() == n,
            forall|j: int| 0 <= j < iv.len() ==> iv[j] == dv(items@[j]),
            i <= n,
            out.deep_view().len() == i as int,
            forall|j: int| 0 <= j < i ==> iv[j] is Text,
            forall|j: int| 0 <= j < i ==> out.deep_view()[j] == iv[j]->Text_0,
        decreases n - i,
    {
        let ghost pre = out.deep_view();
        match &items[i] {
            DocValue::Text(s) => {
                let sc = s.clone();
                proof {
                    assert(iv[i as int] == dv(items@[i as int]));
                    assert(iv[i as int]->Text_0 == sc@);
                }
                out.push(sc);
                proof {
                    assert(out.deep_view() =~= pre.push(iv[i as int]->Text_0));
                }
            },
            _ => {
                proof {
                    assert(iv[i as int] == dv(items@[i as int]));
                    assert(!(iv[i as int] is Text));
                }
                return Err(
                    TableGetError { kind: GetErrKind::WrongType, context: ctx.clone() },
                );
            },
        }
        i = i + 1;
    }
    proof {
        assert(out.deep_view() =~= texts_of(iv));
    }
    Ok(out)
}

} // verus!
