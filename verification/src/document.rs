//! Schema documents: the already-parsed, nested key/value input of the schema
//! processor, and the values it passes through untouched.

use crate::table::find;
use crate::table::key_views;
use crate::table::keys;
use crate::table::position;
use vstd::prelude::*;

verus! {

/// A handle for a value that belongs to the embedding runtime. The library
/// carries such handles around and never looks behind them.
#[derive(Clone, Copy, Debug, PartialEq, Eq, Structural)]
pub struct HostRef(pub u64);

/// A node of a schema document.
#[derive(Debug, PartialEq, Eq)]
pub enum SchemaValue {
    Null,
    Bool(bool),
    Int(i64),
    Text(String),
    List(Vec<SchemaValue>),
    /// Key/value entries in document order.
    Mapping(Vec<(String, SchemaValue)>),
    /// A value of the embedding runtime that the document carries opaquely.
    Opaque(HostRef),
}

/// The mathematical content of a [`SchemaValue`].
pub enum Document {
    Null,
    Bool(bool),
    Int(i64),
    Text(Seq<char>),
    List(Seq<Document>),
    Mapping(Seq<(Seq<char>, Document)>),
    Opaque(HostRef),
}

/// The content of one schema value.
pub open spec fn document_of(v: SchemaValue) -> Document
    decreases v,
{
    match v {
        SchemaValue::Null => Document::Null,
        SchemaValue::Bool(b) => Document::Bool(b),
        SchemaValue::Int(n) => Document::Int(n),
        SchemaValue::Text(s) => Document::Text(s@),
        SchemaValue::List(items) => Document::List(documents_of(items@, items@.len())),
        SchemaValue::Mapping(entries) => Document::Mapping(
            entry_documents_of(entries@, entries@.len()),
        ),
        SchemaValue::Opaque(h) => Document::Opaque(h),
    }
}

/// The content of the first `n` values of `items`.
pub open spec fn documents_of(items: Seq<SchemaValue>, n: nat) -> Seq<Document>
    decreases items, n,
{
    if n == 0 || n > items.len() {
        Seq::empty()
    } else {
        documents_of(items, (n - 1) as nat).push(document_of(items[n - 1]))
    }
}

/// The content of the first `n` entries of `entries`.
pub open spec fn entry_documents_of(entries: Seq<(String, SchemaValue)>, n: nat) -> Seq<
    (Seq<char>, Document),
>
    decreases entries, n,
{
    if n == 0 || n > entries.len() {
        Seq::empty()
    } else {
        entry_documents_of(entries, (n - 1) as nat).push(
            (entries[n - 1].0@, document_of(entries[n - 1].1)),
        )
    }
}

impl View for SchemaValue {
    type V = Document;

    open spec fn view(&self) -> Document {
        document_of(*self)
    }
}

/// The content of the first `n` values, element by element.
proof fn lemma_documents_of(items: Seq<SchemaValue>, n: nat)
    requires
        n <= items.len(),
    ensures
        documents_of(items, n) == list_view(items.take(n as int)),
    decreases n,
{
    if n > 0 {
        lemma_documents_of(items, (n - 1) as nat);
    }
    assert(documents_of(items, n) =~= list_view(items.take(n as int)));
}

/// The content of the first `n` entries, entry by entry.
proof fn lemma_entry_documents_of(entries: Seq<(String, SchemaValue)>, n: nat)
    requires
        n <= entries.len(),
    ensures
        entry_documents_of(entries, n) == entries_view(entries.take(n as int)),
    decreases n,
{
    if n > 0 {
        lemma_entry_documents_of(entries, (n - 1) as nat);
    }
    assert(entry_documents_of(entries, n) =~= entries_view(entries.take(n as int)));
}

/// The content of a vector of documents.
pub open spec fn list_view(items: Seq<SchemaValue>) -> Seq<Document> {
    Seq::new(items.len(), |i: int| items[i]@)
}

/// The content of the entries of a mapping.
pub open spec fn entries_view(entries: Seq<(String, SchemaValue)>) -> Seq<(Seq<char>, Document)> {
    Seq::new(entries.len(), |i: int| (entries[i].0@, entries[i].1@))
}

impl Document {
    /// The value stored under `key`, where this document is a mapping that has the key.
    pub open spec fn get(self, key: Seq<char>) -> Option<Document> {
        match self {
            Document::Mapping(entries) => {
                let i = find(entries, key);
                if i < entries.len() {
                    Some(entries[i].1)
                } else {
                    None
                }
            },
            _ => None,
        }
    }
}

impl SchemaValue {
    /// What a list holds.
    pub proof fn lemma_list_view(self)
        requires
            self is List,
        ensures
            self@ == Document::List(list_view(self->List_0@)),
    {
        let items = self->List_0@;
        lemma_documents_of(items, items.len());
        assert(items.take(items.len() as int) =~= items);
    }

    /// What a mapping holds.
    pub proof fn lemma_mapping_view(self)
        requires
            self is Mapping,
        ensures
            self@ == Document::Mapping(entries_view(self->Mapping_0@)),
    {
        let entries = self->Mapping_0@;
        lemma_entry_documents_of(entries, entries.len());
        assert(entries.take(entries.len() as int) =~= entries);
    }

    /// Index of the first entry of `entries` under `key`, or their number.
    pub fn position(entries: &Vec<(String, SchemaValue)>, key: &str) -> (r: usize)
        ensures
            r == find(entries_view(entries@), key@),
            r <= entries.len(),
    {
        proof {
            assert(keys(entries_view(entries@)) =~= key_views(entries@));
        }
        position(entries, key)
    }

    /// The value stored under `key`, where this is a mapping that has the key.
    pub fn get(&self, key: &str) -> (r: Option<&SchemaValue>)
        ensures
            match r {
                Some(v) => self@.get(key@) == Some(v@),
                None => self@.get(key@) is None,
            },
    {
        match self {
            SchemaValue::Mapping(entries) => {
                proof {
                    self.lemma_mapping_view();
                }
                let i = Self::position(entries, key);
                if i < entries.len() {
                    Some(&entries[i].1)
                } else {
                    None
                }
            },
            _ => None,
        }
    }
}

impl Clone for SchemaValue {
    fn clone(&self) -> (r: Self)
        ensures
            r@ == self@,
        decreases self,
    {
        match self {
            SchemaValue::Null => SchemaValue::Null,
            SchemaValue::Bool(b) => SchemaValue::Bool(*b),
            SchemaValue::Int(n) => SchemaValue::Int(*n),
            SchemaValue::Text(s) => SchemaValue::Text(s.clone()),
            SchemaValue::List(items) => {
                let mut out: Vec<SchemaValue> = Vec::new();
                let mut i: usize = 0;
                while i < items.len()
                    invariant
                        i <= items.len(),
                        out.len() == i,
                        forall|j: int| 0 <= j < i ==> out[j]@ == items[j]@,
                        decreases_to!(self => items),
                    decreases items.len() - i,
                {
                    let copy = items[i].clone();
                    out.push(copy);
                    i += 1;
                }
                let r = SchemaValue::List(out);
                proof {
                    self.lemma_list_view();
                    r.lemma_list_view();
                    assert(list_view(out@) =~= list_view(items@));
                }
                r
            },
            SchemaValue::Mapping(entries) => {
                let mut out: Vec<(String, SchemaValue)> = Vec::new();
                let mut i: usize = 0;
                while i < entries.len()
                    invariant
                        i <= entries.len(),
                        out.len() == i,
                        forall|j: int|
                            0 <= j < i ==> out[j].0@ == entries[j].0@ && out[j].1@ == entries[j].1@,
                        decreases_to!(self => entries),
                    decreases entries.len() - i,
                {
                    let key = entries[i].0.clone();
                    let copy = entries[i].1.clone();
                    out.push((key, copy));
                    i += 1;
                }
                let r = SchemaValue::Mapping(out);
                proof {
                    self.lemma_mapping_view();
                    r.lemma_mapping_view();
                    assert(entries_view(out@) =~= entries_view(entries@));
                }
                r
            },
            SchemaValue::Opaque(h) => SchemaValue::Opaque(*h),
        }
    }
}

} // verus!
