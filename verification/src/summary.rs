//! Summaries: the typed form of one result group of the summary pipeline, and
//! the decoder that reads one out of a raw result document.

use crate::document::{doc_get, document_map, Atom, AtomView, Tree, Value};
use crate::error::FetchError;
use bson::Document;
use vstd::prelude::*;
use vstd::string::StringExecFns;

verus! {

/// The key of a group: the value the group's documents share.
#[derive(Debug, PartialEq, Eq)]
pub enum SummaryKey {
    Int(i64),
    Text(String),
}

/// One result group: its key, how many documents it has, and the collected
/// values in the store's order.
#[derive(Debug, PartialEq, Eq)]
pub struct Summary {
    pub key: SummaryKey,
    pub count: u64,
    pub items: Vec<String>,
}

pub enum SummaryKeyView {
    Int(i64),
    Text(Seq<char>),
}

pub struct SummaryView {
    pub key: SummaryKeyView,
    pub count: nat,
    pub items: Seq<Seq<char>>,
}

impl View for SummaryKey {
    type V = SummaryKeyView;

    open spec fn view(&self) -> SummaryKeyView {
        match self {
            SummaryKey::Int(v) => SummaryKeyView::Int(*v),
            SummaryKey::Text(s) => SummaryKeyView::Text(s@),
        }
    }
}

/// The strings of a sequence, each by its characters.
pub open spec fn texts(items: Seq<String>) -> Seq<Seq<char>> {
    items.map_values(|s: String| s@)
}

impl View for Summary {
    type V = SummaryView;

    open spec fn view(&self) -> SummaryView {
        SummaryView { key: self.key@, count: self.count as nat, items: texts(self.items@) }
    }
}

/// The group key of a result document: the integer or string under `_id`.
/// `None` where `_id` is absent or holds anything else.
pub open spec fn key_of(fields: Map<Seq<char>, Tree>) -> Option<SummaryKeyView> {
    if !fields.contains_key("_id"@) {
        None
    } else {
        match fields["_id"@] {
            Tree::Atom(AtomView::Int32(v)) => Some(SummaryKeyView::Int(v as i64)),
            Tree::Atom(AtomView::Int64(v)) => Some(SummaryKeyView::Int(v)),
            Tree::Atom(AtomView::Text(s)) => Some(SummaryKeyView::Text(s)),
            _ => None,
        }
    }
}

/// The count of a result document: 0 where the field is absent, the integer it
/// holds where that is not negative. `None` on any other content.
pub open spec fn count_of(fields: Map<Seq<char>, Tree>, name: Seq<char>) -> Option<nat> {
    if !fields.contains_key(name) {
        Some(0nat)
    } else {
        match fields[name] {
            Tree::Atom(a) => match a.as_int() {
                Some(n) => if n >= 0 {
                    Some(n as nat)
                } else {
                    None
                },
                None => None,
            },
            _ => None,
        }
    }
}

/// Whether every atom of a sequence is a string.
pub open spec fn all_text(atoms: Seq<AtomView>) -> bool {
    forall|i: int| 0 <= i < atoms.len() ==> #[trigger] atoms[i] is Text
}

/// The strings that a sequence of string atoms holds, in order.
pub open spec fn text_values(atoms: Seq<AtomView>) -> Seq<Seq<char>> {
    atoms.map_values(|a: AtomView| a->Text_0)
}

/// The items of a result document: none where the field is absent, the
/// strings of the sequence it holds where all its members are strings. `None`
/// on any other content.
pub open spec fn items_of(fields: Map<Seq<char>, Tree>, name: Seq<char>) -> Option<Seq<Seq<char>>> {
    if !fields.contains_key(name) {
        Some(Seq::empty())
    } else {
        match fields[name] {
            Tree::List(atoms) => if all_text(atoms) {
                Some(text_values(atoms))
            } else {
                None
            },
            _ => None,
        }
    }
}

/// What a result document decodes to. The key is required: without one the
/// document is a `MalformedSummary`. Count and items fall back to 0 and to the
/// empty sequence when absent; present with unusable content they make a
/// `DecodeError`.
pub open spec fn decoded(
    fields: Map<Seq<char>, Tree>,
    count_name: Seq<char>,
    items_name: Seq<char>,
) -> Result<SummaryView, FetchError> {
    match key_of(fields) {
        None => Err(FetchError::MalformedSummary),
        Some(key) => match (count_of(fields, count_name), items_of(fields, items_name)) {
            (Some(count), Some(items)) => Ok(SummaryView { key, count, items }),
            _ => Err(FetchError::DecodeError),
        },
    }
}

/// Whether an outcome of decoding is the one `expected` describes.
pub open spec fn decodes_to(
    outcome: Result<Summary, FetchError>,
    expected: Result<SummaryView, FetchError>,
) -> bool {
    match outcome {
        Ok(summary) => expected == Ok::<SummaryView, FetchError>(summary@),
        Err(e) => expected == Err::<SummaryView, FetchError>(e),
    }
}

/// Reads summaries out of raw result documents.
#[derive(Debug, PartialEq, Eq)]
pub struct SummaryDecoder {
    pub count_name: String,
    pub items_name: String,
}

fn read_key(raw: &Document) -> (key: Option<SummaryKey>)
    ensures
        match key {
            Some(k) => key_of(document_map(*raw)) == Some(k@),
            None => key_of(document_map(*raw)) is None,
        },
{
    match doc_get(raw, "_id") {
        Some(Value::Atom(Atom::Int32(v))) => Some(SummaryKey::Int(v as i64)),
        Some(Value::Atom(Atom::Int64(v))) => Some(SummaryKey::Int(v)),
        Some(Value::Atom(Atom::Text(s))) => Some(SummaryKey::Text(s)),
        _ => None,
    }
}

fn read_count(raw: &Document, name: &str) -> (count: Option<u64>)
    ensures
        match count {
            Some(n) => count_of(document_map(*raw), name@) == Some(n as nat),
            None => count_of(document_map(*raw), name@) is None,
        },
{
    match doc_get(raw, name) {
        None => Some(0),
        Some(Value::Atom(Atom::Int32(v))) => if v >= 0 {
            Some(v as u64)
        } else {
            None
        },
        Some(Value::Atom(Atom::Int64(v))) => if v >= 0 {
            Some(v as u64)
        } else {
            None
        },
        Some(_) => None,
    }
}

fn read_items(raw: &Document, name: &str) -> (items: Option<Vec<String>>)
    ensures
        match items {
            Some(v) => items_of(document_map(*raw), name@) == Some(texts(v@)),
            None => items_of(document_map(*raw), name@) is None,
        },
{
    match doc_get(raw, name) {
        None => {
            let items: Vec<String> = Vec::new();
            assert(texts(items@) == Seq::<Seq<char>>::empty());
            Some(items)
        },
        Some(Value::List(atoms)) => {
            let ghost views = atoms@.map_values(|a: Atom| a@);
            let mut items: Vec<String> = Vec::new();
            let mut i: usize = 0;
            while i < atoms.len()
                invariant
                    i <= atoms@.len(),
                    views == atoms@.map_values(|a: Atom| a@),
                    document_map(*raw).contains_key(name@),
                    document_map(*raw)[name@] == Tree::List(views),
                    items@.len() == i,
                    forall|j: int| 0 <= j < i ==> #[trigger] views[j] is Text,
                    forall|j: int| 0 <= j < i ==> (#[trigger] items@[j])@ == views[j]->Text_0,
                decreases atoms@.len() - i,
            {
                match &atoms[i] {
                    Atom::Text(s) => {
                        items.push(s.clone());
                    },
                    _ => {
                        assert(!(views[i as int] is Text));
                        return None;
                    },
                }
                i += 1;
            }
            assert(all_text(views));
            assert(texts(items@) == text_values(views));
            Some(items)
        },
        Some(_) => None,
    }
}

impl SummaryDecoder {
    /// A decoder for groups whose count and items are written under these names.
    pub fn new(count_name: &str, items_name: &str) -> (decoder: SummaryDecoder)
        ensures
            decoder.count_name@ == count_name@,
            decoder.items_name@ == items_name@,
    {
        SummaryDecoder {
            count_name: String::from_str(count_name),
            items_name: String::from_str(items_name),
        }
    }

    /// Decodes one raw result document.
    pub fn decode(&self, raw: &Document) -> (outcome: Result<Summary, FetchError>)
        ensures
            decodes_to(outcome, decoded(document_map(*raw), self.count_name@, self.items_name@)),
    {
        let key = match read_key(raw) {
            Some(key) => key,
            None => {
                return Err(FetchError::MalformedSummary);
            },
        };
        let count = read_count(raw, self.count_name.as_str());
        let items = read_items(raw, self.items_name.as_str());
        match (count, items) {
            (Some(count), Some(items)) => Ok(Summary { key, count, items }),
            _ => Err(FetchError::DecodeError),
        }
    }
}

/// A document without its key is malformed, whatever else it holds.
pub proof fn missing_key_is_malformed(
    fields: Map<Seq<char>, Tree>,
    count_name: Seq<char>,
    items_name: Seq<char>,
)
    requires
        !fields.contains_key("_id"@),
    ensures
        decoded(fields, count_name, items_name) == Err::<SummaryView, FetchError>(
            FetchError::MalformedSummary,
        ),
{
}

/// An absent count decodes as 0 and never makes decoding fail: the document
/// decodes exactly as it would with a count of 0 written into it.
pub proof fn absent_count_is_zero(
    fields: Map<Seq<char>, Tree>,
    count_name: Seq<char>,
    items_name: Seq<char>,
)
    requires
        !fields.contains_key(count_name),
        count_name != "_id"@,
        count_name != items_name,
    ensures
        count_of(fields, count_name) == Some(0nat),
        decoded(fields, count_name, items_name) matches Ok(summary) ==> summary.count == 0,
        decoded(fields, count_name, items_name) == decoded(
            fields.insert(count_name, Tree::Atom(AtomView::Int32(0))),
            count_name,
            items_name,
        ),
{
}

/// Absent items decode as the empty sequence and never make decoding fail:
/// the document decodes exactly as it would with an empty sequence written
/// into it.
pub proof fn absent_items_are_empty(
    fields: Map<Seq<char>, Tree>,
    count_name: Seq<char>,
    items_name: Seq<char>,
)
    requires
        !fields.contains_key(items_name),
        items_name != "_id"@,
        count_name != items_name,
    ensures
        items_of(fields, items_name) == Some(Seq::<Seq<char>>::empty()),
        decoded(fields, count_name, items_name) matches Ok(summary) ==> summary.items.len() == 0,
        decoded(fields, count_name, items_name) == decoded(
            fields.insert(items_name, Tree::List(Seq::empty())),
            count_name,
            items_name,
        ),
{
    let with_items = fields.insert(items_name, Tree::List(Seq::empty()));
    assert(all_text(Seq::<AtomView>::empty()));
    assert(text_values(Seq::<AtomView>::empty()) == Seq::<Seq<char>>::empty());
}

/// A document that has a key and neither count nor items decodes to that key,
/// a count of 0 and no items.
pub proof fn absent_fields_take_defaults(
    fields: Map<Seq<char>, Tree>,
    count_name: Seq<char>,
    items_name: Seq<char>,
)
    requires
        key_of(fields) is Some,
        !fields.contains_key(count_name),
        !fields.contains_key(items_name),
    ensures
        decoded(fields, count_name, items_name) == Ok::<SummaryView, FetchError>(
            SummaryView { key: key_of(fields)->Some_0, count: 0, items: Seq::empty() },
        ),
{
}

} // verus!
