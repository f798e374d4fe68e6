//! Schema-less documents, as far as this library looks into them.
//!
//! A document is a `bson::Document`. The library reads and fills documents only
//! through the few functions at the end of this file; everything else reasons
//! about [`document_map`], the mathematical map a document stands for.

use bson::{Bson, Document};
use vstd::prelude::*;

verus! {

/// What a single value holds: an integer of either width, a string, or a tag.
pub enum AtomView {
    Int32(i32),
    Int64(i64),
    /// A number with a fractional representation; its magnitude is not held.
    Real,
    Text(Seq<char>),
    /// Anything else: null, booleans, dates, identifiers, nested containers.
    Other,
}

/// What a field of a document holds.
pub enum Tree {
    Atom(AtomView),
    List(Seq<AtomView>),
    Doc(Map<Seq<char>, Tree>),
}

/// A single value read from, or written to, a document.
#[derive(Debug, PartialEq)]
pub enum Atom {
    Int32(i32),
    Int64(i64),
    Real,
    Text(String),
    Other,
}

/// A field of a document: one value, a sequence of values, or a nested document.
#[derive(Debug, PartialEq)]
pub enum Value {
    Atom(Atom),
    List(Vec<Atom>),
    Doc(Document),
}

impl View for Atom {
    type V = AtomView;

    open spec fn view(&self) -> AtomView {
        match self {
            Atom::Int32(v) => AtomView::Int32(*v),
            Atom::Int64(v) => AtomView::Int64(*v),
            Atom::Real => AtomView::Real,
            Atom::Text(s) => AtomView::Text(s@),
            Atom::Other => AtomView::Other,
        }
    }
}

impl View for Value {
    type V = Tree;

    open spec fn view(&self) -> Tree {
        match self {
            Value::Atom(a) => Tree::Atom(a@),
            Value::List(items) => Tree::List(items@.map_values(|a: Atom| a@)),
            Value::Doc(d) => Tree::Doc(document_map(*d)),
        }
    }
}

impl AtomView {
    /// The integer an atom holds, if it holds one.
    pub open spec fn as_int(self) -> Option<int> {
        match self {
            AtomView::Int32(v) => Some(v as int),
            AtomView::Int64(v) => Some(v as int),
            _ => None,
        }
    }

    /// Integers and fractional numbers are numbers; nothing else is.
    pub open spec fn is_number(self) -> bool {
        self is Int32 || self is Int64 || self is Real
    }

    /// Whether the atom can be written into a document without loss.
    pub open spec fn storable(self) -> bool {
        self is Int32 || self is Int64 || self is Text
    }
}

impl Tree {
    /// Whether every atom in the field can be written without loss.
    pub open spec fn storable(self) -> bool {
        match self {
            Tree::Atom(a) => a.storable(),
            Tree::List(items) => forall|i: int| 0 <= i < items.len() ==> (#[trigger] items[i]).storable(),
            Tree::Doc(_) => true,
        }
    }
}

/// `bson::Document`, an ordered map from keys to values. Nothing here looks
/// inside one: what it holds is spoken of through [`document_map`].
#[verifier::external_type_specification]
#[verifier::external_body]
pub struct ExDocument(bson::Document);

/// The fields of a document, by key. Arrays are held as sequences of atoms and
/// nested documents as maps; a value of any other kind is an atom.
pub uninterp spec fn document_map(doc: Document) -> Map<Seq<char>, Tree>;

/// The map of a document without fields.
pub open spec fn no_fields() -> Map<Seq<char>, Tree> {
    Map::empty()
}

/// `bson::Document::new`: the document it returns has no fields.
#[verifier::external_body]
pub(crate) fn doc_new() -> (doc: Document)
    ensures
        document_map(doc) == no_fields(),
{
    Document::new()
}

/// `<bson::Document as Clone>::clone`: the copy holds the same fields.
pub assume_specification[ <bson::Document as Clone>::clone ](doc: &bson::Document) -> (copy: bson::Document)
    ensures
        document_map(copy) == document_map(*doc),
;

/// The maps of a sequence of documents.
pub open spec fn document_maps(docs: Seq<Document>) -> Seq<Map<Seq<char>, Tree>> {
    docs.map_values(|d: Document| document_map(d))
}

/// `bson::Document::get`: the field under `key`, if the document has one.
/// 32- and 64-bit integers and strings come back with their value, doubles and
/// 128-bit decimals as `Real`, an array element by element, a nested document
/// as it is, and every other kind as `Other`.
#[verifier::external_body]
pub(crate) fn doc_get(doc: &Document, key: &str) -> (found: Option<Value>)
    ensures
        found is Some <==> document_map(*doc).contains_key(key@),
        found matches Some(v) ==> v@ == document_map(*doc)[key@],
{
    let atom = |b: &Bson| match b {
        Bson::Int32(v) => Atom::Int32(*v),
        Bson::Int64(v) => Atom::Int64(*v),
        Bson::Double(_) | Bson::Decimal128(_) => Atom::Real,
        Bson::String(s) => Atom::Text(s.clone()),
        _ => Atom::Other,
    };
    doc.get(key).map(|b| match b {
        Bson::Array(items) => Value::List(items.iter().map(atom).collect()),
        Bson::Document(inner) => Value::Doc(inner.clone()),
        one => Value::Atom(atom(one)),
    })
}

/// `bson::Document::insert`: afterwards the document holds `value` under `key`
/// and every other field as before. Only integers, strings, sequences of
/// these and nested documents are written.
#[verifier::external_body]
pub(crate) fn doc_put(doc: &mut Document, key: &str, value: Value)
    requires
        value@.storable(),
    ensures
        document_map(*final(doc)) == document_map(*old(doc)).insert(key@, value@),
{
    let bson = |a: Atom| match a {
        Atom::Int32(v) => Bson::Int32(v),
        Atom::Int64(v) => Bson::Int64(v),
        Atom::Text(s) => Bson::String(s),
        Atom::Real | Atom::Other => Bson::Null,
    };
    doc.insert(key, match value {
        Value::List(items) => Bson::Array(items.into_iter().map(bson).collect()),
        Value::Doc(inner) => Bson::Document(inner),
        Value::Atom(one) => bson(one),
    });
}

} // verus!
