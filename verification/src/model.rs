//! A model of the four stages over a collection held in memory:
//! what the store is expected to answer, stated so that it can be reasoned
//! about and run.
//!
//! The model store groups and sorts by integers only. Where a pipeline
//! would have it group or sort by anything else, or collect a value that it
//! cannot hold, it rejects the pipeline.

use crate::document::{
    doc_get, doc_new, doc_put, document_map, document_maps, Atom, AtomView, Tree, Value,
};
use crate::error::FetchError;
use crate::pipeline::{
    named_views, single, Aggregation, AggregationView, Direction, Pipeline, Predicate, Stage,
    StageView,
};
use bson::Document;
use vstd::prelude::*;

verus! {

/// The atom under `name`, where the document has one.
pub open spec fn atom_at(fields: Map<Seq<char>, Tree>, name: Seq<char>) -> Option<AtomView> {
    if fields.contains_key(name) && fields[name] is Atom {
        Some(fields[name]->Atom_0)
    } else {
        None
    }
}

/// The integer under `name`, where the document has one.
pub open spec fn int_at(fields: Map<Seq<char>, Tree>, name: Seq<char>) -> Option<int> {
    match atom_at(fields, name) {
        Some(a) => a.as_int(),
        None => None,
    }
}

/// Whether the document has a number under `name`.
pub open spec fn number_at(fields: Map<Seq<char>, Tree>, name: Seq<char>) -> bool {
    match atom_at(fields, name) {
        Some(a) => a.is_number(),
        None => false,
    }
}

/// Whether every document has an integer under `name`.
pub open spec fn all_int_at(docs: Seq<Map<Seq<char>, Tree>>, name: Seq<char>) -> bool {
    forall|i: int| 0 <= i < docs.len() ==> (#[trigger] int_at(docs[i], name)) is Some
}

/// The filter stage: the documents with a number under `field`, in order.
pub open spec fn kept(docs: Seq<Map<Seq<char>, Tree>>, field: Seq<char>) -> Seq<Map<Seq<char>, Tree>>
    decreases docs.len(),
{
    if docs.len() == 0 {
        Seq::empty()
    } else if number_at(docs.last(), field) {
        kept(docs.drop_last(), field).push(docs.last())
    } else {
        kept(docs.drop_last(), field)
    }
}

/// Whether a document with key `a` may stand before one with key `b`.
pub open spec fn precedes(a: int, b: int, direction: Direction) -> bool {
    match direction {
        Direction::Ascending => a <= b,
        Direction::Descending => a >= b,
    }
}

/// A sorted sequence with one more document: it goes behind the last
/// document that may stand before it.
pub open spec fn placed(
    sorted: Seq<Map<Seq<char>, Tree>>,
    doc: Map<Seq<char>, Tree>,
    field: Seq<char>,
    direction: Direction,
) -> Seq<Map<Seq<char>, Tree>>
    decreases sorted.len(),
{
    if sorted.len() == 0 {
        seq![doc]
    } else if precedes(int_at(sorted.last(), field)->Some_0, int_at(doc, field)->Some_0, direction) {
        sorted.push(doc)
    } else {
        placed(sorted.drop_last(), doc, field, direction).push(sorted.last())
    }
}

/// The sort stage: the documents ordered by the integer under `field`,
/// documents with equal keys in their earlier order.
pub open spec fn ordered(
    docs: Seq<Map<Seq<char>, Tree>>,
    field: Seq<char>,
    direction: Direction,
) -> Seq<Map<Seq<char>, Tree>>
    decreases docs.len(),
{
    if docs.len() == 0 {
        Seq::empty()
    } else {
        placed(ordered(docs.drop_last(), field, direction), docs.last(), field, direction)
    }
}

/// The limit stage: the first `count` documents, or all where there are fewer.
pub open spec fn limited(docs: Seq<Map<Seq<char>, Tree>>, count: u32) -> Seq<Map<Seq<char>, Tree>> {
    if count <= docs.len() {
        docs.take(count as int)
    } else {
        docs
    }
}

/// An integer atom and the integer it holds.
fn read_int(doc: &Document, field: &str) -> (found: Option<(i64, Atom)>)
    ensures
        match found {
            Some((k, a)) => atom_at(document_map(*doc), field@) == Some(a@) && a@.as_int() == Some(
                k as int,
            ),
            None => int_at(document_map(*doc), field@) is None,
        },
{
    match doc_get(doc, field) {
        Some(Value::Atom(Atom::Int32(v))) => Some((v as i64, Atom::Int32(v))),
        Some(Value::Atom(Atom::Int64(v))) => Some((v, Atom::Int64(v))),
        _ => None,
    }
}

fn has_number(doc: &Document, field: &str) -> (yes: bool)
    ensures
        yes == number_at(document_map(*doc), field@),
{
    match doc_get(doc, field) {
        Some(Value::Atom(Atom::Int32(_))) => true,
        Some(Value::Atom(Atom::Int64(_))) => true,
        Some(Value::Atom(Atom::Real)) => true,
        _ => false,
    }
}

fn keep_numbers(docs: &Vec<Document>, field: &str) -> (out: Vec<Document>)
    ensures
        document_maps(out@) == kept(document_maps(docs@), field@),
{
    let ghost maps = document_maps(docs@);
    let mut out: Vec<Document> = Vec::new();
    let mut i: usize = 0;
    assert(maps.take(0) == Seq::<Map<Seq<char>, Tree>>::empty());
    while i < docs.len()
        invariant
            i <= docs@.len(),
            maps == document_maps(docs@),
            document_maps(out@) == kept(maps.take(i as int), field@),
        decreases docs@.len() - i,
    {
        proof {
            let next = maps.take(i + 1);
            assert(next.drop_last() == maps.take(i as int));
            assert(next.last() == document_map(docs@[i as int]));
        }
        if has_number(&docs[i], field) {
            let ghost before = out@;
            let copy = docs[i].clone();
            out.push(copy);
            assert(document_maps(out@) == document_maps(before).push(document_map(copy)));
        }
        i += 1;
    }
    assert(maps.take(i as int) == maps);
    out
}

fn keep_first(docs: &Vec<Document>, count: u32) -> (out: Vec<Document>)
    ensures
        document_maps(out@) == limited(document_maps(docs@), count),
{
    let ghost maps = document_maps(docs@);
    let end: usize = if (count as usize) <= docs.len() {
        count as usize
    } else {
        docs.len()
    };
    let mut out: Vec<Document> = Vec::new();
    let mut i: usize = 0;
    while i < end
        invariant
            i <= end <= docs@.len(),
            maps == document_maps(docs@),
            document_maps(out@) == maps.take(i as int),
        decreases end - i,
    {
        let ghost before = out@;
        let copy = docs[i].clone();
        out.push(copy);
        assert(document_maps(out@) == document_maps(before).push(document_map(copy)));
        assert(maps.take(i + 1) == maps.take(i as int).push(maps[i as int]));
        i += 1;
    }
    assert(maps.take(maps.len() as int) == maps);
    out
}

/// Where a document goes in a sorted sequence: behind everything that may
/// stand before it, and before everything else.
proof fn placed_is_an_insertion(
    sorted: Seq<Map<Seq<char>, Tree>>,
    doc: Map<Seq<char>, Tree>,
    field: Seq<char>,
    direction: Direction,
    at: int,
)
    requires
        0 <= at <= sorted.len(),
        forall|t: int|
            at <= t < sorted.len() ==> !precedes(
                (#[trigger] int_at(sorted[t], field))->Some_0,
                int_at(doc, field)->Some_0,
                direction,
            ),
        at > 0 ==> precedes(int_at(sorted[at - 1], field)->Some_0, int_at(doc, field)->Some_0, direction),
    ensures
        placed(sorted, doc, field, direction) == sorted.insert(at, doc),
    decreases sorted.len(),
{
    if sorted.len() == 0 {
        assert(sorted.insert(at, doc) == seq![doc]);
    } else if at == sorted.len() {
        assert(sorted.insert(at, doc) == sorted.push(doc));
    } else {
        let shorter = sorted.drop_last();
        assert(!precedes(
            int_at(sorted[sorted.len() - 1], field)->Some_0,
            int_at(doc, field)->Some_0,
            direction,
        ));
        assert forall|t: int| at <= t < shorter.len() implies !precedes(
            (#[trigger] int_at(shorter[t], field))->Some_0,
            int_at(doc, field)->Some_0,
            direction,
        ) by {
            assert(shorter[t] == sorted[t]);
        }
        placed_is_an_insertion(shorter, doc, field, direction, at);
        assert(shorter.insert(at, doc).push(sorted.last()) == sorted.insert(at, doc));
    }
}

fn may_precede(a: i64, b: i64, direction: Direction) -> (yes: bool)
    ensures
        yes == precedes(a as int, b as int, direction),
{
    match direction {
        Direction::Ascending => a <= b,
        Direction::Descending => a >= b,
    }
}

fn order_by(docs: &Vec<Document>, field: &str, direction: Direction) -> (out: Option<Vec<Document>>)
    ensures
        match out {
            Some(sorted) => all_int_at(document_maps(docs@), field@) && document_maps(sorted@)
                == ordered(document_maps(docs@), field@, direction),
            None => !all_int_at(document_maps(docs@), field@),
        },
{
    let ghost maps = document_maps(docs@);
    let mut out: Vec<Document> = Vec::new();
    let mut keys: Vec<i64> = Vec::new();
    let mut i: usize = 0;
    assert(maps.take(0) == Seq::<Map<Seq<char>, Tree>>::empty());
    while i < docs.len()
        invariant
            i <= docs@.len(),
            maps == document_maps(docs@),
            forall|t: int| 0 <= t < i ==> (#[trigger] int_at(maps[t], field@)) is Some,
            document_maps(out@) == ordered(maps.take(i as int), field@, direction),
            keys@.len() == out@.len(),
            forall|t: int|
                0 <= t < keys@.len() ==> int_at(document_map(out@[t]), field@) == Some(
                    #[trigger] keys@[t] as int,
                ),
        decreases docs@.len() - i,
    {
        let key = match read_int(&docs[i], field) {
            Some((key, _)) => key,
            None => {
                assert(int_at(maps[i as int], field@) is None);
                return None;
            },
        };
        let mut at: usize = out.len();
        while at > 0 && !may_precede(keys[at - 1], key, direction)
            invariant
                at <= keys@.len(),
                forall|t: int| at <= t < keys@.len() ==> !precedes(#[trigger] keys@[t] as int, key as int, direction),
            decreases at,
        {
            at -= 1;
        }
        proof {
            let sorted = document_maps(out@);
            let doc = maps[i as int];
            assert forall|t: int| at <= t < sorted.len() implies !precedes(
                (#[trigger] int_at(sorted[t], field@))->Some_0,
                int_at(doc, field@)->Some_0,
                direction,
            ) by {
                assert(int_at(document_map(out@[t]), field@) == Some(keys@[t] as int));
            }
            if at > 0 {
                assert(int_at(document_map(out@[at - 1]), field@) == Some(keys@[at - 1] as int));
            }
            placed_is_an_insertion(sorted, doc, field@, direction, at as int);
            let next = maps.take(i + 1);
            assert(next.drop_last() == maps.take(i as int));
            assert(next.last() == doc);
        }
        let ghost before = out@;
        let copy = docs[i].clone();
        out.insert(at, copy);
        keys.insert(at, key);
        assert(document_maps(out@) == document_maps(before).insert(at as int, document_map(copy)));
        i += 1;
    }
    assert(maps.take(i as int) == maps);
    Some(out)
}

/// The integers that a sequence of integer atoms holds.
pub open spec fn key_values(keys: Seq<AtomView>) -> Seq<int> {
    keys.map_values(|a: AtomView| a.as_int()->Some_0)
}

/// The views of a sequence of atoms.
pub open spec fn atom_views(atoms: Seq<Atom>) -> Seq<AtomView> {
    atoms.map_values(|a: Atom| a@)
}

/// The distinct keys of a collection, each as the atom in which it first
/// occurs, in the order of first occurrence.
pub open spec fn keys_seen(docs: Seq<Map<Seq<char>, Tree>>, field: Seq<char>) -> Seq<AtomView>
    decreases docs.len(),
{
    if docs.len() == 0 {
        Seq::empty()
    } else {
        let earlier = keys_seen(docs.drop_last(), field);
        let key = atom_at(docs.last(), field)->Some_0;
        if key_values(earlier).contains(key.as_int()->Some_0) {
            earlier
        } else {
            earlier.push(key)
        }
    }
}

/// The number of documents with the key `key`.
pub open spec fn member_count(docs: Seq<Map<Seq<char>, Tree>>, field: Seq<char>, key: int) -> nat
    decreases docs.len(),
{
    if docs.len() == 0 {
        0
    } else if int_at(docs.last(), field) == Some(key) {
        member_count(docs.drop_last(), field, key) + 1
    } else {
        member_count(docs.drop_last(), field, key)
    }
}

/// The values under `source` of the documents with the key `key`, in the
/// collection's order. A member without the field adds nothing. `None` where
/// a member holds there what cannot be written back: anything but an integer
/// or a string.
pub open spec fn collected(
    docs: Seq<Map<Seq<char>, Tree>>,
    field: Seq<char>,
    key: int,
    source: Seq<char>,
) -> Option<Seq<AtomView>>
    decreases docs.len(),
{
    if docs.len() == 0 {
        Some(Seq::empty())
    } else {
        match collected(docs.drop_last(), field, key, source) {
            None => None,
            Some(items) => if int_at(docs.last(), field) != Some(key) || !docs.last().contains_key(
                source,
            ) {
                Some(items)
            } else {
                match docs.last()[source] {
                    Tree::Atom(a) => if a.storable() {
                        Some(items.push(a))
                    } else {
                        None
                    },
                    _ => None,
                }
            },
        }
    }
}

/// A count as it is written: 32 bits wide where it fits, else 64.
pub open spec fn count_tree(n: nat) -> Option<Tree> {
    if n <= i32::MAX {
        Some(Tree::Atom(AtomView::Int32(n as i32)))
    } else if n <= i64::MAX {
        Some(Tree::Atom(AtomView::Int64(n as i64)))
    } else {
        None
    }
}

/// What an aggregation computes for the group with the key `key`.
pub open spec fn aggregated(
    docs: Seq<Map<Seq<char>, Tree>>,
    field: Seq<char>,
    key: int,
    aggregation: AggregationView,
) -> Option<Tree> {
    match aggregation {
        AggregationView::Count => count_tree(member_count(docs, field, key)),
        AggregationView::Collect { source } => match collected(docs, field, key, source) {
            Some(items) => Some(Tree::List(items)),
            None => None,
        },
    }
}

/// The result document of one group: the key under `_id`, then what each
/// aggregation computes under its name, a later one replacing an earlier one
/// of the same name.
pub open spec fn group_fields(
    docs: Seq<Map<Seq<char>, Tree>>,
    field: Seq<char>,
    key: AtomView,
    aggregations: Seq<(Seq<char>, AggregationView)>,
) -> Option<Map<Seq<char>, Tree>>
    decreases aggregations.len(),
{
    if aggregations.len() == 0 {
        Some(single("_id"@, Tree::Atom(key)))
    } else {
        match (
            group_fields(docs, field, key, aggregations.drop_last()),
            aggregated(docs, field, key.as_int()->Some_0, aggregations.last().1),
        ) {
            (Some(fields), Some(tree)) => Some(fields.insert(aggregations.last().0, tree)),
            _ => None,
        }
    }
}

/// The group stage: one result document per distinct key, in the order in
/// which the keys first occur. `None` where a document has no integer under
/// `field`, or where a group has no result document.
pub open spec fn grouped(
    docs: Seq<Map<Seq<char>, Tree>>,
    field: Seq<char>,
    aggregations: Seq<(Seq<char>, AggregationView)>,
) -> Option<Seq<Map<Seq<char>, Tree>>> {
    let keys = keys_seen(docs, field);
    if all_int_at(docs, field) && forall|j: int|
        0 <= j < keys.len() ==> (#[trigger] group_fields(docs, field, keys[j], aggregations)) is Some {
        Some(Seq::new(keys.len(), |j: int| group_fields(docs, field, keys[j], aggregations)->Some_0))
    } else {
        None
    }
}

/// What a stage makes of a collection, or `None` where the model store
/// rejects it.
pub open spec fn applied(stage: StageView, docs: Seq<Map<Seq<char>, Tree>>) -> Option<
    Seq<Map<Seq<char>, Tree>>,
> {
    match stage {
        StageView::Filter { field, predicate: Predicate::IsNumber } => Some(kept(docs, field)),
        StageView::Group { key_field, aggregations } => grouped(docs, key_field, aggregations),
        StageView::Sort { field, direction } => if all_int_at(docs, field) {
            Some(ordered(docs, field, direction))
        } else {
            None
        },
        StageView::Limit { count } => Some(limited(docs, count)),
    }
}

/// What a sequence of stages makes of a collection: each stage works on what
/// the stages before it left.
pub open spec fn ran(stages: Seq<StageView>, docs: Seq<Map<Seq<char>, Tree>>) -> Option<
    Seq<Map<Seq<char>, Tree>>,
>
    decreases stages.len(),
{
    if stages.len() == 0 {
        Some(docs)
    } else {
        match ran(stages.drop_last(), docs) {
            Some(left) => applied(stages.last(), left),
            None => None,
        }
    }
}

fn holds(values: &Vec<i64>, key: i64) -> (yes: bool)
    ensures
        yes == values@.contains(key),
{
    let mut i: usize = 0;
    while i < values.len()
        invariant
            i <= values@.len(),
            forall|t: int| 0 <= t < i ==> values@[t] != key,
        decreases values@.len() - i,
    {
        if values[i] == key {
            return true;
        }
        i += 1;
    }
    false
}

/// The distinct keys of a collection, with the integers they hold.
fn distinct_keys(docs: &Vec<Document>, field: &str) -> (out: Option<(Vec<Atom>, Vec<i64>)>)
    ensures
        match out {
            Some((keys, values)) => {
                &&& all_int_at(document_maps(docs@), field@)
                &&& atom_views(keys@) == keys_seen(document_maps(docs@), field@)
                &&& values@.len() == keys@.len()
                &&& forall|t: int|
                    0 <= t < keys@.len() ==> (#[trigger] keys@[t])@.as_int() == Some(values@[t] as int)
            },
            None => !all_int_at(document_maps(docs@), field@),
        },
{
    let ghost maps = document_maps(docs@);
    let mut keys: Vec<Atom> = Vec::new();
    let mut values: Vec<i64> = Vec::new();
    let mut i: usize = 0;
    assert(maps.take(0) == Seq::<Map<Seq<char>, Tree>>::empty());
    assert(atom_views(keys@) == Seq::<AtomView>::empty());
    while i < docs.len()
        invariant
            i <= docs@.len(),
            maps == document_maps(docs@),
            forall|t: int| 0 <= t < i ==> (#[trigger] int_at(maps[t], field@)) is Some,
            atom_views(keys@) == keys_seen(maps.take(i as int), field@),
            values@.len() == keys@.len(),
            forall|t: int| 0 <= t < keys@.len() ==> (#[trigger] keys@[t])@.as_int() == Some(values@[t] as int),
        decreases docs@.len() - i,
    {
        let (value, key) = match read_int(&docs[i], field) {
            Some(pair) => pair,
            None => {
                assert(int_at(maps[i as int], field@) is None);
                return None;
            },
        };
        let known = holds(&values, value);
        proof {
            let next = maps.take(i + 1);
            assert(next.drop_last() == maps.take(i as int));
            assert(next.last() == maps[i as int]);
            let earlier = key_values(atom_views(keys@));
            assert(earlier.len() == values@.len());
            assert forall|t: int| 0 <= t < earlier.len() implies earlier[t] == values@[t] as int by {
                assert(keys@[t]@.as_int() == Some(values@[t] as int));
            }
            if known {
                let t = choose|t: int| 0 <= t < values@.len() && values@[t] == value;
                assert(earlier[t] == value as int);
            } else {
                assert(!earlier.contains(value as int)) by {
                    if earlier.contains(value as int) {
                        let t = choose|t: int| 0 <= t < earlier.len() && earlier[t] == value as int;
                        assert(values@[t] == value);
                    }
                }
            }
        }
        if !known {
            let ghost before = keys@;
            keys.push(key);
            values.push(value);
            assert(atom_views(keys@) == atom_views(before).push(key@));
        }
        i += 1;
    }
    assert(maps.take(i as int) == maps);
    Some((keys, values))
}

fn count_members(docs: &Vec<Document>, field: &str, key: i64) -> (n: usize)
    ensures
        n == member_count(document_maps(docs@), field@, key as int),
{
    let ghost maps = document_maps(docs@);
    let mut n: usize = 0;
    let mut i: usize = 0;
    assert(maps.take(0) == Seq::<Map<Seq<char>, Tree>>::empty());
    while i < docs.len()
        invariant
            i <= docs@.len(),
            n <= i,
            maps == document_maps(docs@),
            n == member_count(maps.take(i as int), field@, key as int),
        decreases docs@.len() - i,
    {
        proof {
            let next = maps.take(i + 1);
            assert(next.drop_last() == maps.take(i as int));
            assert(next.last() == maps[i as int]);
        }
        match read_int(&docs[i], field) {
            Some((value, _)) => {
                if value == key {
                    n += 1;
                }
            },
            None => {},
        }
        i += 1;
    }
    assert(maps.take(i as int) == maps);
    n
}

/// Once a member has been met that cannot be collected, no longer collection
/// can be.
proof fn rejection_of_items_persists(
    docs: Seq<Map<Seq<char>, Tree>>,
    field: Seq<char>,
    key: int,
    source: Seq<char>,
    n: int,
)
    requires
        0 <= n <= docs.len(),
        collected(docs.take(n), field, key, source) is None,
    ensures
        collected(docs, field, key, source) is None,
    decreases docs.len(),
{
    if n == docs.len() {
        assert(docs.take(n) == docs);
    } else {
        assert(docs.drop_last().take(n) == docs.take(n));
        rejection_of_items_persists(docs.drop_last(), field, key, source, n);
    }
}

fn collect_items(docs: &Vec<Document>, field: &str, key: i64, source: &str) -> (out: Option<Vec<Atom>>)
    ensures
        match out {
            Some(items) => collected(document_maps(docs@), field@, key as int, source@) == Some(
                atom_views(items@),
            ) && forall|t: int| 0 <= t < items@.len() ==> (#[trigger] items@[t])@.storable(),
            None => collected(document_maps(docs@), field@, key as int, source@) is None,
        },
{
    let ghost maps = document_maps(docs@);
    let mut items: Vec<Atom> = Vec::new();
    let mut i: usize = 0;
    assert(maps.take(0) == Seq::<Map<Seq<char>, Tree>>::empty());
    assert(atom_views(items@) == Seq::<AtomView>::empty());
    while i < docs.len()
        invariant
            i <= docs@.len(),
            maps == document_maps(docs@),
            collected(maps.take(i as int), field@, key as int, source@) == Some(atom_views(items@)),
            forall|t: int| 0 <= t < items@.len() ==> (#[trigger] items@[t])@.storable(),
        decreases docs@.len() - i,
    {
        proof {
            let next = maps.take(i + 1);
            assert(next.drop_last() == maps.take(i as int));
            assert(next.last() == maps[i as int]);
        }
        let member = match read_int(&docs[i], field) {
            Some((value, _)) => value == key,
            None => false,
        };
        if member {
            let ghost before = items@;
            match doc_get(&docs[i], source) {
                None => {},
                Some(Value::Atom(Atom::Int32(v))) => {
                    items.push(Atom::Int32(v));
                    assert(atom_views(items@) == atom_views(before).push(AtomView::Int32(v)));
                },
                Some(Value::Atom(Atom::Int64(v))) => {
                    items.push(Atom::Int64(v));
                    assert(atom_views(items@) == atom_views(before).push(AtomView::Int64(v)));
                },
                Some(Value::Atom(Atom::Text(s))) => {
                    let ghost text = s@;
                    items.push(Atom::Text(s));
                    assert(atom_views(items@) == atom_views(before).push(AtomView::Text(text)));
                },
                Some(_) => {
                    proof {
                        rejection_of_items_persists(maps, field@, key as int, source@, i + 1);
                    }
                    return None;
                },
            }
        }
        i += 1;
    }
    assert(maps.take(i as int) == maps);
    Some(items)
}

fn copy_key(key: &Atom) -> (copy: Atom)
    requires
        key@.as_int() is Some,
    ensures
        copy@ == key@,
{
    match key {
        Atom::Int32(v) => Atom::Int32(*v),
        Atom::Int64(v) => Atom::Int64(*v),
        _ => Atom::Other,
    }
}

/// Once an aggregation has no result, the group has no result document.
proof fn rejection_of_a_group_persists(
    docs: Seq<Map<Seq<char>, Tree>>,
    field: Seq<char>,
    key: AtomView,
    aggregations: Seq<(Seq<char>, AggregationView)>,
    n: int,
)
    requires
        0 <= n <= aggregations.len(),
        group_fields(docs, field, key, aggregations.take(n)) is None,
    ensures
        group_fields(docs, field, key, aggregations) is None,
    decreases aggregations.len(),
{
    if n == aggregations.len() {
        assert(aggregations.take(n) == aggregations);
    } else {
        assert(aggregations.drop_last().take(n) == aggregations.take(n));
        rejection_of_a_group_persists(docs, field, key, aggregations.drop_last(), n);
    }
}

fn aggregate(docs: &Vec<Document>, field: &str, key: i64, aggregation: &Aggregation) -> (out: Option<Value>)
    ensures
        match out {
            Some(value) => aggregated(document_maps(docs@), field@, key as int, aggregation@) == Some(
                value@,
            ) && value@.storable(),
            None => aggregated(document_maps(docs@), field@, key as int, aggregation@) is None,
        },
{
    match aggregation {
        Aggregation::Count => {
            let n = count_members(docs, field, key);
            if n <= 0x7fff_ffff {
                Some(Value::Atom(Atom::Int32(n as i32)))
            } else if n as u64 <= 0x7fff_ffff_ffff_ffff {
                Some(Value::Atom(Atom::Int64(n as i64)))
            } else {
                None
            }
        },
        Aggregation::Collect { source } => match collect_items(docs, field, key, source.as_str()) {
            Some(items) => {
                assert(Value::List(items)@ == Tree::List(atom_views(items@)));
                Some(Value::List(items))
            },
            None => None,
        },
    }
}

fn group_document(
    docs: &Vec<Document>,
    field: &str,
    key: &Atom,
    value: i64,
    aggregations: &Vec<(String, Aggregation)>,
) -> (out: Option<Document>)
    requires
        key@.as_int() == Some(value as int),
    ensures
        match out {
            Some(doc) => group_fields(document_maps(docs@), field@, key@, named_views(aggregations@))
                == Some(document_map(doc)),
            None => group_fields(document_maps(docs@), field@, key@, named_views(aggregations@)) is None,
        },
{
    let ghost maps = document_maps(docs@);
    let ghost named = named_views(aggregations@);
    let mut body = doc_new();
    doc_put(&mut body, "_id", Value::Atom(copy_key(key)));
    let mut i: usize = 0;
    assert(named.take(0) == Seq::<(Seq<char>, AggregationView)>::empty());
    while i < aggregations.len()
        invariant
            i <= aggregations@.len(),
            maps == document_maps(docs@),
            named == named_views(aggregations@),
            key@.as_int() == Some(value as int),
            group_fields(maps, field@, key@, named.take(i as int)) == Some(document_map(body)),
        decreases aggregations@.len() - i,
    {
        proof {
            let next = named.take(i + 1);
            assert(next.drop_last() == named.take(i as int));
            assert(next.last() == (aggregations@[i as int].0@, aggregations@[i as int].1@));
        }
        match aggregate(docs, field, value, &aggregations[i].1) {
            Some(result) => {
                doc_put(&mut body, aggregations[i].0.as_str(), result);
            },
            None => {
                proof {
                    rejection_of_a_group_persists(maps, field@, key@, named, i + 1);
                }
                return None;
            },
        }
        i += 1;
    }
    assert(named.take(i as int) == named);
    Some(body)
}

fn group_by(docs: &Vec<Document>, field: &str, aggregations: &Vec<(String, Aggregation)>) -> (out: Option<
    Vec<Document>,
>)
    ensures
        match out {
            Some(groups) => grouped(document_maps(docs@), field@, named_views(aggregations@)) == Some(
                document_maps(groups@),
            ),
            None => grouped(document_maps(docs@), field@, named_views(aggregations@)) is None,
        },
{
    let ghost maps = document_maps(docs@);
    let ghost named = named_views(aggregations@);
    let (keys, values) = match distinct_keys(docs, field) {
        Some(pair) => pair,
        None => {
            return None;
        },
    };
    let ghost seen = keys_seen(maps, field@);
    let mut groups: Vec<Document> = Vec::new();
    let mut i: usize = 0;
    while i < keys.len()
        invariant
            i <= keys@.len(),
            maps == document_maps(docs@),
            named == named_views(aggregations@),
            seen == keys_seen(maps, field@),
            atom_views(keys@) == seen,
            all_int_at(maps, field@),
            values@.len() == keys@.len(),
            forall|t: int| 0 <= t < keys@.len() ==> (#[trigger] keys@[t])@.as_int() == Some(values@[t] as int),
            groups@.len() == i,
            forall|t: int|
                0 <= t < i ==> group_fields(maps, field@, seen[t], named) == Some(
                    document_map(#[trigger] groups@[t]),
                ),
        decreases keys@.len() - i,
    {
        assert(keys@[i as int]@ == seen[i as int]);
        match group_document(docs, field, &keys[i], values[i], aggregations) {
            Some(doc) => {
                groups.push(doc);
            },
            None => {
                assert(group_fields(maps, field@, seen[i as int], named) is None);
                return None;
            },
        }
        i += 1;
    }
    assert(seen.len() == keys@.len());
    assert forall|j: int| 0 <= j < seen.len() implies (#[trigger] group_fields(
        maps,
        field@,
        seen[j],
        named,
    )) is Some by {
        assert(group_fields(maps, field@, seen[j], named) == Some(document_map(groups@[j])));
    }
    assert(document_maps(groups@) == Seq::new(
        seen.len(),
        |j: int| group_fields(maps, field@, seen[j], named)->Some_0,
    ));
    Some(groups)
}

fn apply(stage: &Stage, docs: &Vec<Document>) -> (out: Option<Vec<Document>>)
    ensures
        match out {
            Some(results) => applied(stage@, document_maps(docs@)) == Some(document_maps(results@)),
            None => applied(stage@, document_maps(docs@)) is None,
        },
{
    match stage {
        Stage::Filter { field, predicate } => Some(keep_numbers(docs, field.as_str())),
        Stage::Group { key_field, aggregations } => group_by(docs, key_field.as_str(), aggregations),
        Stage::Sort { field, direction } => order_by(docs, field.as_str(), *direction),
        Stage::Limit { count } => Some(keep_first(docs, *count)),
    }
}

/// Once a stage has been rejected, the pipeline is.
proof fn rejection_of_a_stage_persists(stages: Seq<StageView>, docs: Seq<Map<Seq<char>, Tree>>, n: int)
    requires
        0 <= n <= stages.len(),
        ran(stages.take(n), docs) is None,
    ensures
        ran(stages, docs) is None,
    decreases stages.len(),
{
    if n == stages.len() {
        assert(stages.take(n) == stages);
    } else {
        assert(stages.drop_last().take(n) == stages.take(n));
        rejection_of_a_stage_persists(stages.drop_last(), docs, n);
    }
}

/// Runs a pipeline over a collection held in memory, as the model store
/// would: the result documents in order, or `PipelineRejected` where the
/// model store rejects a stage.
pub fn evaluate(pipeline: &Pipeline, collection: &Vec<Document>) -> (out: Result<Vec<Document>, FetchError>)
    ensures
        match out {
            Ok(results) => ran(pipeline@, document_maps(collection@)) == Some(document_maps(results@)),
            Err(e) => e == FetchError::PipelineRejected && ran(pipeline@, document_maps(collection@)) is None,
        },
{
    let ghost maps = document_maps(collection@);
    let ghost stages = pipeline@;
    let count = pipeline.len();
    proof {
        let first = stages.take(1);
        assert(first.drop_last() == Seq::<StageView>::empty());
        assert(first.last() == stages[0]);
        assert(ran(first.drop_last(), maps) == Some(maps));
        assert(ran(first, maps) == applied(stages[0], maps));
    }
    let mut current = match apply(pipeline.stage_at(0), collection) {
        Some(results) => results,
        None => {
            proof {
                rejection_of_a_stage_persists(stages, maps, 1);
            }
            return Err(FetchError::PipelineRejected);
        },
    };
    let mut i: usize = 1;
    while i < count
        invariant
            1 <= i <= count,
            count == stages.len(),
            stages == pipeline@,
            maps == document_maps(collection@),
            ran(stages.take(i as int), maps) == Some(document_maps(current@)),
        decreases count - i,
    {
        proof {
            let next = stages.take(i + 1);
            assert(next.drop_last() == stages.take(i as int));
            assert(next.last() == stages[i as int]);
        }
        match apply(pipeline.stage_at(i), &current) {
            Some(results) => {
                current = results;
            },
            None => {
                proof {
                    assert(ran(stages.take(i + 1), maps) is None);
                    rejection_of_a_stage_persists(stages, maps, i + 1);
                }
                return Err(FetchError::PipelineRejected);
            },
        }
        i += 1;
    }
    assert(stages.take(i as int) == stages);
    Ok(current)
}

} // verus!
