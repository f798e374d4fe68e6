//! What the summary pipeline guarantees, proved over the model:
//! its results are bounded by the limit, carry integer keys only, and stand in
//! strictly ascending key order.

use crate::docstore::{
    all_decode, decoded_all, fetched, harvest_fails_on_an_undecodable_document,
    harvest_keeps_cursor_order,
};
use crate::document::{AtomView, Tree};
use crate::pipeline::{single, summary_stages, AggregationView, Direction, StageView};
use crate::error::FetchError;
use crate::model::{
    all_int_at, atom_at, collected, count_tree, group_fields, grouped, int_at, kept, key_values,
    keys_seen, limited, member_count, number_at, ordered, placed, precedes, ran,
};
use crate::summary::{all_text, decoded, key_of, text_values, SummaryKeyView, SummaryView};
use vstd::prelude::*;

verus! {

/// The integer under `field`.
pub open spec fn key_at(doc: Map<Seq<char>, Tree>, field: Seq<char>) -> int {
    int_at(doc, field)->Some_0
}

/// Whether the keys of a sequence of documents strictly ascend.
pub open spec fn ascending(docs: Seq<Map<Seq<char>, Tree>>, field: Seq<char>) -> bool {
    forall|i: int, j: int|
        #![trigger docs[i], docs[j]]
        0 <= i < j < docs.len() ==> key_at(docs[i], field) < key_at(docs[j], field)
}

/// Whether no two documents of a sequence share a key.
pub open spec fn distinct(docs: Seq<Map<Seq<char>, Tree>>, field: Seq<char>) -> bool {
    forall|i: int, j: int|
        #![trigger docs[i], docs[j]]
        0 <= i < j < docs.len() ==> key_at(docs[i], field) != key_at(docs[j], field)
}

/// Whether every document of `part` is one of `whole`.
pub open spec fn drawn_from(part: Seq<Map<Seq<char>, Tree>>, whole: Seq<Map<Seq<char>, Tree>>) -> bool {
    forall|i: int| 0 <= i < part.len() ==> whole.contains(#[trigger] part[i])
}

/// The filter keeps documents of the collection, and only such as have a
/// number under the field.
pub proof fn kept_documents_hold_numbers(docs: Seq<Map<Seq<char>, Tree>>, field: Seq<char>)
    ensures
        drawn_from(kept(docs, field), docs),
        forall|i: int| 0 <= i < kept(docs, field).len() ==> number_at(#[trigger] kept(docs, field)[i], field),
    decreases docs.len(),
{
    if docs.len() > 0 {
        let shorter = docs.drop_last();
        kept_documents_hold_numbers(shorter, field);
        let before = kept(shorter, field);
        let now = kept(docs, field);
        assert forall|i: int| 0 <= i < now.len() implies docs.contains(#[trigger] now[i]) && number_at(
            now[i],
            field,
        ) by {
            if i < before.len() {
                assert(now[i] == before[i]);
                assert(shorter.contains(before[i]));
                let t = choose|t: int| 0 <= t < shorter.len() && shorter[t] == before[i];
                assert(docs[t] == now[i]);
            } else {
                assert(now[i] == docs[docs.len() - 1]);
            }
        }
    }
}

/// Whether some document holds the atom `key` under `field`.
pub open spec fn occurs(docs: Seq<Map<Seq<char>, Tree>>, field: Seq<char>, key: AtomView) -> bool {
    exists|d: int| 0 <= d < docs.len() && #[trigger] atom_at(docs[d], field) == Some(key)
}

/// The keys that grouping sees are integers, no two of them equal, each the
/// key of a document, and the key of every document is among them.
pub proof fn keys_seen_are_the_distinct_keys(docs: Seq<Map<Seq<char>, Tree>>, field: Seq<char>)
    requires
        all_int_at(docs, field),
    ensures
        forall|t: int| 0 <= t < keys_seen(docs, field).len() ==> (#[trigger] keys_seen(docs, field)[t]).as_int() is Some,
        forall|s: int, t: int|
            #![trigger keys_seen(docs, field)[s], keys_seen(docs, field)[t]]
            0 <= s < t < keys_seen(docs, field).len() ==> keys_seen(docs, field)[s].as_int() != keys_seen(
                docs,
                field,
            )[t].as_int(),
        forall|t: int|
            0 <= t < keys_seen(docs, field).len() ==> occurs(docs, field, #[trigger] keys_seen(docs, field)[t]),
        forall|d: int|
            0 <= d < docs.len() ==> key_values(keys_seen(docs, field)).contains(
                (#[trigger] int_at(docs[d], field))->Some_0,
            ),
    decreases docs.len(),
{
    if docs.len() > 0 {
        let shorter = docs.drop_last();
        assert forall|d: int| 0 <= d < shorter.len() implies (#[trigger] int_at(shorter[d], field)) is Some by {
            assert(shorter[d] == docs[d]);
            assert(int_at(docs[d], field) is Some);
        }
        keys_seen_are_the_distinct_keys(shorter, field);
        let earlier = keys_seen(shorter, field);
        let keys = keys_seen(docs, field);
        let last = docs.len() - 1;
        assert(int_at(docs[last], field) is Some);
        let key = atom_at(docs.last(), field)->Some_0;
        let value = key.as_int()->Some_0;
        let known = key_values(earlier).contains(value);
        assert forall|t: int| 0 <= t < keys.len() implies (#[trigger] keys[t]).as_int() is Some by {
            if t < earlier.len() {
                assert(keys[t] == earlier[t]);
            }
        }
        assert forall|s: int, t: int| 0 <= s < t < keys.len() implies keys[s].as_int() != keys[t].as_int() by {
            assert(keys[s] == earlier[s]);
            if t < earlier.len() {
                assert(keys[t] == earlier[t]);
            } else {
                assert(!known);
                assert(key_values(earlier)[s] == earlier[s].as_int()->Some_0);
            }
        }
        assert forall|t: int| 0 <= t < keys.len() implies occurs(docs, field, #[trigger] keys[t]) by {
            if t < earlier.len() {
                assert(keys[t] == earlier[t]);
                assert(occurs(shorter, field, earlier[t]));
                let d = choose|d: int|
                    0 <= d < shorter.len() && #[trigger] atom_at(shorter[d], field) == Some(earlier[t]);
                assert(shorter[d] == docs[d]);
                assert(atom_at(docs[d], field) == Some(keys[t]));
            } else {
                assert(atom_at(docs[last], field) == Some(keys[t]));
            }
        }
        assert forall|d: int| 0 <= d < docs.len() implies key_values(keys).contains(
            (#[trigger] int_at(docs[d], field))->Some_0,
        ) by {
            let wanted = int_at(docs[d], field)->Some_0;
            if d < shorter.len() {
                assert(shorter[d] == docs[d]);
                assert(key_values(earlier).contains(int_at(shorter[d], field)->Some_0));
                let t = choose|t: int| 0 <= t < key_values(earlier).len() && key_values(earlier)[t] == wanted;
                assert(keys[t] == earlier[t]);
                assert(key_values(keys)[t] == wanted);
            } else if known {
                let t = choose|t: int| 0 <= t < key_values(earlier).len() && key_values(earlier)[t] == value;
                assert(key_values(keys)[t] == wanted);
            } else {
                assert(key_values(keys)[keys.len() - 1] == wanted);
            }
        }
    }
}

/// A result document keeps its group's key under `_id` when no aggregation is
/// written under that name.
pub proof fn group_key_stands_under_id(
    docs: Seq<Map<Seq<char>, Tree>>,
    field: Seq<char>,
    key: AtomView,
    aggregations: Seq<(Seq<char>, AggregationView)>,
)
    requires
        group_fields(docs, field, key, aggregations) is Some,
        forall|i: int| 0 <= i < aggregations.len() ==> (#[trigger] aggregations[i]).0 != "_id"@,
    ensures
        atom_at(group_fields(docs, field, key, aggregations)->Some_0, "_id"@) == Some(key),
    decreases aggregations.len(),
{
    if aggregations.len() > 0 {
        let shorter = aggregations.drop_last();
        assert forall|i: int| 0 <= i < shorter.len() implies (#[trigger] shorter[i]).0 != "_id"@ by {
            assert(shorter[i] == aggregations[i]);
        }
        assert(aggregations[aggregations.len() - 1].0 != "_id"@);
        group_key_stands_under_id(docs, field, key, shorter);
    }
}

/// Placing a document whose key is new into an ascending sequence leaves it
/// ascending, one longer, and made of the same documents and the new one.
pub proof fn placing_keeps_ascending(
    sorted: Seq<Map<Seq<char>, Tree>>,
    doc: Map<Seq<char>, Tree>,
    field: Seq<char>,
)
    requires
        ascending(sorted, field),
        forall|t: int| 0 <= t < sorted.len() ==> key_at(#[trigger] sorted[t], field) != key_at(doc, field),
    ensures
        ascending(placed(sorted, doc, field, Direction::Ascending), field),
        placed(sorted, doc, field, Direction::Ascending).len() == sorted.len() + 1,
        forall|i: int|
            0 <= i < placed(sorted, doc, field, Direction::Ascending).len() ==> {
                let d = #[trigger] placed(sorted, doc, field, Direction::Ascending)[i];
                d == doc || sorted.contains(d)
            },
    decreases sorted.len(),
{
    let result = placed(sorted, doc, field, Direction::Ascending);
    if sorted.len() == 0 {
    } else if precedes(key_at(sorted.last(), field), key_at(doc, field), Direction::Ascending) {
        assert(result == sorted.push(doc));
        assert forall|i: int, j: int| 0 <= i < j < result.len() implies key_at(result[i], field) < key_at(
            result[j],
            field,
        ) by {
            assert(result[i] == sorted[i]);
            if j < sorted.len() {
                assert(result[j] == sorted[j]);
            } else {
                assert(key_at(sorted[sorted.len() - 1], field) != key_at(doc, field));
                if i < sorted.len() - 1 {
                    assert(key_at(sorted[i], field) < key_at(sorted[sorted.len() - 1], field));
                }
            }
        }
        assert forall|i: int| 0 <= i < result.len() implies (#[trigger] result[i]) == doc || sorted.contains(
            result[i],
        ) by {
            if i < sorted.len() {
                assert(result[i] == sorted[i]);
            }
        }
    } else {
        let shorter = sorted.drop_last();
        let last = sorted.last();
        assert(ascending(shorter, field)) by {
            assert forall|i: int, j: int| 0 <= i < j < shorter.len() implies key_at(shorter[i], field) < key_at(
                shorter[j],
                field,
            ) by {
                assert(shorter[i] == sorted[i] && shorter[j] == sorted[j]);
            }
        }
        assert forall|t: int| 0 <= t < shorter.len() implies key_at(#[trigger] shorter[t], field) != key_at(
            doc,
            field,
        ) by {
            assert(shorter[t] == sorted[t]);
        }
        placing_keeps_ascending(shorter, doc, field);
        let inner = placed(shorter, doc, field, Direction::Ascending);
        assert(result == inner.push(last));
        assert forall|i: int| 0 <= i < result.len() implies (#[trigger] result[i]) == doc || sorted.contains(
            result[i],
        ) by {
            if i < inner.len() {
                assert(result[i] == inner[i]);
                if inner[i] != doc {
                    assert(shorter.contains(inner[i]));
                    let t = choose|t: int| 0 <= t < shorter.len() && shorter[t] == inner[i];
                    assert(sorted[t] == inner[i]);
                }
            } else {
                assert(result[i] == sorted[sorted.len() - 1]);
            }
        }
        assert forall|i: int, j: int| 0 <= i < j < result.len() implies key_at(result[i], field) < key_at(
            result[j],
            field,
        ) by {
            assert(result[i] == inner[i]);
            if j < inner.len() {
                assert(result[j] == inner[j]);
            } else {
                assert(result[j] == last);
                if inner[i] != doc {
                    assert(shorter.contains(inner[i]));
                    let t = choose|t: int| 0 <= t < shorter.len() && shorter[t] == inner[i];
                    assert(sorted[t] == inner[i]);
                    assert(key_at(sorted[t], field) < key_at(sorted[sorted.len() - 1], field));
                }
            }
        }
    }
}

/// Placing a document adds it and keeps the others.
pub proof fn placing_keeps_documents(
    sorted: Seq<Map<Seq<char>, Tree>>,
    doc: Map<Seq<char>, Tree>,
    field: Seq<char>,
    direction: Direction,
)
    ensures
        placed(sorted, doc, field, direction).len() == sorted.len() + 1,
        forall|i: int|
            0 <= i < placed(sorted, doc, field, direction).len() ==> {
                let d = #[trigger] placed(sorted, doc, field, direction)[i];
                d == doc || sorted.contains(d)
            },
    decreases sorted.len(),
{
    let result = placed(sorted, doc, field, direction);
    if sorted.len() == 0 {
    } else if precedes(key_at(sorted.last(), field), key_at(doc, field), direction) {
        assert forall|i: int| 0 <= i < result.len() implies (#[trigger] result[i]) == doc || sorted.contains(
            result[i],
        ) by {
            if i < sorted.len() {
                assert(result[i] == sorted[i]);
            }
        }
    } else {
        let shorter = sorted.drop_last();
        placing_keeps_documents(shorter, doc, field, direction);
        let inner = placed(shorter, doc, field, direction);
        assert forall|i: int| 0 <= i < result.len() implies (#[trigger] result[i]) == doc || sorted.contains(
            result[i],
        ) by {
            if i < inner.len() {
                assert(result[i] == inner[i]);
                if inner[i] != doc {
                    assert(shorter.contains(inner[i]));
                    let t = choose|t: int| 0 <= t < shorter.len() && shorter[t] == inner[i];
                    assert(sorted[t] == inner[i]);
                }
            } else {
                assert(result[i] == sorted[sorted.len() - 1]);
            }
        }
    }
}

/// Sorting gives as many documents as it was given, each of them one of
/// those.
pub proof fn ordering_keeps_documents(docs: Seq<Map<Seq<char>, Tree>>, field: Seq<char>)
    ensures
        ordered(docs, field, Direction::Ascending).len() == docs.len(),
        drawn_from(ordered(docs, field, Direction::Ascending), docs),
    decreases docs.len(),
{
    if docs.len() > 0 {
        let shorter = docs.drop_last();
        let doc = docs.last();
        ordering_keeps_documents(shorter, field);
        let sorted = ordered(shorter, field, Direction::Ascending);
        placing_keeps_documents(sorted, doc, field, Direction::Ascending);
        let result = ordered(docs, field, Direction::Ascending);
        assert forall|i: int| 0 <= i < result.len() implies docs.contains(#[trigger] result[i]) by {
            if result[i] == doc {
                assert(docs[docs.len() - 1] == doc);
            } else {
                assert(sorted.contains(result[i]));
                let t = choose|t: int| 0 <= t < sorted.len() && sorted[t] == result[i];
                assert(shorter.contains(sorted[t]));
                let s = choose|s: int| 0 <= s < shorter.len() && shorter[s] == sorted[t];
                assert(docs[s] == result[i]);
            }
        }
    }
}

/// Sorting documents with distinct keys in ascending order gives as many
/// documents, the same ones, with strictly ascending keys.
pub proof fn ordering_distinct_keys_ascends(docs: Seq<Map<Seq<char>, Tree>>, field: Seq<char>)
    requires
        distinct(docs, field),
    ensures
        ascending(ordered(docs, field, Direction::Ascending), field),
        ordered(docs, field, Direction::Ascending).len() == docs.len(),
        drawn_from(ordered(docs, field, Direction::Ascending), docs),
    decreases docs.len(),
{
    if docs.len() > 0 {
        let shorter = docs.drop_last();
        let doc = docs.last();
        assert(distinct(shorter, field)) by {
            assert forall|i: int, j: int| 0 <= i < j < shorter.len() implies key_at(shorter[i], field) != key_at(
                shorter[j],
                field,
            ) by {
                assert(shorter[i] == docs[i] && shorter[j] == docs[j]);
            }
        }
        ordering_distinct_keys_ascends(shorter, field);
        let sorted = ordered(shorter, field, Direction::Ascending);
        assert forall|t: int| 0 <= t < sorted.len() implies key_at(#[trigger] sorted[t], field) != key_at(
            doc,
            field,
        ) by {
            assert(shorter.contains(sorted[t]));
            let s = choose|s: int| 0 <= s < shorter.len() && shorter[s] == sorted[t];
            assert(docs[s] == sorted[t]);
            assert(docs[docs.len() - 1] == doc);
            assert(key_at(docs[s], field) != key_at(docs[docs.len() - 1], field));
        }
        placing_keeps_ascending(sorted, doc, field);
        let result = ordered(docs, field, Direction::Ascending);
        assert forall|i: int| 0 <= i < result.len() implies docs.contains(#[trigger] result[i]) by {
            if result[i] == doc {
                assert(docs[docs.len() - 1] == doc);
            } else {
                assert(sorted.contains(result[i]));
                let t = choose|t: int| 0 <= t < sorted.len() && sorted[t] == result[i];
                assert(shorter.contains(sorted[t]));
                let s = choose|s: int| 0 <= s < shorter.len() && shorter[s] == sorted[t];
                assert(docs[s] == result[i]);
            }
        }
    }
}

/// Whether a result document decodes to an integer key.
pub open spec fn has_integer_key(doc: Map<Seq<char>, Tree>) -> bool {
    key_of(doc) == Some(SummaryKeyView::Int(key_at(doc, "_id"@) as i64)) && i64::MIN <= key_at(doc, "_id"@)
        <= i64::MAX
}

/// Whatever collection the summary pipeline runs over, the results that the
/// model store answers with are as many as the limit allows, up to the
/// number of distinct keys among the documents with a number under the key
/// field; their keys ascend strictly; every key is an integer, and the key of
/// a document that passed the filter.
pub proof fn summary_results_ascend_within_the_limit(
    docs: Seq<Map<Seq<char>, Tree>>,
    key_field: Seq<char>,
    item_field: Seq<char>,
    count_name: Seq<char>,
    items_name: Seq<char>,
    limit: u32,
)
    requires
        count_name != "_id"@,
        items_name != "_id"@,
        ran(summary_stages(key_field, item_field, count_name, items_name, limit), docs) is Some,
    ensures
        ({
            let results = ran(summary_stages(key_field, item_field, count_name, items_name, limit), docs)->Some_0;
            let keys = keys_seen(kept(docs, key_field), key_field);
            &&& results.len() == if limit <= keys.len() {
                limit as int
            } else {
                keys.len() as int
            }
            &&& ascending(results, "_id"@)
            &&& forall|i: int| 0 <= i < results.len() ==> has_integer_key(#[trigger] results[i])
            &&& forall|i: int|
                0 <= i < results.len() ==> key_values(keys).contains(key_at(#[trigger] results[i], "_id"@))
        }),
{
    let stages = summary_stages(key_field, item_field, count_name, items_name, limit);
    let aggregations = seq![
        (count_name, AggregationView::Count),
        (items_name, AggregationView::Collect { source: item_field }),
    ];
    let one = stages.take(1);
    let two = stages.take(2);
    let three = stages.take(3);
    assert(stages.drop_last() == three);
    assert(three.drop_last() == two);
    assert(two.drop_last() == one);
    assert(one.drop_last() == Seq::<StageView>::empty());
    assert(ran(one.drop_last(), docs) == Some(docs));
    let passed = kept(docs, key_field);
    assert(ran(one, docs) == Some(passed));
    assert(ran(two, docs) == grouped(passed, key_field, aggregations));
    let groups = grouped(passed, key_field, aggregations)->Some_0;
    assert(ran(three, docs) == Some(ordered(groups, "_id"@, Direction::Ascending)));
    let sorted = ordered(groups, "_id"@, Direction::Ascending);
    let results = limited(sorted, limit);
    assert(ran(stages, docs) == Some(results));

    let keys = keys_seen(passed, key_field);
    keys_seen_are_the_distinct_keys(passed, key_field);
    assert(groups.len() == keys.len());
    assert forall|j: int| 0 <= j < groups.len() implies atom_at(#[trigger] groups[j], "_id"@) == Some(
        keys[j],
    ) by {
        assert(group_fields(passed, key_field, keys[j], aggregations) is Some);
        group_key_stands_under_id(passed, key_field, keys[j], aggregations);
    }
    assert forall|j: int| 0 <= j < groups.len() implies has_integer_key(#[trigger] groups[j])
        && key_values(keys).contains(key_at(groups[j], "_id"@)) by {
        assert(atom_at(groups[j], "_id"@) == Some(keys[j]));
        assert(keys[j].as_int() is Some);
        assert(key_values(keys)[j] == key_at(groups[j], "_id"@));
    }
    assert(distinct(groups, "_id"@)) by {
        assert forall|i: int, j: int| 0 <= i < j < groups.len() implies key_at(groups[i], "_id"@) != key_at(
            groups[j],
            "_id"@,
        ) by {
            assert(atom_at(groups[i], "_id"@) == Some(keys[i]));
            assert(atom_at(groups[j], "_id"@) == Some(keys[j]));
            assert(keys[i].as_int() != keys[j].as_int());
            assert(keys[i].as_int() is Some && keys[j].as_int() is Some);
        }
    }
    ordering_distinct_keys_ascends(groups, "_id"@);
    assert forall|i: int| 0 <= i < results.len() implies has_integer_key(#[trigger] results[i])
        && key_values(keys).contains(key_at(results[i], "_id"@)) by {
        assert(results[i] == sorted[i]);
        assert(groups.contains(sorted[i]));
        let j = choose|j: int| 0 <= j < groups.len() && groups[j] == sorted[i];
        assert(has_integer_key(groups[j]));
    }
    assert forall|i: int, j: int| 0 <= i < j < results.len() implies key_at(results[i], "_id"@) < key_at(
        results[j],
        "_id"@,
    ) by {
        assert(results[i] == sorted[i] && results[j] == sorted[j]);
    }
}

/// What a group of the summary pipeline decodes to: its key, the number of
/// its documents, and their items, where these are all strings; a
/// `DecodeError` where one of them is not.
pub open spec fn group_summary(
    passed: Seq<Map<Seq<char>, Tree>>,
    key_field: Seq<char>,
    item_field: Seq<char>,
    key: int,
) -> Result<SummaryView, FetchError> {
    let items = collected(passed, key_field, key, item_field)->Some_0;
    if all_text(items) {
        Ok(
            SummaryView {
                key: SummaryKeyView::Int(key as i64),
                count: member_count(passed, key_field, key),
                items: text_values(items),
            },
        )
    } else {
        Err(FetchError::DecodeError)
    }
}

/// Every result of the summary pipeline decodes to the summary of its group:
/// the count is the number of documents that passed the filter with that
/// key, and the items are their values of the item field, in the
/// collection's order.
pub proof fn summary_results_decode_to_their_groups(
    docs: Seq<Map<Seq<char>, Tree>>,
    key_field: Seq<char>,
    item_field: Seq<char>,
    count_name: Seq<char>,
    items_name: Seq<char>,
    limit: u32,
)
    requires
        count_name != "_id"@,
        items_name != "_id"@,
        count_name != items_name,
        ran(summary_stages(key_field, item_field, count_name, items_name, limit), docs) is Some,
    ensures
        ({
            let results = ran(summary_stages(key_field, item_field, count_name, items_name, limit), docs)->Some_0;
            forall|i: int|
                0 <= i < results.len() ==> decoded(#[trigger] results[i], count_name, items_name)
                    == group_summary(kept(docs, key_field), key_field, item_field, key_at(results[i], "_id"@))
        }),
{
    let stages = summary_stages(key_field, item_field, count_name, items_name, limit);
    let aggregations = seq![
        (count_name, AggregationView::Count),
        (items_name, AggregationView::Collect { source: item_field }),
    ];
    let one = stages.take(1);
    let two = stages.take(2);
    let three = stages.take(3);
    assert(stages.drop_last() == three);
    assert(three.drop_last() == two);
    assert(two.drop_last() == one);
    assert(one.drop_last() == Seq::<StageView>::empty());
    assert(ran(one.drop_last(), docs) == Some(docs));
    let passed = kept(docs, key_field);
    assert(ran(one, docs) == Some(passed));
    assert(ran(two, docs) == grouped(passed, key_field, aggregations));
    let groups = grouped(passed, key_field, aggregations)->Some_0;
    let sorted = ordered(groups, "_id"@, Direction::Ascending);
    assert(ran(three, docs) == Some(sorted));
    let results = limited(sorted, limit);
    assert(ran(stages, docs) == Some(results));

    let keys = keys_seen(passed, key_field);
    keys_seen_are_the_distinct_keys(passed, key_field);
    summary_results_ascend_within_the_limit(docs, key_field, item_field, count_name, items_name, limit);
    let counting = aggregations.drop_last();
    assert(counting == seq![(count_name, AggregationView::Count)]);
    assert(counting.drop_last() == Seq::<(Seq<char>, AggregationView)>::empty());
    assert forall|j: int| 0 <= j < groups.len() implies decoded(#[trigger] groups[j], count_name, items_name)
        == group_summary(passed, key_field, item_field, key_at(groups[j], "_id"@)) by {
        let key = keys[j];
        let value = key.as_int()->Some_0;
        assert(key.as_int() is Some);
        assert(group_fields(passed, key_field, key, aggregations) is Some);
        let bare = group_fields(passed, key_field, key, counting.drop_last())->Some_0;
        assert(bare == single("_id"@, Tree::Atom(key)));
        let counted = group_fields(passed, key_field, key, counting)->Some_0;
        let n = member_count(passed, key_field, value);
        assert(counted == bare.insert(count_name, count_tree(n)->Some_0));
        let items = collected(passed, key_field, value, item_field)->Some_0;
        assert(groups[j] == counted.insert(items_name, Tree::List(items)));
        assert(key_at(groups[j], "_id"@) == value);
    }
    ordering_keeps_documents(groups, "_id"@);
    assert forall|i: int| 0 <= i < results.len() implies decoded(#[trigger] results[i], count_name, items_name)
        == group_summary(passed, key_field, item_field, key_at(results[i], "_id"@)) by {
        assert(results[i] == sorted[i]);
        assert(groups.contains(sorted[i]));
        let j = choose|j: int| 0 <= j < groups.len() && groups[j] == sorted[i];
        assert(decoded(groups[j], count_name, items_name) == group_summary(
            passed,
            key_field,
            item_field,
            key_at(groups[j], "_id"@),
        ));
    }
}

/// A fetch of the summary pipeline over the model store that succeeds
/// yields as many summaries as the limit allows, up to the number of distinct
/// keys that passed the filter; every key is an integer, never another kind
/// of value; and the keys ascend strictly.
pub proof fn fetched_summaries_ascend_within_the_limit(
    docs: Seq<Map<Seq<char>, Tree>>,
    key_field: Seq<char>,
    item_field: Seq<char>,
    count_name: Seq<char>,
    items_name: Seq<char>,
    limit: u32,
)
    requires
        count_name != "_id"@,
        items_name != "_id"@,
        fetched(
            summary_stages(key_field, item_field, count_name, items_name, limit),
            docs,
            count_name,
            items_name,
        ) is Ok,
    ensures
        ({
            let summaries = fetched(
                summary_stages(key_field, item_field, count_name, items_name, limit),
                docs,
                count_name,
                items_name,
            )->Ok_0;
            let keys = keys_seen(kept(docs, key_field), key_field);
            &&& summaries.len() == if limit <= keys.len() {
                limit as int
            } else {
                keys.len() as int
            }
            &&& forall|i: int| 0 <= i < summaries.len() ==> (#[trigger] summaries[i]).key is Int
            &&& forall|i: int, j: int|
                #![trigger summaries[i], summaries[j]]
                0 <= i < j < summaries.len() ==> summaries[i].key->Int_0 < summaries[j].key->Int_0
        }),
{
    let stages = summary_stages(key_field, item_field, count_name, items_name, limit);
    let results = ran(stages, docs)->Some_0;
    summary_results_ascend_within_the_limit(docs, key_field, item_field, count_name, items_name, limit);
    if all_decode(results, count_name, items_name) {
        harvest_keeps_cursor_order(results, count_name, items_name);
        let summaries = decoded_all(results, count_name, items_name);
        assert forall|i: int| 0 <= i < summaries.len() implies (#[trigger] summaries[i]).key
            == SummaryKeyView::Int(key_at(results[i], "_id"@) as i64) by {
            assert(has_integer_key(results[i]));
            assert(decoded(results[i], count_name, items_name) is Ok);
        }
        assert forall|i: int, j: int| 0 <= i < j < summaries.len() implies summaries[i].key->Int_0
            < summaries[j].key->Int_0 by {
            assert(has_integer_key(results[i]) && has_integer_key(results[j]));
            assert(key_at(results[i], "_id"@) < key_at(results[j], "_id"@));
        }
    } else {
        harvest_fails_on_an_undecodable_document(results, count_name, items_name);
    }
}

} // verus!
