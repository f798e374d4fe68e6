//! Aggregation pipelines: ordered sequences of stages that the document store
//! executes, and the documents that request them.

use crate::document::{doc_new, doc_put, document_map, Atom, AtomView, Tree, Value};
use bson::Document;
use vstd::prelude::*;
use vstd::string::StringExecFns;

verus! {

/// The number of groups the summary pipeline keeps when nothing else is asked.
pub const DEFAULT_LIMIT: u32 = 10;

/// What a filter stage asks of a field.
#[derive(Clone, Copy, Debug, PartialEq, Eq, Structural)]
pub enum Predicate {
    /// The field holds a number.
    IsNumber,
}

/// The order a sort stage puts documents in.
#[derive(Clone, Copy, Debug, PartialEq, Eq, Structural)]
pub enum Direction {
    Ascending,
    Descending,
}

/// What a group stage computes for each group.
#[derive(Debug, PartialEq, Eq)]
pub enum Aggregation {
    /// The number of documents in the group.
    Count,
    /// The values of `source` in the group's documents, in the store's order.
    Collect { source: String },
}

/// One operation of a pipeline. A stage describes intent; it executes nothing.
#[derive(Debug, PartialEq, Eq)]
pub enum Stage {
    /// Keep the documents whose `field` meets `predicate`.
    Filter { field: String, predicate: Predicate },
    /// One result per distinct value of `key_field`, with the named aggregations.
    Group { key_field: String, aggregations: Vec<(String, Aggregation)> },
    /// Order by `field`.
    Sort { field: String, direction: Direction },
    /// Keep the first `count` documents.
    Limit { count: u32 },
}

pub enum AggregationView {
    Count,
    Collect { source: Seq<char> },
}

pub enum StageView {
    Filter { field: Seq<char>, predicate: Predicate },
    Group { key_field: Seq<char>, aggregations: Seq<(Seq<char>, AggregationView)> },
    Sort { field: Seq<char>, direction: Direction },
    Limit { count: u32 },
}

impl View for Aggregation {
    type V = AggregationView;

    open spec fn view(&self) -> AggregationView {
        match self {
            Aggregation::Count => AggregationView::Count,
            Aggregation::Collect { source } => AggregationView::Collect { source: source@ },
        }
    }
}

/// The named aggregations of a group stage, each by its view.
pub open spec fn named_views(named: Seq<(String, Aggregation)>) -> Seq<(Seq<char>, AggregationView)> {
    named.map_values(|p: (String, Aggregation)| (p.0@, p.1@))
}

impl View for Stage {
    type V = StageView;

    open spec fn view(&self) -> StageView {
        match self {
            Stage::Filter { field, predicate } => StageView::Filter {
                field: field@,
                predicate: *predicate,
            },
            Stage::Group { key_field, aggregations } => StageView::Group {
                key_field: key_field@,
                aggregations: named_views(aggregations@),
            },
            Stage::Sort { field, direction } => StageView::Sort {
                field: field@,
                direction: *direction,
            },
            Stage::Limit { count } => StageView::Limit { count: *count },
        }
    }
}

/// A string field.
pub open spec fn text(s: Seq<char>) -> Tree {
    Tree::Atom(AtomView::Text(s))
}

/// A 32-bit integer field.
pub open spec fn int32(v: i32) -> Tree {
    Tree::Atom(AtomView::Int32(v))
}

/// The map with the single field `key`.
pub open spec fn single(key: Seq<char>, value: Tree) -> Map<Seq<char>, Tree> {
    Map::empty().insert(key, value)
}

/// How the store is told to read `field` of the current document.
pub open spec fn field_path(field: Seq<char>) -> Seq<char> {
    "$"@ + field
}

/// The operator document of an aggregation: `{"$sum": 1}` counts,
/// `{"$push": "$source"}` collects.
pub open spec fn aggregation_map(aggregation: AggregationView) -> Map<Seq<char>, Tree> {
    match aggregation {
        AggregationView::Count => single("$sum"@, int32(1)),
        AggregationView::Collect { source } => single("$push"@, text(field_path(source))),
    }
}

/// The body of a group stage: `_id` names the key, then each aggregation is
/// written under its output name, a later one replacing an earlier one of the
/// same name.
pub open spec fn group_body(
    key_field: Seq<char>,
    aggregations: Seq<(Seq<char>, AggregationView)>,
) -> Map<Seq<char>, Tree>
    decreases aggregations.len(),
{
    if aggregations.len() == 0 {
        single("_id"@, text(field_path(key_field)))
    } else {
        group_body(key_field, aggregations.drop_last()).insert(
            aggregations.last().0,
            Tree::Doc(aggregation_map(aggregations.last().1)),
        )
    }
}

/// The number a limit is written as: 32 bits wide where it fits.
pub open spec fn limit_tree(count: u32) -> Tree {
    if count <= i32::MAX {
        Tree::Atom(AtomView::Int32(count as i32))
    } else {
        Tree::Atom(AtomView::Int64(count as i64))
    }
}

/// The document that asks the store for a stage.
pub open spec fn stage_map(stage: StageView) -> Map<Seq<char>, Tree> {
    match stage {
        StageView::Filter { field, predicate: Predicate::IsNumber } => single(
            "$match"@,
            Tree::Doc(single(field, Tree::Doc(single("$type"@, text("number"@))))),
        ),
        StageView::Group { key_field, aggregations } => single(
            "$group"@,
            Tree::Doc(group_body(key_field, aggregations)),
        ),
        StageView::Sort { field, direction } => single(
            "$sort"@,
            Tree::Doc(
                single(
                    field,
                    int32(
                        match direction {
                            Direction::Ascending => 1i32,
                            Direction::Descending => -1i32,
                        },
                    ),
                ),
            ),
        ),
        StageView::Limit { count } => single("$limit"@, limit_tree(count)),
    }
}

/// A document with the single field `key`.
fn single_document(key: &str, value: Value) -> (doc: Document)
    requires
        value@.storable(),
    ensures
        document_map(doc) == single(key@, value@),
{
    let mut doc = doc_new();
    doc_put(&mut doc, key, value);
    doc
}

impl Aggregation {
    /// The operator document of this aggregation.
    pub fn to_document(&self) -> (doc: Document)
        ensures
            document_map(doc) == aggregation_map(self@),
    {
        match self {
            Aggregation::Count => single_document("$sum", Value::Atom(Atom::Int32(1))),
            Aggregation::Collect { source } => {
                let path = String::from_str("$").concat(source.as_str());
                single_document("$push", Value::Atom(Atom::Text(path)))
            },
        }
    }
}

impl Stage {
    /// The document that asks the store for this stage.
    pub fn to_document(&self) -> (doc: Document)
        ensures
            document_map(doc) == stage_map(self@),
    {
        match self {
            Stage::Filter { field, predicate } => {
                let kind = single_document("$type", Value::Atom(Atom::Text(String::from_str("number"))));
                let test = single_document(field.as_str(), Value::Doc(kind));
                single_document("$match", Value::Doc(test))
            },
            Stage::Group { key_field, aggregations } => {
                let path = String::from_str("$").concat(key_field.as_str());
                let mut body = single_document("_id", Value::Atom(Atom::Text(path)));
                let ghost named = named_views(aggregations@);
                let mut i: usize = 0;
                while i < aggregations.len()
                    invariant
                        i <= aggregations.len(),
                        named == named_views(aggregations@),
                        document_map(body) == group_body(key_field@, named.take(i as int)),
                    decreases aggregations.len() - i,
                {
                    let operator = aggregations[i].1.to_document();
                    doc_put(&mut body, aggregations[i].0.as_str(), Value::Doc(operator));
                    proof {
                        let next = named.take(i + 1);
                        assert(next.drop_last() == named.take(i as int));
                        assert(next.last() == (aggregations@[i as int].0@, aggregations@[i as int].1@));
                    }
                    i += 1;
                }
                proof {
                    assert(named.take(i as int) == named);
                }
                single_document("$group", Value::Doc(body))
            },
            Stage::Sort { field, direction } => {
                let sign: i32 = match direction {
                    Direction::Ascending => 1,
                    Direction::Descending => -1,
                };
                let order = single_document(field.as_str(), Value::Atom(Atom::Int32(sign)));
                single_document("$sort", Value::Doc(order))
            },
            Stage::Limit { count } => {
                if *count <= 0x7fff_ffff {
                    single_document("$limit", Value::Atom(Atom::Int32(*count as i32)))
                } else {
                    single_document("$limit", Value::Atom(Atom::Int64(*count as i64)))
                }
            },
        }
    }
}

/// The stages of a sequence, each by its view.
pub open spec fn stage_views(stages: Seq<Stage>) -> Seq<StageView> {
    stages.map_values(|s: Stage| s@)
}

/// The four stages that summarise a collection: keep the documents whose
/// `key_field` is a number, group them by it (counting under `count_name`,
/// collecting `item_field` under `items_name`), order the groups by key, and
/// keep the first `limit`.
pub open spec fn summary_stages(
    key_field: Seq<char>,
    item_field: Seq<char>,
    count_name: Seq<char>,
    items_name: Seq<char>,
    limit: u32,
) -> Seq<StageView> {
    seq![
        StageView::Filter { field: key_field, predicate: Predicate::IsNumber },
        StageView::Group {
            key_field,
            aggregations: seq![
                (count_name, AggregationView::Count),
                (items_name, AggregationView::Collect { source: item_field }),
            ],
        },
        StageView::Sort { field: "_id"@, direction: Direction::Ascending },
        StageView::Limit { count: limit },
    ]
}

/// A non-empty, ordered sequence of stages. The store executes them in the
/// order in which they were appended.
#[derive(Debug, PartialEq, Eq)]
pub struct Pipeline {
    stages: Vec<Stage>,
}

impl View for Pipeline {
    type V = Seq<StageView>;

    closed spec fn view(&self) -> Seq<StageView> {
        stage_views(self.stages@)
    }
}

impl Pipeline {
    #[verifier::type_invariant]
    spec fn nonempty(self) -> bool {
        self.stages@.len() >= 1
    }

    /// The pipeline of one stage.
    pub fn new(first: Stage) -> (p: Pipeline)
        ensures
            p@ == seq![first@],
    {
        let mut stages: Vec<Stage> = Vec::new();
        stages.push(first);
        assert(stage_views(stages@) == seq![first@]);
        Pipeline { stages }
    }

    /// This pipeline with `stage` after its last stage; the earlier stages keep
    /// their places.
    pub fn append(self, stage: Stage) -> (p: Pipeline)
        ensures
            p@ == self@.push(stage@),
    {
        proof {
            use_type_invariant(&self);
        }
        let mut stages = self.stages;
        let ghost before = stages@;
        stages.push(stage);
        assert(stage_views(stages@) == stage_views(before).push(stage@));
        Pipeline { stages }
    }

    /// The number of stages, which is never zero.
    pub fn len(&self) -> (n: usize)
        ensures
            n == self@.len(),
            n >= 1,
    {
        proof {
            use_type_invariant(self);
        }
        self.stages.len()
    }

    /// The stage at position `i`, where the pipeline has one there.
    pub fn stage(&self, i: usize) -> (found: Option<&Stage>)
        ensures
            found is Some <==> i < self@.len(),
            found matches Some(s) ==> s@ == self@[i as int],
    {
        if i < self.stages.len() {
            Some(&self.stages[i])
        } else {
            None
        }
    }

    pub(crate) fn stage_at(&self, i: usize) -> (s: &Stage)
        requires
            i < self@.len(),
        ensures
            s@ == self@[i as int],
    {
        &self.stages[i]
    }

    /// The documents that ask the store for the stages, in order.
    pub fn to_documents(&self) -> (docs: Vec<Document>)
        ensures
            docs@.len() == self@.len(),
            forall|i: int| 0 <= i < docs@.len() ==> document_map(#[trigger] docs@[i]) == stage_map(self@[i]),
    {
        let mut docs: Vec<Document> = Vec::new();
        let mut i: usize = 0;
        while i < self.stages.len()
            invariant
                i <= self.stages@.len(),
                docs@.len() == i,
                forall|j: int| 0 <= j < i ==> document_map(#[trigger] docs@[j]) == stage_map(self@[j]),
            decreases self.stages@.len() - i,
        {
            let doc = self.stages[i].to_document();
            docs.push(doc);
            i += 1;
        }
        docs
    }

    /// The summary pipeline over `key_field` and `item_field`.
    pub fn summary(
        key_field: &str,
        item_field: &str,
        count_name: &str,
        items_name: &str,
        limit: u32,
    ) -> (p: Pipeline)
        ensures
            p@ == summary_stages(key_field@, item_field@, count_name@, items_name@, limit),
    {
        let mut aggregations: Vec<(String, Aggregation)> = Vec::new();
        aggregations.push((String::from_str(count_name), Aggregation::Count));
        aggregations.push(
            (String::from_str(items_name), Aggregation::Collect { source: String::from_str(item_field) }),
        );
        assert(named_views(aggregations@) == seq![
            (count_name@, AggregationView::Count),
            (items_name@, AggregationView::Collect { source: item_field@ }),
        ]);
        let filter = Stage::Filter { field: String::from_str(key_field), predicate: Predicate::IsNumber };
        let group = Stage::Group { key_field: String::from_str(key_field), aggregations };
        let sort = Stage::Sort { field: String::from_str("_id"), direction: Direction::Ascending };
        let p = Pipeline::new(filter).append(group).append(sort).append(Stage::Limit { count: limit });
        assert(p@ == summary_stages(key_field@, item_field@, count_name@, items_name@, limit));
        p
    }
}

} // verus!
