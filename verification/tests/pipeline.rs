use bson::{Bson, Document};
use trifetch::pipeline::{Aggregation, Direction, Pipeline, Predicate, Stage, DEFAULT_LIMIT};

fn one(key: &str, value: impl Into<Bson>) -> Document {
    let mut doc = Document::new();
    doc.insert(key, value);
    doc
}

fn movies_by_year() -> Pipeline {
    Pipeline::summary("year", "title", "movie_count", "movie_titles", DEFAULT_LIMIT)
}

#[test]
fn default_limit_is_ten() {
    assert_eq!(DEFAULT_LIMIT, 10);
}

#[test]
fn summary_pipeline_has_its_four_stages_in_order() {
    let pipeline = movies_by_year();
    assert_eq!(pipeline.len(), 4);
    assert_eq!(
        pipeline.stage(0),
        Some(&Stage::Filter { field: "year".to_string(), predicate: Predicate::IsNumber })
    );
    assert_eq!(
        pipeline.stage(1),
        Some(&Stage::Group {
            key_field: "year".to_string(),
            aggregations: vec![
                ("movie_count".to_string(), Aggregation::Count),
                ("movie_titles".to_string(), Aggregation::Collect { source: "title".to_string() }),
            ],
        })
    );
    assert_eq!(
        pipeline.stage(2),
        Some(&Stage::Sort { field: "_id".to_string(), direction: Direction::Ascending })
    );
    assert_eq!(pipeline.stage(3), Some(&Stage::Limit { count: 10 }));
    assert_eq!(pipeline.stage(4), None);
}

#[test]
fn summary_pipeline_asks_the_store_for_the_expected_documents() {
    let docs = movies_by_year().to_documents();
    assert_eq!(docs.len(), 4);

    assert_eq!(docs[0], one("$match", one("year", one("$type", "number"))));

    let mut group = Document::new();
    group.insert("_id", "$year");
    group.insert("movie_count", one("$sum", 1i32));
    group.insert("movie_titles", one("$push", "$title"));
    assert_eq!(docs[1], one("$group", group));

    assert_eq!(docs[2], one("$sort", one("_id", 1i32)));
    assert_eq!(docs[3], one("$limit", 10i32));
}

#[test]
fn append_keeps_earlier_stages_in_place() {
    let first = Pipeline::new(Stage::Limit { count: 3 });
    assert_eq!(first.len(), 1);
    let second = first.append(Stage::Sort { field: "age".to_string(), direction: Direction::Descending });
    assert_eq!(second.len(), 2);
    assert_eq!(second.stage(0), Some(&Stage::Limit { count: 3 }));
    assert_eq!(
        second.stage(1),
        Some(&Stage::Sort { field: "age".to_string(), direction: Direction::Descending })
    );
}

#[test]
fn descending_sort_is_written_as_minus_one() {
    let stage = Stage::Sort { field: "age".to_string(), direction: Direction::Descending };
    assert_eq!(stage.to_document(), one("$sort", one("age", -1i32)));
}

#[test]
fn a_limit_beyond_32_bits_is_written_wide() {
    let narrow = Stage::Limit { count: 2_147_483_647 };
    assert_eq!(narrow.to_document(), one("$limit", 2_147_483_647i32));
    let wide = Stage::Limit { count: 2_147_483_648 };
    assert_eq!(wide.to_document(), one("$limit", 2_147_483_648i64));
}

#[test]
fn aggregations_are_written_as_operators() {
    assert_eq!(Aggregation::Count.to_document(), one("$sum", 1i32));
    assert_eq!(
        Aggregation::Collect { source: "cast".to_string() }.to_document(),
        one("$push", "$cast")
    );
}

#[test]
fn a_later_aggregation_replaces_an_earlier_one_of_the_same_name() {
    let stage = Stage::Group {
        key_field: "city".to_string(),
        aggregations: vec![
            ("n".to_string(), Aggregation::Count),
            ("n".to_string(), Aggregation::Collect { source: "name".to_string() }),
        ],
    };
    let mut body = Document::new();
    body.insert("_id", "$city");
    body.insert("n", one("$push", "$name"));
    assert_eq!(stage.to_document(), one("$group", body));
}
