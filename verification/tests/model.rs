use bson::{Bson, Document};
use trifetch::docstore::DocumentBackend;
use trifetch::error::FetchError;
use trifetch::pipeline::{Aggregation, Direction, Pipeline, Predicate, Stage};
use trifetch::model::evaluate;
use trifetch::summary::{Summary, SummaryKey};

const YEARS: [(i32, usize); 11] = [
    (1995, 3),
    (1996, 12),
    (1997, 2),
    (1998, 5),
    (1999, 1),
    (2000, 4),
    (2001, 7),
    (2002, 2),
    (2003, 6),
    (2004, 3),
    (2005, 1),
];

fn movie(title: &str, year: impl Into<Bson>) -> Document {
    let mut doc = Document::new();
    doc.insert("title", title);
    doc.insert("cast", "someone");
    doc.insert("year", year);
    doc.insert("plot", "something happens");
    doc
}

fn title(year: i32, n: usize) -> String {
    format!("{}-{}", year, n)
}

/// The movies of all years, the n-th of each year before the n+1-th, later
/// years first, with documents between them whose year is no number.
fn collection() -> Vec<Document> {
    let mut docs = Vec::new();
    for n in 0..12 {
        for (year, count) in YEARS.iter().rev() {
            if n < *count {
                docs.push(movie(&title(*year, n), *year));
            }
        }
        docs.push(movie("undated", "unknown"));
    }
    let mut yearless = Document::new();
    yearless.insert("title", "yearless");
    docs.push(yearless);
    docs
}

fn movies_by_year(limit: u32) -> DocumentBackend {
    DocumentBackend::new("year", "title", "movie_count", "movie_titles", limit)
}

#[test]
fn ten_summaries_for_the_first_ten_years() {
    let got = movies_by_year(10).fetch_from(&collection()).unwrap();
    assert_eq!(got.len(), 10);
    for (summary, (year, count)) in got.iter().zip(YEARS.iter()) {
        let titles: Vec<String> = (0..*count).map(|n| title(*year, n)).collect();
        assert_eq!(
            summary,
            &Summary { key: SummaryKey::Int(*year as i64), count: *count as u64, items: titles }
        );
    }
    assert_eq!(got[0].key, SummaryKey::Int(1995));
    assert_eq!(got[0].count, 3);
    assert_eq!(got[1].count, 12);
    assert_eq!(got[9].key, SummaryKey::Int(2004));
}

#[test]
fn keys_ascend_strictly() {
    let got = movies_by_year(10).fetch_from(&collection()).unwrap();
    for pair in got.windows(2) {
        match (&pair[0].key, &pair[1].key) {
            (SummaryKey::Int(a), SummaryKey::Int(b)) => assert!(a < b),
            other => panic!("a key that is no integer: {:?}", other),
        }
    }
}

#[test]
fn a_year_that_is_no_number_is_left_out() {
    let got = movies_by_year(100).fetch_from(&collection()).unwrap();
    assert_eq!(got.len(), 11);
    for summary in &got {
        assert!(matches!(summary.key, SummaryKey::Int(_)));
        assert!(!summary.items.contains(&"undated".to_string()));
        assert!(!summary.items.contains(&"yearless".to_string()));
    }
    let total: u64 = got.iter().map(|s| s.count).sum();
    assert_eq!(total, 46);
}

#[test]
fn fewer_keys_than_the_limit_all_come_back() {
    let got = movies_by_year(10).fetch_from(&vec![movie("a", 2001i32), movie("b", 1999i32)]).unwrap();
    assert_eq!(
        got,
        vec![
            Summary { key: SummaryKey::Int(1999), count: 1, items: vec!["b".to_string()] },
            Summary { key: SummaryKey::Int(2001), count: 1, items: vec!["a".to_string()] },
        ]
    );
}

#[test]
fn a_limit_of_zero_keeps_nothing() {
    assert_eq!(movies_by_year(0).fetch_from(&collection()), Ok(vec![]));
}

#[test]
fn an_empty_collection_has_no_summaries() {
    assert_eq!(movies_by_year(10).fetch_from(&vec![]), Ok(vec![]));
}

#[test]
fn both_integer_widths_name_the_same_group() {
    let docs = vec![movie("a", 1999i32), movie("b", 1999i64), movie("c", 1998i64)];
    let got = movies_by_year(10).fetch_from(&docs).unwrap();
    assert_eq!(
        got,
        vec![
            Summary { key: SummaryKey::Int(1998), count: 1, items: vec!["c".to_string()] },
            Summary {
                key: SummaryKey::Int(1999),
                count: 2,
                items: vec!["a".to_string(), "b".to_string()],
            },
        ]
    );
}

#[test]
fn a_member_without_the_item_field_counts_and_adds_no_item() {
    let mut untitled = Document::new();
    untitled.insert("year", 1999i32);
    let got = movies_by_year(10).fetch_from(&vec![movie("a", 1999i32), untitled]).unwrap();
    assert_eq!(got, vec![Summary { key: SummaryKey::Int(1999), count: 2, items: vec!["a".to_string()] }]);
}

#[test]
fn a_fractional_key_is_rejected_by_the_model_store() {
    let docs = vec![movie("a", 1999i32), movie("b", 1999.5f64)];
    assert_eq!(movies_by_year(10).fetch_from(&docs), Err(FetchError::PipelineRejected));
}

#[test]
fn an_item_that_is_no_string_is_a_decode_error() {
    let mut odd = Document::new();
    odd.insert("year", 1999i32);
    odd.insert("title", 7i32);
    assert_eq!(movies_by_year(10).fetch_from(&vec![odd]), Err(FetchError::DecodeError));
}

#[test]
fn an_item_that_cannot_be_held_is_rejected() {
    let mut odd = Document::new();
    odd.insert("year", 1999i32);
    odd.insert("title", true);
    assert_eq!(movies_by_year(10).fetch_from(&vec![odd]), Err(FetchError::PipelineRejected));
}

#[test]
fn filter_keeps_numbers_of_every_kind_in_order() {
    let docs = vec![
        movie("a", 3i32),
        movie("b", "three"),
        movie("c", 2.5f64),
        movie("d", 1i64),
        movie("e", Bson::Null),
    ];
    let pipeline = Pipeline::new(Stage::Filter { field: "year".to_string(), predicate: Predicate::IsNumber });
    let got = evaluate(&pipeline, &docs).unwrap();
    assert_eq!(got, vec![docs[0].clone(), docs[2].clone(), docs[3].clone()]);
}

#[test]
fn sort_is_stable_in_both_directions() {
    let docs = vec![movie("a", 2i32), movie("b", 1i32), movie("c", 2i32), movie("d", 3i32), movie("e", 1i32)];
    let up = Pipeline::new(Stage::Sort { field: "year".to_string(), direction: Direction::Ascending });
    let titles = |docs: &Vec<Document>| -> Vec<String> {
        docs.iter().map(|d| d.get_str("title").unwrap().to_string()).collect()
    };
    assert_eq!(titles(&evaluate(&up, &docs).unwrap()), vec!["b", "e", "a", "c", "d"]);
    let down = Pipeline::new(Stage::Sort { field: "year".to_string(), direction: Direction::Descending });
    assert_eq!(titles(&evaluate(&down, &docs).unwrap()), vec!["d", "a", "c", "b", "e"]);
}

#[test]
fn sort_by_what_is_no_integer_is_rejected() {
    let docs = vec![movie("a", 2i32), movie("b", "two")];
    let pipeline = Pipeline::new(Stage::Sort { field: "year".to_string(), direction: Direction::Ascending });
    assert_eq!(evaluate(&pipeline, &docs), Err(FetchError::PipelineRejected));
}

#[test]
fn limit_keeps_the_first_documents() {
    let docs = vec![movie("a", 2i32), movie("b", 1i32), movie("c", 3i32)];
    let two = Pipeline::new(Stage::Limit { count: 2 });
    assert_eq!(evaluate(&two, &docs).unwrap(), vec![docs[0].clone(), docs[1].clone()]);
    let nine = Pipeline::new(Stage::Limit { count: 9 });
    assert_eq!(evaluate(&nine, &docs).unwrap(), docs);
}

#[test]
fn group_answers_in_order_of_first_occurrence() {
    let docs = vec![movie("a", 2i32), movie("b", 1i32), movie("c", 2i32)];
    let pipeline = Pipeline::new(Stage::Group {
        key_field: "year".to_string(),
        aggregations: vec![
            ("n".to_string(), Aggregation::Count),
            ("titles".to_string(), Aggregation::Collect { source: "title".to_string() }),
        ],
    });
    let got = evaluate(&pipeline, &docs).unwrap();
    let mut first = Document::new();
    first.insert("_id", 2i32);
    first.insert("n", 2i32);
    first.insert("titles", vec![Bson::String("a".to_string()), Bson::String("c".to_string())]);
    let mut second = Document::new();
    second.insert("_id", 1i32);
    second.insert("n", 1i32);
    second.insert("titles", vec![Bson::String("b".to_string())]);
    assert_eq!(got, vec![first, second]);
}

#[test]
fn group_without_a_filter_rejects_a_key_that_is_no_integer() {
    let docs = vec![movie("a", 2i32), movie("b", "two")];
    let pipeline = Pipeline::new(Stage::Group { key_field: "year".to_string(), aggregations: vec![] });
    assert_eq!(evaluate(&pipeline, &docs), Err(FetchError::PipelineRejected));
}

#[test]
fn stages_run_in_the_order_of_the_pipeline() {
    let docs = vec![movie("a", 3i32), movie("b", 1i32), movie("c", 2i32)];
    let sort = || Stage::Sort { field: "year".to_string(), direction: Direction::Ascending };
    let titles = |docs: &Vec<Document>| -> Vec<String> {
        docs.iter().map(|d| d.get_str("title").unwrap().to_string()).collect()
    };
    let sort_then_limit = Pipeline::new(sort()).append(Stage::Limit { count: 2 });
    assert_eq!(titles(&evaluate(&sort_then_limit, &docs).unwrap()), vec!["b", "c"]);
    let limit_then_sort = Pipeline::new(Stage::Limit { count: 2 }).append(sort());
    assert_eq!(titles(&evaluate(&limit_then_sort, &docs).unwrap()), vec!["b", "a"]);
}
