use bson::{Bson, Document};
use trifetch::error::FetchError;
use trifetch::summary::{Summary, SummaryDecoder, SummaryKey};

fn group(year: i32, count: i32, titles: &[&str]) -> Document {
    let mut doc = Document::new();
    doc.insert("_id", year);
    doc.insert("movie_count", count);
    doc.insert(
        "movie_titles",
        titles.iter().map(|t| Bson::String(t.to_string())).collect::<Vec<Bson>>(),
    );
    doc
}

fn decoder() -> SummaryDecoder {
    SummaryDecoder::new("movie_count", "movie_titles")
}

#[test]
fn decoder_keeps_its_field_names() {
    let d = decoder();
    assert_eq!(d.count_name, "movie_count");
    assert_eq!(d.items_name, "movie_titles");
}

#[test]
fn decodes_a_complete_group() {
    let got = decoder().decode(&group(1995, 2, &["Heat", "Casino"]));
    assert_eq!(
        got,
        Ok(Summary {
            key: SummaryKey::Int(1995),
            count: 2,
            items: vec!["Heat".to_string(), "Casino".to_string()],
        })
    );
}

#[test]
fn absent_count_and_items_take_their_defaults() {
    let mut doc = Document::new();
    doc.insert("_id", 2001i64);
    assert_eq!(
        decoder().decode(&doc),
        Ok(Summary { key: SummaryKey::Int(2001), count: 0, items: vec![] })
    );
}

#[test]
fn absent_count_alone_is_zero() {
    let mut doc = group(1999, 4, &["Magnolia"]);
    doc.remove("movie_count");
    assert_eq!(
        decoder().decode(&doc),
        Ok(Summary { key: SummaryKey::Int(1999), count: 0, items: vec!["Magnolia".to_string()] })
    );
}

#[test]
fn absent_items_alone_are_empty() {
    let mut doc = group(1999, 4, &["Magnolia"]);
    doc.remove("movie_titles");
    assert_eq!(
        decoder().decode(&doc),
        Ok(Summary { key: SummaryKey::Int(1999), count: 4, items: vec![] })
    );
}

#[test]
fn a_document_without_key_is_malformed() {
    let mut doc = group(1995, 1, &["Heat"]);
    doc.remove("_id");
    assert_eq!(decoder().decode(&doc), Err(FetchError::MalformedSummary));
}

#[test]
fn an_empty_document_is_malformed() {
    assert_eq!(decoder().decode(&Document::new()), Err(FetchError::MalformedSummary));
}

#[test]
fn a_key_of_unexpected_type_is_malformed() {
    for key in [Bson::Boolean(true), Bson::Null, Bson::Double(1995.0), Bson::Array(vec![])] {
        let mut doc = group(1995, 1, &["Heat"]);
        doc.insert("_id", key);
        assert_eq!(decoder().decode(&doc), Err(FetchError::MalformedSummary));
    }
}

#[test]
fn a_missing_key_outweighs_every_other_fault() {
    let mut doc = Document::new();
    doc.insert("movie_count", "many");
    doc.insert("movie_titles", 7i32);
    assert_eq!(decoder().decode(&doc), Err(FetchError::MalformedSummary));
}

#[test]
fn a_string_key_is_kept_as_text() {
    let mut doc = Document::new();
    doc.insert("_id", "unrated");
    doc.insert("movie_count", 3i32);
    assert_eq!(
        decoder().decode(&doc),
        Ok(Summary { key: SummaryKey::Text("unrated".to_string()), count: 3, items: vec![] })
    );
}

#[test]
fn a_wide_count_is_read() {
    let mut doc = Document::new();
    doc.insert("_id", 1995i32);
    doc.insert("movie_count", 5_000_000_000i64);
    assert_eq!(
        decoder().decode(&doc),
        Ok(Summary { key: SummaryKey::Int(1995), count: 5_000_000_000, items: vec![] })
    );
}

#[test]
fn a_count_that_is_no_count_is_a_decode_error() {
    for count in [Bson::Int32(-1), Bson::Int64(-7), Bson::String("3".to_string()), Bson::Double(3.0)] {
        let mut doc = group(1995, 1, &["Heat"]);
        doc.insert("movie_count", count);
        assert_eq!(decoder().decode(&doc), Err(FetchError::DecodeError));
    }
}

#[test]
fn items_that_are_no_strings_are_a_decode_error() {
    let mut doc = group(1995, 1, &["Heat"]);
    doc.insert("movie_titles", vec![Bson::String("Heat".to_string()), Bson::Int32(7)]);
    assert_eq!(decoder().decode(&doc), Err(FetchError::DecodeError));
    doc.insert("movie_titles", "Heat");
    assert_eq!(decoder().decode(&doc), Err(FetchError::DecodeError));
}

#[test]
fn items_keep_their_order_and_duplicates() {
    let got = decoder().decode(&group(1996, 3, &["b", "a", "b"])).unwrap();
    assert_eq!(got.items, vec!["b".to_string(), "a".to_string(), "b".to_string()]);
}

#[test]
fn other_fields_are_ignored() {
    let mut doc = group(1995, 1, &["Heat"]);
    doc.insert("extra", true);
    assert_eq!(
        decoder().decode(&doc),
        Ok(Summary { key: SummaryKey::Int(1995), count: 1, items: vec!["Heat".to_string()] })
    );
}
