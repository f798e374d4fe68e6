use bson::Document;
use trifetch::docstore::{CursorEvent, DocumentBackend, Harvest};
use trifetch::error::FetchError;
use trifetch::pipeline::Pipeline;
use trifetch::summary::{Summary, SummaryKey};

fn group(year: i32, count: i32) -> Document {
    let mut doc = Document::new();
    doc.insert("_id", year);
    doc.insert("movie_count", count);
    doc
}

fn summary(year: i64, count: u64) -> Summary {
    Summary { key: SummaryKey::Int(year), count, items: vec![] }
}

#[test]
fn the_backend_of_this_system_summarises_movies_by_year() {
    let backend = DocumentBackend::movies_by_year();
    assert_eq!(backend.pipeline, Pipeline::summary("year", "title", "movie_count", "movie_titles", 10));
    assert_eq!(backend.decoder.count_name, "movie_count");
    assert_eq!(backend.decoder.items_name, "movie_titles");
}

#[test]
fn a_harvest_gathers_until_the_cursor_is_exhausted() {
    let backend = DocumentBackend::movies_by_year();
    let harvest = Harvest::begin();
    assert!(harvest.wants_more());
    let harvest = backend.advance(harvest, CursorEvent::Document(group(1995, 3)));
    assert!(harvest.wants_more());
    assert_eq!(harvest, Harvest::Collecting(vec![summary(1995, 3)]));
    let harvest = backend.advance(harvest, CursorEvent::Document(group(1996, 12)));
    let harvest = backend.advance(harvest, CursorEvent::Exhausted);
    assert!(!harvest.wants_more());
    assert_eq!(harvest.into_result(), Some(Ok(vec![summary(1995, 3), summary(1996, 12)])));
}

#[test]
fn a_harvest_in_progress_has_no_result() {
    assert_eq!(Harvest::begin().into_result(), None);
}

#[test]
fn each_failure_of_the_store_ends_the_fetch_with_its_error() {
    let backend = DocumentBackend::movies_by_year();
    let ends = [
        (CursorEvent::Unreachable, FetchError::BackendUnavailable),
        (CursorEvent::Rejected, FetchError::PipelineRejected),
        (CursorEvent::Failed, FetchError::TransportError),
        (CursorEvent::Document(Document::new()), FetchError::MalformedSummary),
    ];
    for (event, error) in ends {
        let harvest = backend.advance(Harvest::begin(), CursorEvent::Document(group(1995, 3)));
        let harvest = backend.advance(harvest, event);
        assert_eq!(harvest.into_result(), Some(Err(error)));
    }
}

#[test]
fn a_finished_harvest_takes_nothing_more() {
    let backend = DocumentBackend::movies_by_year();
    let harvest = backend.advance(Harvest::begin(), CursorEvent::Failed);
    let harvest = backend.advance(harvest, CursorEvent::Document(group(1995, 3)));
    let harvest = backend.advance(harvest, CursorEvent::Exhausted);
    assert_eq!(harvest.into_result(), Some(Err(FetchError::TransportError)));

    let done = backend.advance(Harvest::begin(), CursorEvent::Exhausted);
    let done = backend.advance(done, CursorEvent::Document(group(1995, 3)));
    assert_eq!(done.into_result(), Some(Ok(vec![])));
}
