//! The document backend: it owns the summary pipeline and turns the store's
//! cursor, one event at a time, into summaries.
//!
//! The cursor itself lives with the caller. The caller asks it for the next
//! document and hands what came back to [`DocumentBackend::advance`], until
//! the harvest no longer [`wants_more`](Harvest::wants_more).

use crate::document::{document_map, document_maps, Tree};
use crate::error::FetchError;
use crate::pipeline::{summary_stages, Pipeline, StageView, DEFAULT_LIMIT};
use crate::model::{evaluate, ran};
use crate::summary::{decoded, Summary, SummaryDecoder, SummaryView};
use bson::Document;
use vstd::prelude::*;

verus! {

/// What the store gave when asked to run the pipeline or for the next result.
#[derive(Debug, PartialEq)]
pub enum CursorEvent {
    /// The next raw result document.
    Document(Document),
    /// The cursor has no more results.
    Exhausted,
    /// The connection to the store could not be established.
    Unreachable,
    /// The store reported a stage as invalid.
    Rejected,
    /// The cursor failed while it was advancing.
    Failed,
}

pub enum EventView {
    Document(Map<Seq<char>, Tree>),
    Exhausted,
    Unreachable,
    Rejected,
    Failed,
}

impl View for CursorEvent {
    type V = EventView;

    open spec fn view(&self) -> EventView {
        match self {
            CursorEvent::Document(doc) => EventView::Document(document_map(*doc)),
            CursorEvent::Exhausted => EventView::Exhausted,
            CursorEvent::Unreachable => EventView::Unreachable,
            CursorEvent::Rejected => EventView::Rejected,
            CursorEvent::Failed => EventView::Failed,
        }
    }
}

/// The summaries gathered so far, or how the fetch ended.
#[derive(Debug, PartialEq, Eq)]
pub enum Harvest {
    Collecting(Vec<Summary>),
    Finished(Result<Vec<Summary>, FetchError>),
}

pub enum HarvestView {
    Collecting(Seq<SummaryView>),
    Finished(Result<Seq<SummaryView>, FetchError>),
}

/// The views of a sequence of summaries.
pub open spec fn summary_views(summaries: Seq<Summary>) -> Seq<SummaryView> {
    summaries.map_values(|s: Summary| s@)
}

impl View for Harvest {
    type V = HarvestView;

    open spec fn view(&self) -> HarvestView {
        match self {
            Harvest::Collecting(summaries) => HarvestView::Collecting(summary_views(summaries@)),
            Harvest::Finished(Ok(summaries)) => HarvestView::Finished(Ok(summary_views(summaries@))),
            Harvest::Finished(Err(e)) => HarvestView::Finished(Err(*e)),
        }
    }
}

/// The harvest after one more event. A document is decoded and joins the
/// summaries, or ends the fetch with its decoding error; exhaustion ends it
/// with the summaries gathered; each failure of the store ends it with its
/// error. A finished harvest stays as it is.
pub open spec fn advanced(
    harvest: HarvestView,
    event: EventView,
    count_name: Seq<char>,
    items_name: Seq<char>,
) -> HarvestView {
    match harvest {
        HarvestView::Finished(end) => HarvestView::Finished(end),
        HarvestView::Collecting(summaries) => match event {
            EventView::Document(fields) => match decoded(fields, count_name, items_name) {
                Ok(summary) => HarvestView::Collecting(summaries.push(summary)),
                Err(e) => HarvestView::Finished(Err(e)),
            },
            EventView::Exhausted => HarvestView::Finished(Ok(summaries)),
            EventView::Unreachable => HarvestView::Finished(Err(FetchError::BackendUnavailable)),
            EventView::Rejected => HarvestView::Finished(Err(FetchError::PipelineRejected)),
            EventView::Failed => HarvestView::Finished(Err(FetchError::TransportError)),
        },
    }
}

/// The harvest after a sequence of events, taken in order.
pub open spec fn advanced_through(
    harvest: HarvestView,
    events: Seq<EventView>,
    count_name: Seq<char>,
    items_name: Seq<char>,
) -> HarvestView
    decreases events.len(),
{
    if events.len() == 0 {
        harvest
    } else {
        advanced(
            advanced_through(harvest, events.drop_last(), count_name, items_name),
            events.last(),
            count_name,
            items_name,
        )
    }
}

impl Harvest {
    /// The harvest before the first event.
    pub fn begin() -> (harvest: Harvest)
        ensures
            harvest@ == HarvestView::Collecting(Seq::empty()),
    {
        let summaries: Vec<Summary> = Vec::new();
        assert(summary_views(summaries@) == Seq::<SummaryView>::empty());
        Harvest::Collecting(summaries)
    }

    /// Whether the cursor should be asked for another result.
    pub fn wants_more(&self) -> (more: bool)
        ensures
            more == (self@ is Collecting),
    {
        match self {
            Harvest::Collecting(_) => true,
            Harvest::Finished(_) => false,
        }
    }

    /// How the fetch ended, once it has.
    pub fn into_result(self) -> (end: Option<Result<Vec<Summary>, FetchError>>)
        ensures
            end == match self {
                Harvest::Collecting(_) => None::<Result<Vec<Summary>, FetchError>>,
                Harvest::Finished(result) => Some(result),
            },
    {
        match self {
            Harvest::Collecting(_) => None,
            Harvest::Finished(result) => Some(result),
        }
    }
}

/// The backend for the document store.
#[derive(Debug, PartialEq, Eq)]
pub struct DocumentBackend {
    pub pipeline: Pipeline,
    pub decoder: SummaryDecoder,
}

impl DocumentBackend {
    /// The backend that summarises a collection by `key_field`, counting under
    /// `count_name` and collecting `item_field` under `items_name`, and keeps
    /// the first `limit` groups in key order.
    pub fn new(
        key_field: &str,
        item_field: &str,
        count_name: &str,
        items_name: &str,
        limit: u32,
    ) -> (backend: DocumentBackend)
        ensures
            backend.pipeline@ == summary_stages(key_field@, item_field@, count_name@, items_name@, limit),
            backend.decoder.count_name@ == count_name@,
            backend.decoder.items_name@ == items_name@,
    {
        DocumentBackend {
            pipeline: Pipeline::summary(key_field, item_field, count_name, items_name, limit),
            decoder: SummaryDecoder::new(count_name, items_name),
        }
    }

    /// The backend of this system: movies summarised by year, the count of
    /// each year under `movie_count`, its titles under `movie_titles`, and the
    /// first ten years kept.
    pub fn movies_by_year() -> (backend: DocumentBackend)
        ensures
            backend.pipeline@ == summary_stages(
                "year"@,
                "title"@,
                "movie_count"@,
                "movie_titles"@,
                DEFAULT_LIMIT,
            ),
            backend.decoder.count_name@ == "movie_count"@,
            backend.decoder.items_name@ == "movie_titles"@,
    {
        DocumentBackend::new("year", "title", "movie_count", "movie_titles", DEFAULT_LIMIT)
    }

    /// Fetches from a collection held in memory, with the model store in
    /// the place of the document store: its results are harvested in order,
    /// as a cursor would deliver them.
    pub fn fetch_from(&self, collection: &Vec<Document>) -> (outcome: Result<Vec<Summary>, FetchError>)
        ensures
            match outcome {
                Ok(summaries) => fetched(
                    self.pipeline@,
                    document_maps(collection@),
                    self.decoder.count_name@,
                    self.decoder.items_name@,
                ) == Ok::<Seq<SummaryView>, FetchError>(summary_views(summaries@)),
                Err(e) => fetched(
                    self.pipeline@,
                    document_maps(collection@),
                    self.decoder.count_name@,
                    self.decoder.items_name@,
                ) == Err::<Seq<SummaryView>, FetchError>(e),
            },
    {
        let results = match evaluate(&self.pipeline, collection) {
            Ok(results) => results,
            Err(e) => {
                return Err(e);
            },
        };
        let ghost maps = document_maps(results@);
        let ghost start = HarvestView::Collecting(Seq::empty());
        let mut harvest = Harvest::begin();
        let mut i: usize = 0;
        assert(deliveries(maps.take(0)) == Seq::<EventView>::empty());
        while i < results.len()
            invariant
                i <= results@.len(),
                maps == document_maps(results@),
                start == HarvestView::Collecting(Seq::empty()),
                harvest@ == advanced_through(
                    start,
                    deliveries(maps.take(i as int)),
                    self.decoder.count_name@,
                    self.decoder.items_name@,
                ),
            decreases results@.len() - i,
        {
            proof {
                let next = deliveries(maps.take(i + 1));
                assert(next.drop_last() == deliveries(maps.take(i as int)));
                assert(next.last() == EventView::Document(document_map(results@[i as int])));
            }
            harvest = self.advance(harvest, CursorEvent::Document(results[i].clone()));
            i += 1;
        }
        proof {
            assert(maps.take(i as int) == maps);
            assert(deliveries(maps).push(EventView::Exhausted).drop_last() == deliveries(maps));
        }
        match self.advance(harvest, CursorEvent::Exhausted) {
            Harvest::Finished(end) => end,
            Harvest::Collecting(_) => unreached(),
        }
    }

    /// Takes one event from the cursor into the harvest.
    pub fn advance(&self, harvest: Harvest, event: CursorEvent) -> (next: Harvest)
        ensures
            next@ == advanced(harvest@, event@, self.decoder.count_name@, self.decoder.items_name@),
    {
        match harvest {
            Harvest::Finished(end) => Harvest::Finished(end),
            Harvest::Collecting(summaries) => match event {
                CursorEvent::Document(raw) => match self.decoder.decode(&raw) {
                    Ok(summary) => {
                        let mut summaries = summaries;
                        let ghost before = summaries@;
                        summaries.push(summary);
                        assert(summary_views(summaries@) == summary_views(before).push(summary@));
                        Harvest::Collecting(summaries)
                    },
                    Err(e) => Harvest::Finished(Err(e)),
                },
                CursorEvent::Exhausted => Harvest::Finished(Ok(summaries)),
                CursorEvent::Unreachable => Harvest::Finished(Err(FetchError::BackendUnavailable)),
                CursorEvent::Rejected => Harvest::Finished(Err(FetchError::PipelineRejected)),
                CursorEvent::Failed => Harvest::Finished(Err(FetchError::TransportError)),
            },
        }
    }
}

/// How a fetch ends whose cursor delivers the results of the model store
/// and is then exhausted: `PipelineRejected` where the model store
/// rejects the pipeline, and otherwise as the harvest of the results ends.
pub open spec fn fetched(
    stages: Seq<StageView>,
    docs: Seq<Map<Seq<char>, Tree>>,
    count_name: Seq<char>,
    items_name: Seq<char>,
) -> Result<Seq<SummaryView>, FetchError> {
    match ran(stages, docs) {
        None => Err(FetchError::PipelineRejected),
        Some(results) => advanced_through(
            HarvestView::Collecting(Seq::empty()),
            deliveries(results).push(EventView::Exhausted),
            count_name,
            items_name,
        )->Finished_0,
    }
}

/// Once a fetch has ended, no further event changes how it ended.
pub proof fn finished_harvest_is_final(
    end: Result<Seq<SummaryView>, FetchError>,
    events: Seq<EventView>,
    count_name: Seq<char>,
    items_name: Seq<char>,
)
    ensures
        advanced_through(HarvestView::Finished(end), events, count_name, items_name)
            == HarvestView::Finished(end),
    decreases events.len(),
{
    if events.len() > 0 {
        finished_harvest_is_final(end, events.drop_last(), count_name, items_name);
    }
}

/// The documents of a sequence, each as the event that delivers it.
pub open spec fn deliveries(raws: Seq<Map<Seq<char>, Tree>>) -> Seq<EventView> {
    raws.map_values(|fields: Map<Seq<char>, Tree>| EventView::Document(fields))
}

/// Whether every document of a sequence decodes.
pub open spec fn all_decode(
    raws: Seq<Map<Seq<char>, Tree>>,
    count_name: Seq<char>,
    items_name: Seq<char>,
) -> bool {
    forall|i: int| 0 <= i < raws.len() ==> (#[trigger] decoded(raws[i], count_name, items_name)) is Ok
}

/// What the documents of a sequence decode to, in order.
pub open spec fn decoded_all(
    raws: Seq<Map<Seq<char>, Tree>>,
    count_name: Seq<char>,
    items_name: Seq<char>,
) -> Seq<SummaryView> {
    raws.map_values(|fields: Map<Seq<char>, Tree>| decoded(fields, count_name, items_name)->Ok_0)
}

/// A cursor that delivers documents which all decode, and is then exhausted,
/// ends the fetch with one summary per document, in the cursor's order.
pub proof fn harvest_keeps_cursor_order(
    raws: Seq<Map<Seq<char>, Tree>>,
    count_name: Seq<char>,
    items_name: Seq<char>,
)
    requires
        all_decode(raws, count_name, items_name),
    ensures
        advanced_through(
            HarvestView::Collecting(Seq::empty()),
            deliveries(raws),
            count_name,
            items_name,
        ) == HarvestView::Collecting(decoded_all(raws, count_name, items_name)),
        advanced_through(
            HarvestView::Collecting(Seq::empty()),
            deliveries(raws).push(EventView::Exhausted),
            count_name,
            items_name,
        ) == HarvestView::Finished(Ok(decoded_all(raws, count_name, items_name))),
    decreases raws.len(),
{
    let start = HarvestView::Collecting(Seq::empty());
    if raws.len() == 0 {
        assert(decoded_all(raws, count_name, items_name) == Seq::<SummaryView>::empty());
    } else {
        let shorter = raws.drop_last();
        assert(all_decode(shorter, count_name, items_name)) by {
            assert forall|i: int| 0 <= i < shorter.len() implies (#[trigger] decoded(
                shorter[i],
                count_name,
                items_name,
            )) is Ok by {
                assert(shorter[i] == raws[i]);
            }
        }
        harvest_keeps_cursor_order(shorter, count_name, items_name);
        assert(deliveries(raws).drop_last() == deliveries(shorter));
        assert(decoded(raws.last(), count_name, items_name) is Ok);
        assert(decoded_all(raws, count_name, items_name) == decoded_all(
            shorter,
            count_name,
            items_name,
        ).push(decoded(raws.last(), count_name, items_name)->Ok_0));
    }
    let all = deliveries(raws).push(EventView::Exhausted);
    assert(all.drop_last() == deliveries(raws));
}

/// A cursor that delivers a document which does not decode ends the fetch
/// with an error, whatever it delivers besides.
pub proof fn harvest_fails_on_an_undecodable_document(
    raws: Seq<Map<Seq<char>, Tree>>,
    count_name: Seq<char>,
    items_name: Seq<char>,
)
    requires
        !all_decode(raws, count_name, items_name),
    ensures
        advanced_through(
            HarvestView::Collecting(Seq::empty()),
            deliveries(raws),
            count_name,
            items_name,
        ) matches HarvestView::Finished(end) && end is Err,
        advanced_through(
            HarvestView::Collecting(Seq::empty()),
            deliveries(raws).push(EventView::Exhausted),
            count_name,
            items_name,
        ) matches HarvestView::Finished(end) && end is Err,
    decreases raws.len(),
{
    let start = HarvestView::Collecting(Seq::empty());
    if raws.len() > 0 {
        let shorter = raws.drop_last();
        assert(deliveries(raws).drop_last() == deliveries(shorter));
        if all_decode(shorter, count_name, items_name) {
            harvest_keeps_cursor_order(shorter, count_name, items_name);
            if decoded(raws.last(), count_name, items_name) is Ok {
                assert forall|i: int| 0 <= i < raws.len() implies (#[trigger] decoded(
                    raws[i],
                    count_name,
                    items_name,
                )) is Ok by {
                    if i < shorter.len() {
                        assert(shorter[i] == raws[i]);
                    }
                }
            }
        } else {
            harvest_fails_on_an_undecodable_document(shorter, count_name, items_name);
        }
    }
    let all = deliveries(raws).push(EventView::Exhausted);
    assert(all.drop_last() == deliveries(raws));
}

} // verus!
