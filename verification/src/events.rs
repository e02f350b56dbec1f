//! The records of the event log, and the two things the log has from outside:
//! the check that a payload is JSON, and the time.

use crate::model::EventView;
use vstd::prelude::*;

verus! {

/// One logged event. The payload is kept as the text that was handed in.
#[derive(Debug)]
pub struct Event {
    pub tag: String,
    pub details: String,
    /// Seconds since the start of 1970, UTC.
    pub timestamp: i64,
}

impl View for Event {
    type V = EventView;

    open spec fn view(&self) -> EventView {
        EventView { tag: self.tag@, details: self.details@, timestamp: self.timestamp }
    }
}

impl Clone for Event {
    fn clone(&self) -> (copy: Self)
        ensures
            copy == *self,
    {
        Event {
            tag: self.tag.clone(),
            details: self.details.clone(),
            timestamp: self.timestamp,
        }
    }
}

/// The views of a run of events, in order.
pub open spec fn event_views(events: Seq<Event>) -> Seq<EventView> {
    events.map_values(|e: Event| e@)
}

/// Whether `serde_json` reads `text` as one JSON document.
pub uninterp spec fn well_formed_json(text: Seq<char>) -> bool;

/// Calls `serde_json::from_str` for a `serde_json::Value`, and says whether it
/// came back with a value. Nothing is claimed of which texts do: only that the
/// answer depends on the text alone.
#[verifier::external_body]
pub(crate) fn parses_as_json(text: &str) -> (ok: bool)
    ensures
        ok == well_formed_json(text@),
{
    serde_json::from_str::<serde_json::Value>(text).is_ok()
}

/// Reads the system clock with `std::time::SystemTime::now`, converts it with
/// `chrono`'s `From<SystemTime>` for `DateTime<Utc>` and takes the Unix
/// timestamp, in seconds. Nothing is claimed of the value. The conversion
/// takes a clock before 1970 as well: the timestamp is then negative.
#[verifier::external_body]
pub(crate) fn unix_time_now() -> i64 {
    chrono::DateTime::<chrono::Utc>::from(std::time::SystemTime::now()).timestamp()
}

} // verus!
