//! Conversion between iCal text and items.
//!
//! Reading and writing the iCal syntax itself (line folding, parameters) is left to the `ical`
//! and `ics` crates; what the properties mean for an item is decided here.

pub mod builder;
pub mod parser;


pub use builder::build_from;
pub use parser::parse;

use vstd::prelude::*;
use vstd::string::StringExecFns;

use crate::config::{ORG_NAME, PRODUCT_NAME};

verus! {

/// The PRODID written for items that came with none.
pub open spec fn spec_default_prod_id() -> Seq<char> {
    "-//"@ + ORG_NAME@ + "//"@ + PRODUCT_NAME@ + "//EN"@
}

pub fn default_prod_id() -> (r: String)
    ensures
        r@ == spec_default_prod_id(),
{
    let r = String::from_str("-//").concat(ORG_NAME).concat("//").concat(PRODUCT_NAME).concat("//EN");
    r
}

/// Parsing a task and writing it back keeps what the sync and the server care about: the text
/// written holds the parsed PRODID and UID, the `SUMMARY` line of the parsed name, and, at its
/// end and in their source order, a line for each property that parsing kept verbatim.
pub proof fn lemma_parse_then_build_keeps_properties(
    reading: Seq<Option<parser::RawCalendar>>,
    url: Seq<char>,
    status: crate::item::SyncStatusView,
    t: crate::task::TaskView,
    written: Seq<char>,
)
    requires
        parser::spec_parse(reading, url, status) == Ok::<crate::item::ItemView, crate::error::ErrorKind>(
            crate::item::ItemView::Task(t),
        ),
        builder::spec_build_task(t) == Ok::<Seq<char>, crate::error::ErrorKind>(written),
    ensures
        exists|dtstamp: Seq<char>, lines: Seq<builder::LineView>|
            {
                &&& written == builder::ics_todo_calendar(t.ical_prod_id, t.uid, dtstamp, lines)
                &&& lines.contains(builder::plain_line("SUMMARY"@, t.name))
                &&& lines.len() >= t.extra_parameters.len()
                &&& lines.subrange(lines.len() - t.extra_parameters.len(), lines.len() as int)
                    == t.extra_parameters.map_values(|p: crate::property::PropertyView| builder::line_of_property(p))
            },
{
    let completed = match t.completion_status {
        crate::task::CompletionStatus::Completed(d) => d,
        crate::task::CompletionStatus::Uncompleted => None,
    };
    let lm = crate::time::utc_formatted(t.last_modified.timestamp as int).unwrap();
    let c = builder::written_date(t.creation_date).unwrap();
    let done = builder::written_date(completed).unwrap();
    let lines = builder::task_lines(t, c, lm, done);
    let head = match c {
        Some(x) => seq![builder::plain_line("CREATED"@, x)],
        None => Seq::empty(),
    };
    assert(lines[head.len() + 1int] == builder::plain_line("SUMMARY"@, t.name));
    let tail = t.extra_parameters.map_values(|p: crate::property::PropertyView| builder::line_of_property(p));
    assert(lines.subrange(lines.len() - tail.len(), lines.len() as int) =~= tail);
}

/// An event goes through unchanged: parsing it and writing it back writes every property of
/// its `VEVENT`, in source order, under its PRODID.
pub proof fn lemma_parse_then_build_event(
    reading: Seq<Option<parser::RawCalendar>>,
    url: Seq<char>,
    status: crate::item::SyncStatusView,
    e: crate::event::EventView,
)
    requires
        parser::spec_parse(reading, url, status) == Ok::<crate::item::ItemView, crate::error::ErrorKind>(
            crate::item::ItemView::Event(e),
        ),
    ensures
        reading.len() > 0 && reading[0] is Some,
        builder::spec_build_event(e) == builder::ics_event_calendar(
            e.ical_prod_id,
            crate::property::properties_view(reading[0].unwrap().events@[0]@).map_values(
                |p: crate::property::PropertyView| builder::line_of_property(p),
            ),
        ),
{
}

} // verus!
