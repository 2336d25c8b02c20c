//! Reading an item out of an iCal text.

use vstd::prelude::*;
use vstd::string::StringExecFns;

use crate::error::ErrorKind;
use crate::event::{Event, EventView};
use crate::ical::{default_prod_id, spec_default_prod_id};
use crate::item::{Item, ItemView, SyncStatus, SyncStatusView};
use crate::property::{clone_properties, properties_view, Property, PropertyView};
use crate::task::{CompletionStatus, Task, TaskView};
use crate::time::{parse_date_time, spec_parse_date_time, DateTime};
use crate::utils::str_eq;

verus! {

/// One `VCALENDAR` as the iCal reader gives it: its own properties, the properties of each of
/// its `VEVENT`s and `VTODO`s, and how many `VJOURNAL`s it has.
#[derive(Debug)]
pub struct RawCalendar {
    pub properties: Vec<Property>,
    pub events: Vec<Vec<Property>>,
    pub todos: Vec<Vec<Property>>,
    pub n_journals: usize,
}

/// The first two calendars that the `ical` crate's reader gives for a text, each `None` where
/// the reader failed.
pub uninterp spec fn ical_calendars_read(content: Seq<char>) -> Seq<Option<RawCalendar>>;

/// Relies on ical's `IcalParser`: it reads the calendars of a text one after the other, and
/// what it gives depends on the text alone. At most two are taken.
#[verifier::external_body]
fn read_calendars(content: &str) -> (r: Vec<Option<RawCalendar>>)
    ensures
        r@ == ical_calendars_read(content@),
        r@.len() <= 2,
{
    let props = |ps: Vec<ical::property::Property>| -> Vec<Property> {
        ps.into_iter().map(|p| Property { name: p.name, params: p.params, value: p.value }).collect()
    };
    ical::IcalParser::new(content.as_bytes()).take(2).map(|c| c.ok().map(|c| RawCalendar {
        properties: props(c.properties),
        events: c.events.into_iter().map(|e| props(e.properties)).collect(),
        todos: c.todos.into_iter().map(|t| props(t.properties)).collect(),
        n_journals: c.journals.len(),
    })).collect()
}

/// What the properties of a component say, read in order: a later property of a kind
/// overrides an earlier one, and the properties of no known kind are kept, in order.
pub struct TodoFields {
    pub name: Option<Seq<char>>,
    pub uid: Option<Seq<char>>,
    pub completed: bool,
    pub dtstamp: Option<DateTime>,
    pub last_modified: Option<DateTime>,
    pub completion_date: Option<DateTime>,
    pub creation_date: Option<DateTime>,
    pub extra: Seq<PropertyView>,
}

/// The instant that a property value names, when it is a date-time in an accepted shape.
pub open spec fn date_of_value(v: Option<Seq<char>>) -> Option<DateTime> {
    match v {
        Some(s) => spec_parse_date_time(s),
        None => None,
    }
}

pub open spec fn todo_fields(props: Seq<PropertyView>) -> TodoFields
    decreases props.len(),
{
    if props.len() == 0 {
        TodoFields {
            name: None,
            uid: None,
            completed: false,
            dtstamp: None,
            last_modified: None,
            completion_date: None,
            creation_date: None,
            extra: Seq::empty(),
        }
    } else {
        let f = todo_fields(props.drop_last());
        let p = props.last();
        if p.name == "SUMMARY"@ {
            TodoFields { name: p.value, ..f }
        } else if p.name == "UID"@ {
            TodoFields { uid: p.value, ..f }
        } else if p.name == "DTSTAMP"@ {
            TodoFields {
                dtstamp: date_of_value(p.value),
                last_modified: date_of_value(p.value),
                ..f
            }
        } else if p.name == "LAST-MODIFIED"@ {
            TodoFields { last_modified: date_of_value(p.value), ..f }
        } else if p.name == "COMPLETED"@ {
            TodoFields { completion_date: date_of_value(p.value), ..f }
        } else if p.name == "CREATED"@ {
            TodoFields { creation_date: date_of_value(p.value), ..f }
        } else if p.name == "STATUS"@ {
            if p.value == Some("COMPLETED"@) {
                TodoFields { completed: true, ..f }
            } else {
                f
            }
        } else {
            TodoFields { extra: f.extra.push(p), ..f }
        }
    }
}

/// The value of the first `PRODID` property, if there is one.
pub open spec fn first_prod_id(props: Seq<PropertyView>) -> Option<Seq<char>>
    decreases props.len(),
{
    if props.len() == 0 {
        None
    } else if props[0].name == "PRODID"@ {
        props[0].value
    } else {
        first_prod_id(props.drop_first())
    }
}

/// Which single component a calendar holds: `Some(true)` for one `VEVENT` and nothing else,
/// `Some(false)` for one `VTODO` and nothing else, `None` otherwise.
pub open spec fn single_component(cal: RawCalendar) -> Option<bool> {
    if cal.events@.len() == 1 {
        if cal.todos@.len() != 0 || cal.n_journals != 0 {
            None
        } else {
            Some(true)
        }
    } else if cal.todos@.len() == 1 {
        if cal.events@.len() != 0 || cal.n_journals != 0 {
            None
        } else {
            Some(false)
        }
    } else {
        None
    }
}

/// The item that the properties of a single `VEVENT` or `VTODO` describe.
pub open spec fn spec_item_of(
    props: Seq<PropertyView>,
    is_event: bool,
    url: Seq<char>,
    prod_id: Seq<char>,
    status: SyncStatusView,
) -> Result<ItemView, ErrorKind> {
    let f = todo_fields(props);
    if is_event {
        Ok(
            ItemView::Event(
                EventView {
                    url,
                    uid: match f.uid {
                        Some(u) => u,
                        None => Seq::empty(),
                    },
                    name: match f.name {
                        Some(n) => n,
                        None => Seq::empty(),
                    },
                    ical_prod_id: prod_id,
                    sync_status: status,
                    properties: props,
                },
            ),
        )
    } else if f.name is None || f.uid is None || f.dtstamp is None {
        Err(ErrorKind::MissingField)
    } else {
        Ok(
            ItemView::Task(
                TaskView {
                    url,
                    uid: f.uid.unwrap(),
                    sync_status: status,
                    creation_date: f.creation_date,
                    last_modified: match f.last_modified {
                        Some(d) => d,
                        None => f.dtstamp.unwrap(),
                    },
                    completion_status: if f.completed {
                        CompletionStatus::Completed(f.completion_date)
                    } else {
                        CompletionStatus::Uncompleted
                    },
                    name: f.name.unwrap(),
                    ical_prod_id: prod_id,
                    extra_parameters: f.extra,
                },
            ),
        )
    }
}

/// The item that the calendars read from an iCal text describe: the first calendar must have
/// been read, must hold exactly one `VEVENT` or one `VTODO`, and must be the only one.
pub open spec fn spec_parse(
    reading: Seq<Option<RawCalendar>>,
    url: Seq<char>,
    status: SyncStatusView,
) -> Result<ItemView, ErrorKind> {
    if reading.len() == 0 || reading[0] is None {
        Err(ErrorKind::MalformedInput)
    } else {
        let cal = reading[0].unwrap();
        let prod_id = match first_prod_id(properties_view(cal.properties@)) {
            Some(p) => p,
            None => spec_default_prod_id(),
        };
        match single_component(cal) {
            None => Err(ErrorKind::MalformedInput),
            Some(is_event) => {
                let props = if is_event {
                    cal.events@[0]@
                } else {
                    cal.todos@[0]@
                };
                match spec_item_of(properties_view(props), is_event, url, prod_id, status) {
                    Err(e) => Err(e),
                    Ok(it) => if reading.len() >= 2 && reading[1] is Some {
                        Err(ErrorKind::MalformedInput)
                    } else {
                        Ok(it)
                    },
                }
            },
        }
    }
}

/// The value of the first `PRODID` property.
pub fn extract_ical_prod_id(props: &Vec<Property>) -> (r: Option<&String>)
    ensures
        match r {
            Some(s) => first_prod_id(properties_view(props@)) == Some(s@),
            None => first_prod_id(properties_view(props@)) is None,
        },
{
    let ghost all = properties_view(props@);
    let mut i: usize = 0;
    assert(all.subrange(0, all.len() as int) =~= all);
    while i < props.len()
        invariant
            i <= props@.len(),
            all == properties_view(props@),
            first_prod_id(all) == first_prod_id(all.subrange(i as int, all.len() as int)),
        decreases props@.len() - i,
    {
        let ghost rest = all.subrange(i as int, all.len() as int);
        assert(rest[0] == props@[i as int]@);
        assert(rest.drop_first() =~= all.subrange(i + 1, all.len() as int));
        if str_eq(props[i].name.as_str(), "PRODID") {
            proof {
                reveal_strlit("PRODID");
            }
            return props[i].value.as_ref();
        }
        i = i + 1;
    }
    None
}

/// Which single component a calendar holds; fails with `MalformedInput` unless it is one
/// `VEVENT` or one `VTODO` and nothing else.
pub fn assert_single_type(cal: &RawCalendar) -> (r: Result<bool, ErrorKind>)
    ensures
        match r {
            Ok(b) => single_component(*cal) == Some(b),
            Err(e) => single_component(*cal) is None && e == ErrorKind::MalformedInput,
        },
{
    let n_events = cal.events.len();
    let n_todos = cal.todos.len();
    let n_journals = cal.n_journals;
    if n_events == 1 {
        if n_todos != 0 || n_journals != 0 {
            return Err(ErrorKind::MalformedInput);
        } else {
            return Ok(true);
        }
    }
    if n_todos == 1 {
        if n_events != 0 || n_journals != 0 {
            return Err(ErrorKind::MalformedInput);
        } else {
            return Ok(false);
        }
    }
    Err(ErrorKind::MalformedInput)
}

/// Read a date-time property value.
fn date_of(value: &Option<String>) -> (r: Option<DateTime>)
    ensures
        r == date_of_value(crate::property::opt_string_view(*value)),
{
    match value {
        Some(s) => parse_date_time(s.as_str()),
        None => None,
    }
}

fn clone_opt_string(v: &Option<String>) -> (r: Option<String>)
    ensures
        crate::property::opt_string_view(r) == crate::property::opt_string_view(*v),
{
    match v {
        Some(s) => Some(s.clone()),
        None => None,
    }
}

/// The item that the properties of a single `VEVENT` (`is_event`) or `VTODO` describe;
/// a task without a `SUMMARY`, a `UID` or a readable `DTSTAMP` fails with `MissingField`.
pub fn item_of(
    props: &Vec<Property>,
    is_event: bool,
    url: String,
    prod_id: String,
    sync_status: SyncStatus,
) -> (r: Result<Item, ErrorKind>)
    ensures
        match r {
            Ok(it) => spec_item_of(properties_view(props@), is_event, url@, prod_id@, sync_status@)
                == Ok::<ItemView, ErrorKind>(it@),
            Err(e) => spec_item_of(properties_view(props@), is_event, url@, prod_id@, sync_status@)
                == Err::<ItemView, ErrorKind>(e),
        },
{
    let ghost all = properties_view(props@);
    let mut name: Option<String> = None;
    let mut uid: Option<String> = None;
    let mut completed = false;
    let mut dtstamp: Option<DateTime> = None;
    let mut last_modified: Option<DateTime> = None;
    let mut completion_date: Option<DateTime> = None;
    let mut creation_date: Option<DateTime> = None;
    let mut extra: Vec<Property> = Vec::new();
    let mut i: usize = 0;
    proof {
        assert(all.take(0) =~= Seq::<PropertyView>::empty());
        assert(properties_view(extra@) =~= Seq::<PropertyView>::empty());
    }
    while i < props.len()
        invariant
            i <= props@.len(),
            all == properties_view(props@),
            ({
                let f = todo_fields(all.take(i as int));
                &&& crate::property::opt_string_view(name) == f.name
                &&& crate::property::opt_string_view(uid) == f.uid
                &&& completed == f.completed
                &&& dtstamp == f.dtstamp
                &&& last_modified == f.last_modified
                &&& completion_date == f.completion_date
                &&& creation_date == f.creation_date
                &&& properties_view(extra@) == f.extra
            }),
        decreases props@.len() - i,
    {
        let p = &props[i];
        proof {
            assert(all.take(i + 1).drop_last() =~= all.take(i as int));
            assert(all.take(i + 1).last() == p@);
            reveal_strlit("SUMMARY");
            reveal_strlit("UID");
            reveal_strlit("DTSTAMP");
            reveal_strlit("LAST-MODIFIED");
            reveal_strlit("COMPLETED");
            reveal_strlit("CREATED");
            reveal_strlit("STATUS");
        }
        let n = p.name.as_str();
        if str_eq(n, "SUMMARY") {
            name = clone_opt_string(&p.value);
        } else if str_eq(n, "UID") {
            uid = clone_opt_string(&p.value);
        } else if str_eq(n, "DTSTAMP") {
            dtstamp = date_of(&p.value);
            last_modified = dtstamp;
        } else if str_eq(n, "LAST-MODIFIED") {
            last_modified = date_of(&p.value);
        } else if str_eq(n, "COMPLETED") {
            completion_date = date_of(&p.value);
        } else if str_eq(n, "CREATED") {
            creation_date = date_of(&p.value);
        } else if str_eq(n, "STATUS") {
            let is_completed = match &p.value {
                Some(v) => str_eq(v.as_str(), "COMPLETED"),
                None => false,
            };
            if is_completed {
                completed = true;
            }
        } else {
            let ghost e0 = extra@;
            extra.push(p.clone());
            assert(properties_view(extra@) =~= properties_view(e0).push(p@));
        }
        i = i + 1;
    }
    assert(all.take(props@.len() as int) =~= all);
    if is_event {
        let uid = match uid {
            Some(u) => u,
            None => String::new(),
        };
        let name = match name {
            Some(n) => n,
            None => String::new(),
        };
        return Ok(Item::Event(Event::new(url, uid, name, prod_id, sync_status, clone_properties(props))));
    }
    let name = match name {
        Some(n) => n,
        None => return Err(ErrorKind::MissingField),
    };
    let uid = match uid {
        Some(u) => u,
        None => return Err(ErrorKind::MissingField),
    };
    let stamp = match dtstamp {
        Some(d) => d,
        None => return Err(ErrorKind::MissingField),
    };
    let last_modified = match last_modified {
        Some(d) => d,
        None => stamp,
    };
    let completion_status = if completed {
        CompletionStatus::Completed(completion_date)
    } else {
        CompletionStatus::Uncompleted
    };
    Ok(
        Item::Task(
            Task::new_with_parameters(
                name,
                uid,
                url,
                completion_status,
                sync_status,
                creation_date,
                last_modified,
                prod_id,
                extra,
            ),
        ),
    )
}

/// The item that the calendars read from an iCal text describe (see [`spec_parse`]).
pub fn item_from_calendars(
    reading: &Vec<Option<RawCalendar>>,
    item_url: String,
    sync_status: SyncStatus,
) -> (r: Result<Item, ErrorKind>)
    ensures
        match r {
            Ok(it) => spec_parse(reading@, item_url@, sync_status@) == Ok::<ItemView, ErrorKind>(it@),
            Err(e) => spec_parse(reading@, item_url@, sync_status@) == Err::<ItemView, ErrorKind>(e),
        },
{
    if reading.len() == 0 {
        return Err(ErrorKind::MalformedInput);
    }
    let cal = match &reading[0] {
        None => return Err(ErrorKind::MalformedInput),
        Some(c) => c,
    };
    let prod_id = match extract_ical_prod_id(&cal.properties) {
        Some(p) => p.clone(),
        None => default_prod_id(),
    };
    let is_event = assert_single_type(cal)?;
    let props = if is_event {
        &cal.events[0]
    } else {
        &cal.todos[0]
    };
    let item = item_of(props, is_event, item_url, prod_id, sync_status)?;
    if reading.len() >= 2 && reading[1].is_some() {
        return Err(ErrorKind::MalformedInput);
    }
    Ok(item)
}

/// Parse an iCal text fetched from `item_url` into an item with the given sync status.
pub fn parse(content: &str, item_url: String, sync_status: SyncStatus) -> (r: Result<Item, ErrorKind>)
    ensures
        match r {
            Ok(it) => spec_parse(ical_calendars_read(content@), item_url@, sync_status@) == Ok::<
                ItemView,
                ErrorKind,
            >(it@),
            Err(e) => spec_parse(ical_calendars_read(content@), item_url@, sync_status@) == Err::<
                ItemView,
                ErrorKind,
            >(e),
        },
{
    let reading = read_calendars(content);
    item_from_calendars(&reading, item_url, sync_status)
}

} // verus!
