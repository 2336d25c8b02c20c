//! Writing an item as iCal text.

use vstd::prelude::*;
use vstd::string::StringExecFns;

use crate::error::ErrorKind;
use crate::item::{Item, ItemView};
use crate::property::{properties_view, Property, PropertyView};
use crate::task::{CompletionStatus, Task, TaskView};
use crate::time::{format_date_time, utc_formatted, DateTime};

verus! {

/// A line as the iCal writer takes it: a name, parameters each with its values joined by `;`,
/// and a value.
#[derive(Debug)]
pub struct ContentLine {
    pub name: String,
    pub params: Vec<(String, String)>,
    pub value: String,
}

/// The text of a line: name, parameters, value.
pub type LineView = (Seq<char>, Seq<(Seq<char>, Seq<char>)>, Seq<char>);

pub open spec fn line_view(l: ContentLine) -> LineView {
    (l.name@, l.params@.map_values(|p: (String, String)| (p.0@, p.1@)), l.value@)
}

pub open spec fn lines_view(v: Seq<ContentLine>) -> Seq<LineView> {
    v.map_values(|l: ContentLine| line_view(l))
}

/// The text that the `ics` crate writes for a calendar with this PRODID holding one `VTODO`
/// with this UID, this DTSTAMP and then these lines.
pub uninterp spec fn ics_todo_calendar(
    prod_id: Seq<char>,
    uid: Seq<char>,
    dtstamp: Seq<char>,
    lines: Seq<LineView>,
) -> Seq<char>;

/// Relies on ics's `ToDo`, `Property`, `Parameter` and `ICalendar` (version 2.0): the text
/// written depends on what they are given alone.
#[verifier::external_body]
fn render_todo_calendar(prod_id: &str, uid: &str, dtstamp: &str, lines: &Vec<ContentLine>) -> (r:
    String)
    ensures
        r@ == ics_todo_calendar(prod_id@, uid@, dtstamp@, lines_view(lines@)),
{
    let mut todo = ics::ToDo::new(uid.to_string(), dtstamp.to_string());
    for l in lines {
        let mut p = ics::components::Property::new(l.name.clone(), l.value.clone());
        for (k, v) in &l.params {
            p.add(ics::components::Parameter::new(k.clone(), v.clone()));
        }
        todo.push(p);
    }
    let mut calendar = ics::ICalendar::new("2.0", prod_id.to_string());
    calendar.add_todo(todo);
    calendar.to_string()
}

/// The text that the `ics` crate writes for a calendar with this PRODID holding one `VEVENT`
/// made of these lines.
pub uninterp spec fn ics_event_calendar(prod_id: Seq<char>, lines: Seq<LineView>) -> Seq<char>;

/// Relies on ics's `Component` (named `VEVENT`), `Property`, `Parameter` and `ICalendar`
/// (version 2.0): the text written depends on what they are given alone.
#[verifier::external_body]
fn render_event_calendar(prod_id: &str, lines: &Vec<ContentLine>) -> (r: String)
    ensures
        r@ == ics_event_calendar(prod_id@, lines_view(lines@)),
{
    let mut event = ics::components::Component::new("VEVENT");
    for l in lines {
        let mut p = ics::components::Property::new(l.name.clone(), l.value.clone());
        for (k, v) in &l.params {
            p.add(ics::components::Parameter::new(k.clone(), v.clone()));
        }
        event.add_property(p);
    }
    let mut calendar = ics::ICalendar::new("2.0", prod_id.to_string());
    calendar.add_component(event);
    calendar.to_string()
}

/// The iCal text of an event: its properties written back as they came.
pub open spec fn spec_build_event(e: crate::event::EventView) -> Seq<char> {
    ics_event_calendar(e.ical_prod_id, e.properties.map_values(|p: PropertyView| line_of_property(p)))
}

/// Values joined by `;`.
pub open spec fn joined(v: Seq<Seq<char>>) -> Seq<char>
    decreases v.len(),
{
    if v.len() == 0 {
        Seq::empty()
    } else if v.len() == 1 {
        v[0]
    } else {
        joined(v.drop_last()) + ";"@ + v.last()
    }
}

/// The line written for a property kept verbatim: a missing value is written empty.
pub open spec fn line_of_property(p: PropertyView) -> LineView {
    (
        p.name,
        match p.params {
            Some(ps) => ps.map_values(|q: (Seq<char>, Seq<Seq<char>>)| (q.0, joined(q.1))),
            None => Seq::empty(),
        },
        match p.value {
            Some(v) => v,
            None => Seq::empty(),
        },
    )
}

/// A line without parameters.
pub open spec fn plain_line(name: Seq<char>, value: Seq<char>) -> LineView {
    (name, Seq::empty(), value)
}

/// The lines that follow `UID` and `DTSTAMP` in a written task, given its dates as written:
/// `CREATED` if known, `LAST-MODIFIED`, `SUMMARY`, then the completion (`STATUS:NEEDS-ACTION`;
/// or `PERCENT-COMPLETE:100`, `COMPLETED` if known and `STATUS:COMPLETED`), then the kept
/// properties.
pub open spec fn task_lines(
    t: TaskView,
    created: Option<Seq<char>>,
    last_modified: Seq<char>,
    completed: Option<Seq<char>>,
) -> Seq<LineView> {
    let head = match created {
        Some(c) => seq![plain_line("CREATED"@, c)],
        None => Seq::empty(),
    };
    let completion = match t.completion_status {
        CompletionStatus::Uncompleted => seq![plain_line("STATUS"@, "NEEDS-ACTION"@)],
        CompletionStatus::Completed(_) => seq![plain_line("PERCENT-COMPLETE"@, "100"@)] + match completed {
            Some(c) => seq![plain_line("COMPLETED"@, c)],
            None => Seq::empty(),
        } + seq![plain_line("STATUS"@, "COMPLETED"@)],
    };
    head + seq![plain_line("LAST-MODIFIED"@, last_modified), plain_line("SUMMARY"@, t.name)]
        + completion + t.extra_parameters.map_values(|p: PropertyView| line_of_property(p))
}

/// A date as written, when the writer can write it.
pub open spec fn written_date(d: Option<DateTime>) -> Option<Option<Seq<char>>> {
    match d {
        None => Some(None),
        Some(x) => match utc_formatted(x.timestamp as int) {
            Some(s) => Some(Some(s)),
            None => None,
        },
    }
}

/// The iCal text of a task; `MalformedInput` when one of its dates cannot be written.
pub open spec fn spec_build_task(t: TaskView) -> Result<Seq<char>, ErrorKind> {
    let completed = match t.completion_status {
        CompletionStatus::Completed(d) => d,
        CompletionStatus::Uncompleted => None,
    };
    match (
        utc_formatted(t.last_modified.timestamp as int),
        written_date(t.creation_date),
        written_date(completed),
    ) {
        (Some(lm), Some(c), Some(done)) => Ok(
            ics_todo_calendar(t.ical_prod_id, t.uid, lm, task_lines(t, c, lm, done)),
        ),
        _ => Err(ErrorKind::MalformedInput),
    }
}

/// Values joined by `;`.
pub fn join_values(v: &Vec<String>) -> (r: String)
    ensures
        r@ == joined(crate::property::strings_view(v@)),
{
    let ghost sv = crate::property::strings_view(v@);
    let mut out = String::new();
    let mut i: usize = 0;
    while i < v.len()
        invariant
            i <= v@.len(),
            sv == crate::property::strings_view(v@),
            out@ == joined(sv.take(i as int)),
        decreases v@.len() - i,
    {
        proof {
            assert(sv.take(i + 1).drop_last() =~= sv.take(i as int));
            assert(sv.take(i + 1).last() == v@[i as int]@);
            if i == 0 {
                assert(sv.take(1) =~= seq![v@[0]@]);
            }
        }
        if i > 0 {
            out.append(";");
        }
        out.append(v[i].as_str());
        i = i + 1;
    }
    assert(sv.take(v@.len() as int) =~= sv);
    out
}

/// The line written for a property kept verbatim.
pub fn content_line_of(p: &Property) -> (r: ContentLine)
    ensures
        line_view(r) == line_of_property(p@),
{
    let mut params: Vec<(String, String)> = Vec::new();
    match &p.params {
        None => {},
        Some(ps) => {
            let mut i: usize = 0;
            while i < ps.len()
                invariant
                    i <= ps@.len(),
                    params@.len() == i,
                    forall|j: int|
                        0 <= j < i ==> (#[trigger] params@[j]).0@ == ps@[j].0@ && params@[j].1@
                            == joined(crate::property::strings_view(ps@[j].1@)),
                decreases ps@.len() - i,
            {
                params.push((ps[i].0.clone(), join_values(&ps[i].1)));
                i = i + 1;
            }
        },
    }
    let value = match &p.value {
        Some(v) => v.clone(),
        None => String::new(),
    };
    let r = ContentLine { name: p.name.clone(), params, value };
    assert(line_view(r).1 =~= line_of_property(p@).1);
    r
}

fn plain(name: &str, value: String) -> (r: ContentLine)
    ensures
        line_view(r) == plain_line(name@, value@),
{
    let r = ContentLine { name: String::from_str(name), params: Vec::new(), value };
    assert(line_view(r).1 =~= Seq::<(Seq<char>, Seq<char>)>::empty());
    r
}

/// A date as written, or `Err` when it cannot be written.
fn write_date(d: Option<DateTime>) -> (r: Result<Option<String>, ErrorKind>)
    ensures
        match r {
            Ok(Some(s)) => written_date(d) == Some(Some(s@)),
            Ok(None) => written_date(d) == Some(None::<Seq<char>>),
            Err(e) => written_date(d) is None && e == ErrorKind::MalformedInput,
        },
{
    match d {
        None => Ok(None),
        Some(x) => match format_date_time(x) {
            Some(s) => Ok(Some(s)),
            None => Err(ErrorKind::MalformedInput),
        },
    }
}

/// The iCal text of a task.
pub fn build_from_task(task: &Task) -> (r: Result<String, ErrorKind>)
    ensures
        match r {
            Ok(s) => spec_build_task(task@) == Ok::<Seq<char>, ErrorKind>(s@),
            Err(e) => spec_build_task(task@) == Err::<Seq<char>, ErrorKind>(e),
        },
{
    let s_last_modified = match format_date_time(*task.last_modified()) {
        Some(s) => s,
        None => return Err(ErrorKind::MalformedInput),
    };
    let created = match task.creation_date() {
        Some(d) => write_date(Some(*d))?,
        None => None,
    };
    let completion_date = match task.completion_status() {
        CompletionStatus::Completed(d) => *d,
        CompletionStatus::Uncompleted => None,
    };
    let completed = write_date(completion_date)?;
    let ghost tv = task@;
    let ghost created_v = crate::property::opt_string_view(created);
    let ghost completed_v = crate::property::opt_string_view(completed);
    let mut lines: Vec<ContentLine> = Vec::new();
    let ghost mut expected: Seq<LineView> = Seq::empty();
    proof {
        reveal_strlit("CREATED");
        reveal_strlit("LAST-MODIFIED");
        reveal_strlit("SUMMARY");
        reveal_strlit("STATUS");
        reveal_strlit("NEEDS-ACTION");
        reveal_strlit("PERCENT-COMPLETE");
        reveal_strlit("100");
        reveal_strlit("COMPLETED");
    }
    if let Some(c) = created {
        lines.push(plain("CREATED", c));
    }
    lines.push(plain("LAST-MODIFIED", s_last_modified.clone()));
    lines.push(plain("SUMMARY", String::from_str(task.name())));
    match task.completion_status() {
        CompletionStatus::Uncompleted => {
            lines.push(plain("STATUS", String::from_str("NEEDS-ACTION")));
        },
        CompletionStatus::Completed(_) => {
            lines.push(plain("PERCENT-COMPLETE", String::from_str("100")));
            if let Some(c) = completed {
                lines.push(plain("COMPLETED", c));
            }
            lines.push(plain("STATUS", String::from_str("COMPLETED")));
        },
    }
    let ghost n0 = lines@.len();
    let ghost prefix = lines_view(lines@);
    let extras = task.extra_parameters();
    let mut i: usize = 0;
    while i < extras.len()
        invariant
            i <= extras@.len(),
            prefix.len() == n0,
            lines@.len() == n0 + i,
            forall|j: int| 0 <= j < n0 ==> #[trigger] line_view(lines@[j]) == prefix[j],
            forall|j: int|
                0 <= j < i ==> #[trigger] line_view(lines@[n0 + j]) == line_of_property(extras@[j]@),
        decreases extras@.len() - i,
    {
        lines.push(content_line_of(&extras[i]));
        i = i + 1;
    }
    proof {
        let want = task_lines(tv, created_v, s_last_modified@, completed_v);
        let ev = tv.extra_parameters;
        assert(ev == properties_view(extras@));
        assert(prefix.len() == n0);
        let tail = ev.map_values(|p: PropertyView| line_of_property(p));
        assert forall|j: int| 0 <= j < lines@.len() implies #[trigger] lines_view(lines@)[j] == (prefix + tail)[j] by {
            if j >= n0 {
                assert(line_view(lines@[n0 + (j - n0)]) == line_of_property(extras@[j - n0]@));
            }
        }
        assert(lines_view(lines@) =~= prefix + ev.map_values(|p: PropertyView| line_of_property(p)));
        assert(lines_view(lines@) =~= want);
    }
    Ok(render_todo_calendar(task.ical_prod_id(), task.uid(), s_last_modified.as_str(), &lines))
}

/// The lines of a list of properties kept verbatim.
fn content_lines_of(props: &[Property]) -> (r: Vec<ContentLine>)
    ensures
        lines_view(r@) == properties_view(props@).map_values(|p: PropertyView| line_of_property(p)),
{
    let mut lines: Vec<ContentLine> = Vec::new();
    let mut i: usize = 0;
    while i < props.len()
        invariant
            i <= props@.len(),
            lines@.len() == i,
            forall|j: int| 0 <= j < i ==> #[trigger] line_view(lines@[j]) == line_of_property(props@[j]@),
        decreases props@.len() - i,
    {
        lines.push(content_line_of(&props[i]));
        i = i + 1;
    }
    assert(lines_view(lines@) =~= properties_view(props@).map_values(|p: PropertyView| line_of_property(p)));
    lines
}

/// The iCal text of an event.
pub fn build_from_event(event: &crate::event::Event) -> (r: String)
    ensures
        r@ == spec_build_event(event@),
{
    let lines = content_lines_of(event.properties());
    render_event_calendar(event.ical_prod_id(), &lines)
}

/// The iCal text of an item.
pub fn build_from(item: &Item) -> (r: Result<String, ErrorKind>)
    ensures
        item@ matches ItemView::Task(t) ==> match r {
            Ok(s) => spec_build_task(t) == Ok::<Seq<char>, ErrorKind>(s@),
            Err(e) => spec_build_task(t) == Err::<Seq<char>, ErrorKind>(e),
        },
        item@ matches ItemView::Event(e) ==> r matches Ok(s) && s@ == spec_build_event(e),
{
    match item {
        Item::Task(t) => build_from_task(t),
        Item::Event(e) => Ok(build_from_event(e)),
    }
}

} // verus!
