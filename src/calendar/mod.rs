//! Calendars: their attributes, and the local calendar that holds items.

pub mod cached_calendar;

use vstd::prelude::*;
use vstd::string::StringExecFns;

verus! {

/// The kinds of component that a calendar supports, as a set of flags.
#[derive(Clone, Copy, Debug, PartialEq, Eq, Structural)]
pub struct SupportedComponents {
    pub bits: u8,
}

impl SupportedComponents {
    /// An event, such as a calendar meeting.
    pub const EVENT: u8 = 1;

    /// A to-do item, such as a reminder.
    pub const TODO: u8 = 2;

    pub fn empty() -> (r: Self)
        ensures
            r.bits == 0,
    {
        SupportedComponents { bits: 0 }
    }

    pub fn from_bits(bits: u8) -> (r: Self)
        ensures
            r.bits == bits,
    {
        SupportedComponents { bits }
    }

    /// Whether every flag of `flag` is set here.
    pub fn contains(&self, flag: u8) -> (r: bool)
        ensures
            r == (self.bits & flag == flag),
    {
        self.bits & flag == flag
    }

    /// Set the flags of `flag`.
    pub fn insert(&mut self, flag: u8)
        ensures
            final(self).bits == old(self).bits | flag,
    {
        self.bits = self.bits | flag;
    }

    pub fn supports_todo(&self) -> (r: bool)
        ensures
            r == (self.bits & 2 == 2),
    {
        self.contains(Self::TODO)
    }

    pub fn supports_events(&self) -> (r: bool)
        ensures
            r == (self.bits & 1 == 1),
    {
        self.contains(Self::EVENT)
    }
}

/// The flag of a component name of a `<supported-calendar-component-set>`, `0` for a name that
/// is not supported.
pub open spec fn component_flag(name: Option<Seq<char>>) -> u8 {
    if name == Some("VEVENT"@) {
        1
    } else if name == Some("VTODO"@) {
        2
    } else {
        0
    }
}

/// The flags of a list of component names.
pub open spec fn component_flags(names: Seq<Option<Seq<char>>>) -> u8
    decreases names.len(),
{
    if names.len() == 0 {
        0
    } else {
        component_flags(names.drop_last()) | component_flag(names.last())
    }
}

impl SupportedComponents {
    /// The components named by the `name` attributes of the children of a
    /// `<supported-calendar-component-set>` element; names other than `VEVENT` and `VTODO` are
    /// ignored.
    pub fn from_component_names(names: &Vec<Option<String>>) -> (r: Self)
        ensures
            r.bits == component_flags(names@.map_values(|n: Option<String>| crate::property::opt_string_view(n))),
    {
        let ghost view = names@.map_values(|n: Option<String>| crate::property::opt_string_view(n));
        let mut flags = SupportedComponents::empty();
        let mut i: usize = 0;
        proof {
            reveal_strlit("VEVENT");
            reveal_strlit("VTODO");
        }
        while i < names.len()
            invariant
                i <= names@.len(),
                view == names@.map_values(|n: Option<String>| crate::property::opt_string_view(n)),
                flags.bits == component_flags(view.take(i as int)),
            decreases names@.len() - i,
        {
            proof {
                assert(view.take(i + 1).drop_last() =~= view.take(i as int));
                assert(view.take(i + 1).last() == view[i as int]);
            }
            match &names[i] {
                None => {
                    assert(flags.bits | 0 == flags.bits) by (bit_vector);
                },
                Some(n) => {
                    if crate::utils::str_eq(n.as_str(), "VEVENT") {
                        flags.insert(Self::EVENT);
                    } else if crate::utils::str_eq(n.as_str(), "VTODO") {
                        flags.insert(Self::TODO);
                    } else {
                        let b = flags.bits;
                        assert(b | 0 == b) by (bit_vector);
                    }
                },
            }
            i = i + 1;
        }
        assert(view.take(names@.len() as int) =~= view);
        flags
    }
}

/// The `<supported-calendar-component-set>` element for a set of components.
pub open spec fn spec_components_xml(c: SupportedComponents) -> Seq<char> {
    "<C:supported-calendar-component-set>"@ + (if c.bits & 1 == 1 {
        "<C:comp name=\"VEVENT\"/>"@
    } else {
        Seq::empty()
    }) + (if c.bits & 2 == 2 {
        "<C:comp name=\"VTODO\"/>"@
    } else {
        Seq::empty()
    }) + "</C:supported-calendar-component-set>"@
}

impl SupportedComponents {
    /// The `<supported-calendar-component-set>` element for these components.
    pub fn to_xml_string(&self) -> (r: String)
        ensures
            r@ == spec_components_xml(*self),
    {
        let mut r = String::from_str("<C:supported-calendar-component-set>");
        if self.supports_events() {
            r.append("<C:comp name=\"VEVENT\"/>");
        }
        if self.supports_todo() {
            r.append("<C:comp name=\"VTODO\"/>");
        }
        r.append("</C:supported-calendar-component-set>");
        r
    }
}

/// The body of the request that creates a calendar with this name and these components.
pub open spec fn spec_calendar_body(name: Seq<char>, c: SupportedComponents) -> Seq<char> {
    "<?xml version=\"1.0\" encoding=\"utf-8\" ?><C:mkcalendar xmlns:D=\"DAV:\" xmlns:C=\"urn:ietf:params:xml:ns:caldav\"><D:set><D:prop><D:displayname>"@
        + name + "</D:displayname>"@ + spec_components_xml(c) + "</D:prop></D:set></C:mkcalendar>"@
}

/// The body of the request that creates a calendar with this name and these components.
pub fn calendar_body(name: String, supported_components: SupportedComponents) -> (r: String)
    ensures
        r@ == spec_calendar_body(name@, supported_components),
{
    let mut r = String::from_str(
        "<?xml version=\"1.0\" encoding=\"utf-8\" ?><C:mkcalendar xmlns:D=\"DAV:\" xmlns:C=\"urn:ietf:params:xml:ns:caldav\"><D:set><D:prop><D:displayname>",
    );
    r.append(name.as_str());
    r.append("</D:displayname>");
    r.append(supported_components.to_xml_string().as_str());
    r.append("</D:prop></D:set></C:mkcalendar>");
    r
}

/// Whether a collection of a server's listing is kept as a calendar: it must be of the
/// `calendar` resource type and support at least one kind of component.
pub fn is_listed_calendar(is_calendar: bool, supported_components: SupportedComponents) -> (r: bool)
    ensures
        r == (is_calendar && supported_components.bits != 0),
{
    is_calendar && supported_components.bits != 0
}

/// A user-chosen calendar colour, as 8-bit red, green, blue and alpha channels.
#[derive(Clone, Copy, Debug, PartialEq, Eq, Structural)]
pub struct Color {
    pub r: u8,
    pub g: u8,
    pub b: u8,
    pub a: u8,
}

/// Which items a listing returns.
#[derive(Clone, Copy, Debug, PartialEq, Eq, Structural)]
pub enum SearchFilter {
    /// Every item.
    All,
    /// Tasks only.
    Tasks,
}

impl Default for SearchFilter {
    fn default() -> (r: Self)
        ensures
            r == SearchFilter::All,
    {
        SearchFilter::All
    }
}

/// The attributes of a calendar, without its items.
#[derive(Debug)]
pub struct CalendarInfo {
    pub url: String,
    pub name: String,
    pub supported_components: SupportedComponents,
    pub color: Option<Color>,
}

pub struct CalendarInfoView {
    pub url: Seq<char>,
    pub name: Seq<char>,
    pub supported_components: SupportedComponents,
    pub color: Option<Color>,
}

impl View for CalendarInfo {
    type V = CalendarInfoView;

    open spec fn view(&self) -> CalendarInfoView {
        CalendarInfoView {
            url: self.url@,
            name: self.name@,
            supported_components: self.supported_components,
            color: self.color,
        }
    }
}

impl Clone for CalendarInfo {
    fn clone(&self) -> (r: Self)
        ensures
            r@ == self@,
    {
        CalendarInfo {
            url: self.url.clone(),
            name: self.name.clone(),
            supported_components: self.supported_components,
            color: self.color,
        }
    }
}

} // verus!
