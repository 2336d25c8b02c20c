//! Calendar events (iCal `VEVENT` items), carried through without interpretation.

use vstd::prelude::*;

use crate::item::{SyncStatus, SyncStatusView};
use crate::property::{clone_properties, properties_view, Property, PropertyView};

verus! {

/// A calendar event. Only what the sync engine needs is read from it; all its properties are
/// kept verbatim, in source order, to be written back.
#[derive(Debug)]
pub struct Event {
    url: String,
    uid: String,
    name: String,
    ical_prod_id: String,
    sync_status: SyncStatus,
    properties: Vec<Property>,
}

pub struct EventView {
    pub url: Seq<char>,
    pub uid: Seq<char>,
    pub name: Seq<char>,
    pub ical_prod_id: Seq<char>,
    pub sync_status: SyncStatusView,
    pub properties: Seq<PropertyView>,
}

impl View for Event {
    type V = EventView;

    closed spec fn view(&self) -> EventView {
        EventView {
            url: self.url@,
            uid: self.uid@,
            name: self.name@,
            ical_prod_id: self.ical_prod_id@,
            sync_status: self.sync_status@,
            properties: properties_view(self.properties@),
        }
    }
}

impl EventView {
    pub open spec fn same_observable_content(self, other: EventView) -> bool {
        &&& self.url == other.url
        &&& self.name == other.name
        &&& same_variant(self.sync_status, other.sync_status)
    }
}

impl Clone for Event {
    fn clone(&self) -> (r: Self)
        ensures
            r@ == self@,
    {
        Event {
            url: self.url.clone(),
            uid: self.uid.clone(),
            name: self.name.clone(),
            ical_prod_id: self.ical_prod_id.clone(),
            sync_status: self.sync_status.clone(),
            properties: clone_properties(&self.properties),
        }
    }
}

impl Event {
    pub fn new(
        url: String,
        uid: String,
        name: String,
        ical_prod_id: String,
        sync_status: SyncStatus,
        properties: Vec<Property>,
    ) -> (r: Self)
        ensures
            r@ == (EventView {
                url: url@,
                uid: uid@,
                name: name@,
                ical_prod_id: ical_prod_id@,
                sync_status: sync_status@,
                properties: properties_view(properties@),
            }),
    {
        Event { url, uid, name, ical_prod_id, sync_status, properties }
    }

    /// The properties of the event, in source order.
    pub fn properties(&self) -> (r: &[Property])
        ensures
            properties_view(r@) == self@.properties,
    {
        self.properties.as_slice()
    }

    pub fn url(&self) -> (r: &str)
        ensures
            r@ == self@.url,
    {
        self.url.as_str()
    }

    pub(crate) fn url_string(&self) -> (r: &String)
        ensures
            r@ == self@.url,
    {
        &self.url
    }

    pub fn uid(&self) -> (r: &str)
        ensures
            r@ == self@.uid,
    {
        self.uid.as_str()
    }

    pub fn name(&self) -> (r: &str)
        ensures
            r@ == self@.name,
    {
        self.name.as_str()
    }

    pub fn ical_prod_id(&self) -> (r: &str)
        ensures
            r@ == self@.ical_prod_id,
    {
        self.ical_prod_id.as_str()
    }

    pub fn sync_status(&self) -> (r: &SyncStatus)
        ensures
            r@ == self@.sync_status,
    {
        &self.sync_status
    }

    pub fn set_sync_status(&mut self, new_status: SyncStatus)
        ensures
            final(self)@ == (EventView { sync_status: new_status@, ..old(self)@ }),
    {
        self.sync_status = new_status;
    }

    pub fn has_same_observable_content_as(&self, other: &Event) -> (r: bool)
        ensures
            r == self@.same_observable_content(other@),
    {
        self.url == other.url && self.name == other.name && same_status_variant(
            &self.sync_status,
            &other.sync_status,
        )
    }
}

/// Whether two statuses are the same variant, whatever tags they carry.
pub open spec fn same_variant(a: SyncStatusView, b: SyncStatusView) -> bool {
    &&& a is NotSynced == b is NotSynced
    &&& a is Synced == b is Synced
    &&& a is LocallyModified == b is LocallyModified
    &&& a is LocallyDeleted == b is LocallyDeleted
}

/// Whether two statuses are the same variant, whatever tags they carry.
pub fn same_status_variant(a: &SyncStatus, b: &SyncStatus) -> (r: bool)
    ensures
        r == same_variant(a@, b@),
{
    match (a, b) {
        (SyncStatus::NotSynced, SyncStatus::NotSynced) => true,
        (SyncStatus::Synced(_), SyncStatus::Synced(_)) => true,
        (SyncStatus::LocallyModified(_), SyncStatus::LocallyModified(_)) => true,
        (SyncStatus::LocallyDeleted(_), SyncStatus::LocallyDeleted(_)) => true,
        _ => false,
    }
}

} // verus!
