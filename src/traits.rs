//! The operations that the sync engine needs from a remote source (usually a CalDAV server),
//! stated over a model of what the source holds.

use vstd::prelude::*;

use crate::calendar::cached_calendar::{fetched_as_requested, lists_tags_of};
use crate::calendar::{CalendarInfo, CalendarInfoView};
use crate::error::ErrorKind;
use crate::item::{Item, ItemView, SyncStatus, VersionTag};

verus! {

/// Whether a list of calendars holds each URL once.
pub open spec fn calendar_urls_distinct(v: Seq<CalendarInfo>) -> bool {
    forall|i: int, j: int|
        0 <= i < v.len() && 0 <= j < v.len() && i != j ==> #[trigger] v[i].url@ != #[trigger] v[j].url@
}

/// The list names exactly the calendars of the model, each once, with their attributes.
pub open spec fn lists_calendars(v: Seq<CalendarInfo>, m: Map<Seq<char>, CalendarInfoView>) -> bool {
    &&& calendar_urls_distinct(v)
    &&& forall|k: int| 0 <= k < v.len() ==> m.contains_key(#[trigger] v[k].url@) && m[v[k].url@] == v[k]@
    &&& forall|u: Seq<char>| #[trigger] m.contains_key(u) ==> exists|k: int| 0 <= k < v.len() && v[k].url@ == u
}

/// A server holds each item under its own URL, `Synced` at the version it gave it.
pub open spec fn synced_items(m: Map<Seq<char>, ItemView>) -> bool {
    forall|u: Seq<char>| #[trigger] m.contains_key(u) ==> m[u].url() == u && m[u].sync_status() is Synced
}

/// Every calendar of the source holds `Synced` items under their own URLs.
pub open spec fn model_ok<R: DavSource>(r: R) -> bool {
    forall|c: Seq<char>| synced_items(#[trigger] r.items_of(c))
}

/// Nothing that the source holds has changed.
pub open spec fn same_model<R: DavSource>(a: R, b: R) -> bool {
    &&& b.calendars_model() == a.calendars_model()
    &&& forall|c: Seq<char>| #[trigger] b.items_of(c) == a.items_of(c)
}

/// Only the items of calendar `cal` have changed, and they are now `m`.
pub open spec fn items_changed<R: DavSource>(a: R, b: R, cal: Seq<char>, m: Map<Seq<char>, ItemView>) -> bool {
    &&& b.calendars_model() == a.calendars_model()
    &&& b.items_of(cal) == m
    &&& forall|c: Seq<char>| c != cal ==> #[trigger] b.items_of(c) == a.items_of(c)
}

/// A remote source of calendars, queried by URL and version tag. Calendars and items are
/// named by their URLs.
///
/// Its operations are stated over a model: the attributes of each calendar it holds, and the
/// items of each calendar. The model defaults to an empty source; an implementation states
/// its own.
pub trait DavSource: Sized {
    /// The source's own invariant, kept by every operation.
    spec fn inv(&self) -> bool;

    /// The attributes of each calendar that the source holds, by URL.
    closed spec fn calendars_model(&self) -> Map<Seq<char>, CalendarInfoView> {
        Map::empty()
    }

    /// The items of the calendar at URL `cal`, by URL.
    closed spec fn items_of(&self, cal: Seq<char>) -> Map<Seq<char>, ItemView> {
        Map::empty()
    }

    /// The calendars of the source, each once.
    fn get_calendars(&mut self) -> (r: Result<Vec<CalendarInfo>, ErrorKind>)
        requires
            old(self).inv(),
            forall|c: Seq<char>| synced_items(#[trigger] old(self).items_of(c)),
        ensures
            final(self).inv(),
            forall|c: Seq<char>| synced_items(#[trigger] final(self).items_of(c)),
            final(self).calendars_model() == old(self).calendars_model() && forall|c: Seq<char>| #[trigger] final(self).items_of(c) == old(self).items_of(c),
            r matches Ok(v) ==> lists_calendars(v@, old(self).calendars_model()),
    ;

    /// Create a calendar with these attributes; it holds no item.
    fn create_calendar(&mut self, info: &CalendarInfo) -> (r: Result<(), ErrorKind>)
        requires
            old(self).inv(),
            forall|c: Seq<char>| synced_items(#[trigger] old(self).items_of(c)),
        ensures
            final(self).inv(),
            forall|c: Seq<char>| synced_items(#[trigger] final(self).items_of(c)),
            r is Err ==> (final(self).calendars_model() == old(self).calendars_model() && forall|c: Seq<char>| #[trigger] final(self).items_of(c) == old(self).items_of(c)),
            r is Ok ==> {
                &&& final(self).calendars_model() == old(self).calendars_model().insert(info.url@, info@)
                &&& final(self).items_of(info.url@) == Map::<Seq<char>, ItemView>::empty()
                &&& forall|c: Seq<char>| c != info.url@ ==> #[trigger] final(self).items_of(c) == old(self).items_of(c)
            },
    ;

    /// The URL and version tag of every item of a calendar, each URL once.
    fn get_item_version_tags(&mut self, calendar_url: &str) -> (r: Result<
        Vec<(String, VersionTag)>,
        ErrorKind,
    >)
        requires
            old(self).inv(),
            forall|c: Seq<char>| synced_items(#[trigger] old(self).items_of(c)),
        ensures
            final(self).inv(),
            forall|c: Seq<char>| synced_items(#[trigger] final(self).items_of(c)),
            final(self).calendars_model() == old(self).calendars_model() && forall|c: Seq<char>| #[trigger] final(self).items_of(c) == old(self).items_of(c),
            r matches Ok(v) ==> lists_tags_of(v@, old(self).items_of(calendar_url@)),
    ;

    /// A batched fetch: one entry per requested URL, in the order requested, with `None` for
    /// a miss.
    fn get_items_by_url(&mut self, calendar_url: &str, urls: &Vec<String>) -> (r: Result<
        Vec<Option<Item>>,
        ErrorKind,
    >)
        requires
            old(self).inv(),
            forall|c: Seq<char>| synced_items(#[trigger] old(self).items_of(c)),
        ensures
            final(self).inv(),
            forall|c: Seq<char>| synced_items(#[trigger] final(self).items_of(c)),
            final(self).calendars_model() == old(self).calendars_model() && forall|c: Seq<char>| #[trigger] final(self).items_of(c) == old(self).items_of(c),
            r matches Ok(v) ==> fetched_as_requested(v@, urls@, old(self).items_of(calendar_url@)),
    ;

    /// Store a new item; the status returned is `Synced` at the version the source assigned,
    /// and the item is held with that status.
    fn add_item(&mut self, calendar_url: &str, item: Item) -> (r: Result<SyncStatus, ErrorKind>)
        requires
            old(self).inv(),
            forall|c: Seq<char>| synced_items(#[trigger] old(self).items_of(c)),
        ensures
            final(self).inv(),
            forall|c: Seq<char>| synced_items(#[trigger] final(self).items_of(c)),
            r is Err ==> (final(self).calendars_model() == old(self).calendars_model() && forall|c: Seq<char>| #[trigger] final(self).items_of(c) == old(self).items_of(c)),
            r matches Ok(s) ==> s@ is Synced && (final(self).calendars_model() == old(self).calendars_model() && final(self).items_of(calendar_url@) == old(self).items_of(calendar_url@).insert(item@.url(), item@.with_sync_status(s@)) && forall|c: Seq<char>| c != calendar_url@ ==> #[trigger] final(self).items_of(c) == old(self).items_of(c)),
    ;

    /// Replace an item, provided the source still holds the version that the item's status
    /// names; the status returned is `Synced` at the new version, and the item is held with it.
    fn update_item(&mut self, calendar_url: &str, item: Item) -> (r: Result<SyncStatus, ErrorKind>)
        requires
            old(self).inv(),
            forall|c: Seq<char>| synced_items(#[trigger] old(self).items_of(c)),
        ensures
            final(self).inv(),
            forall|c: Seq<char>| synced_items(#[trigger] final(self).items_of(c)),
            r is Err ==> (final(self).calendars_model() == old(self).calendars_model() && forall|c: Seq<char>| #[trigger] final(self).items_of(c) == old(self).items_of(c)),
            r matches Ok(s) ==> s@ is Synced && (final(self).calendars_model() == old(self).calendars_model() && final(self).items_of(calendar_url@) == old(self).items_of(calendar_url@).insert(item@.url(), item@.with_sync_status(s@)) && forall|c: Seq<char>| c != calendar_url@ ==> #[trigger] final(self).items_of(c) == old(self).items_of(c)),
    ;

    /// Delete an item.
    fn delete_item(&mut self, calendar_url: &str, url: &str) -> (r: Result<(), ErrorKind>)
        requires
            old(self).inv(),
            forall|c: Seq<char>| synced_items(#[trigger] old(self).items_of(c)),
        ensures
            final(self).inv(),
            forall|c: Seq<char>| synced_items(#[trigger] final(self).items_of(c)),
            r is Err ==> (final(self).calendars_model() == old(self).calendars_model() && forall|c: Seq<char>| #[trigger] final(self).items_of(c) == old(self).items_of(c)),
            r is Ok ==> (final(self).calendars_model() == old(self).calendars_model() && final(self).items_of(calendar_url@) == old(self).items_of(calendar_url@).remove(url@) && forall|c: Seq<char>| c != calendar_url@ ==> #[trigger] final(self).items_of(c) == old(self).items_of(c)),
    ;
}

} // verus!
