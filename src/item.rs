//! Calendar items (tasks and events) and their sync status.

use vstd::prelude::*;

use crate::event::{Event, EventView};
use crate::task::{Task, TaskView};

verus! {

/// A server version tag (a CalDAV `etag`): whenever it changes, the data has changed.
/// Equality is on the text.
#[derive(Debug)]
pub struct VersionTag {
    tag: String,
}

impl View for VersionTag {
    type V = Seq<char>;

    closed spec fn view(&self) -> Seq<char> {
        self.tag@
    }
}

impl Clone for VersionTag {
    fn clone(&self) -> (r: Self)
        ensures
            r@ == self@,
    {
        VersionTag { tag: self.tag.clone() }
    }
}

impl PartialEq for VersionTag {
    fn eq(&self, other: &VersionTag) -> (r: bool)
        ensures
            r == (self@ == other@),
    {
        self.tag == other.tag
    }
}

impl vstd::std_specs::cmp::PartialEqSpecImpl for VersionTag {
    open spec fn obeys_eq_spec() -> bool {
        true
    }

    open spec fn eq_spec(&self, other: &VersionTag) -> bool {
        self@ == other@
    }
}

impl From<String> for VersionTag {
    fn from(tag: String) -> (r: VersionTag)
        ensures
            r@ == tag@,
    {
        VersionTag { tag }
    }
}

impl vstd::std_specs::convert::FromSpecImpl<String> for VersionTag {
    open spec fn obeys_from_spec() -> bool {
        true
    }

    closed spec fn from_spec(tag: String) -> VersionTag {
        VersionTag { tag }
    }
}

/// Relies on uuid's `Uuid::new_v4` and its hyphenated text: a random identifier, of which
/// nothing is promised.
#[verifier::external_body]
pub(crate) fn random_uuid() -> (r: String) {
    uuid::Uuid::new_v4().to_hyphenated().to_string()
}

/// What url's `Url::join` gives for a base URL and a relative reference: the joined URL, or
/// `None` when the base does not parse or cannot be a base.
pub uninterp spec fn url_joined(base: Seq<char>, reference: Seq<char>) -> Option<Seq<char>>;

/// Relies on url's `Url::parse` and `Url::join`: the result depends on the two texts alone.
#[verifier::external_body]
fn join_url(base: &str, reference: &str) -> (r: Option<String>)
    ensures
        r matches Some(u) ==> url_joined(base@, reference@) == Some(u@),
        r is None ==> url_joined(base@, reference@) is None,
{
    url::Url::parse(base).and_then(|b| b.join(reference)).ok().map(|u| u.to_string())
}

/// A fresh item URL under a calendar URL: the calendar URL joined with a random UUID.
pub fn random_item_url(calendar_url: &str) -> (r: Option<String>)
    ensures
        r matches Some(u) ==> exists|id: Seq<char>| url_joined(calendar_url@, id) == Some(u@),
{
    let id = random_uuid();
    join_url(calendar_url, id.as_str())
}

impl VersionTag {
    /// The text of the tag.
    pub fn as_str(&self) -> (r: &str)
        ensures
            r@ == self@,
    {
        self.tag.as_str()
    }

    /// A random tag, as a server would assign.
    pub fn random() -> (r: Self) {
        VersionTag { tag: random_uuid() }
    }
}

/// Whether an item has been synced already, or modified since it was last synced.
#[derive(Debug)]
pub enum SyncStatus {
    /// Created locally and never synced.
    NotSynced,
    /// Matches the remote version with this tag; not locally modified since.
    Synced(VersionTag),
    /// Synced at this tag, and locally modified since.
    LocallyModified(VersionTag),
    /// Synced at this tag, and locally deleted since (a tombstone).
    LocallyDeleted(VersionTag),
}

pub enum SyncStatusView {
    NotSynced,
    Synced(Seq<char>),
    LocallyModified(Seq<char>),
    LocallyDeleted(Seq<char>),
}

impl View for SyncStatus {
    type V = SyncStatusView;

    open spec fn view(&self) -> SyncStatusView {
        match self {
            SyncStatus::NotSynced => SyncStatusView::NotSynced,
            SyncStatus::Synced(v) => SyncStatusView::Synced(v@),
            SyncStatus::LocallyModified(v) => SyncStatusView::LocallyModified(v@),
            SyncStatus::LocallyDeleted(v) => SyncStatusView::LocallyDeleted(v@),
        }
    }
}

impl SyncStatusView {
    /// The tag that a status carries, for the three variants that carry one.
    pub open spec fn tag(self) -> Option<Seq<char>> {
        match self {
            SyncStatusView::NotSynced => None,
            SyncStatusView::Synced(v) => Some(v),
            SyncStatusView::LocallyModified(v) => Some(v),
            SyncStatusView::LocallyDeleted(v) => Some(v),
        }
    }

    /// The status after a user edit: `Synced(v)` becomes `LocallyModified(v)`; the others stay.
    pub open spec fn after_edit(self) -> SyncStatusView {
        match self {
            SyncStatusView::Synced(v) => SyncStatusView::LocallyModified(v),
            _ => self,
        }
    }

    /// The status after a local deletion of an item that was synced once: a tombstone at the
    /// last known tag.
    pub open spec fn after_deletion(self) -> SyncStatusView {
        match self {
            SyncStatusView::Synced(v) => SyncStatusView::LocallyDeleted(v),
            SyncStatusView::LocallyModified(v) => SyncStatusView::LocallyDeleted(v),
            SyncStatusView::LocallyDeleted(v) => SyncStatusView::LocallyDeleted(v),
            SyncStatusView::NotSynced => SyncStatusView::NotSynced,
        }
    }
}

impl Clone for SyncStatus {
    fn clone(&self) -> (r: Self)
        ensures
            r@ == self@,
    {
        match self {
            SyncStatus::NotSynced => SyncStatus::NotSynced,
            SyncStatus::Synced(v) => SyncStatus::Synced(v.clone()),
            SyncStatus::LocallyModified(v) => SyncStatus::LocallyModified(v.clone()),
            SyncStatus::LocallyDeleted(v) => SyncStatus::LocallyDeleted(v.clone()),
        }
    }
}

impl PartialEq for SyncStatus {
    fn eq(&self, other: &SyncStatus) -> (r: bool)
        ensures
            r == (self@ == other@),
    {
        match (self, other) {
            (SyncStatus::NotSynced, SyncStatus::NotSynced) => true,
            (SyncStatus::Synced(a), SyncStatus::Synced(b)) => a == b,
            (SyncStatus::LocallyModified(a), SyncStatus::LocallyModified(b)) => a == b,
            (SyncStatus::LocallyDeleted(a), SyncStatus::LocallyDeleted(b)) => a == b,
            _ => false,
        }
    }
}

impl vstd::std_specs::cmp::PartialEqSpecImpl for SyncStatus {
    open spec fn obeys_eq_spec() -> bool {
        true
    }

    open spec fn eq_spec(&self, other: &SyncStatus) -> bool {
        self@ == other@
    }
}

impl SyncStatus {
    /// A `Synced` status with a random tag, as a server would assign.
    pub fn random_synced() -> (r: Self)
        ensures
            r@ is Synced,
    {
        SyncStatus::Synced(VersionTag::random())
    }
}

/// Exactly one variant holds of every status: the four variant tests partition all statuses.
pub proof fn lemma_sync_status_exclusive(s: SyncStatusView)
    ensures
        (s is NotSynced) as int + (s is Synced) as int + (s is LocallyModified) as int + (
        s is LocallyDeleted) as int == 1,
{
}

/// A calendar item.
#[derive(Debug)]
pub enum Item {
    Event(Event),
    Task(Task),
}

pub enum ItemView {
    Event(EventView),
    Task(TaskView),
}

impl View for Item {
    type V = ItemView;

    open spec fn view(&self) -> ItemView {
        match self {
            Item::Event(e) => ItemView::Event(e@),
            Item::Task(t) => ItemView::Task(t@),
        }
    }
}

impl ItemView {
    pub open spec fn url(self) -> Seq<char> {
        match self {
            ItemView::Event(e) => e.url,
            ItemView::Task(t) => t.url,
        }
    }

    pub open spec fn uid(self) -> Seq<char> {
        match self {
            ItemView::Event(e) => e.uid,
            ItemView::Task(t) => t.uid,
        }
    }

    pub open spec fn name(self) -> Seq<char> {
        match self {
            ItemView::Event(e) => e.name,
            ItemView::Task(t) => t.name,
        }
    }

    pub open spec fn sync_status(self) -> SyncStatusView {
        match self {
            ItemView::Event(e) => e.sync_status,
            ItemView::Task(t) => t.sync_status,
        }
    }

    /// The same item with another sync status.
    pub open spec fn with_sync_status(self, s: SyncStatusView) -> ItemView {
        match self {
            ItemView::Event(e) => ItemView::Event(EventView { sync_status: s, ..e }),
            ItemView::Task(t) => ItemView::Task(TaskView { sync_status: s, ..t }),
        }
    }

    /// Equality of what a user sees, for sync purposes: the URL, the name, the variant of the
    /// sync status and of the completion status. Tags, dates and pass-through properties are
    /// not examined.
    pub open spec fn same_observable_content(self, other: ItemView) -> bool {
        match (self, other) {
            (ItemView::Event(a), ItemView::Event(b)) => a.same_observable_content(b),
            (ItemView::Task(a), ItemView::Task(b)) => a.same_observable_content(b),
            _ => false,
        }
    }
}

impl Clone for Item {
    fn clone(&self) -> (r: Self)
        ensures
            r@ == self@,
    {
        match self {
            Item::Event(e) => Item::Event(e.clone()),
            Item::Task(t) => Item::Task(t.clone()),
        }
    }
}

impl Item {
    pub fn url(&self) -> (r: &str)
        ensures
            r@ == self@.url(),
    {
        match self {
            Item::Event(e) => e.url(),
            Item::Task(t) => t.url(),
        }
    }

    pub(crate) fn url_string(&self) -> (r: &String)
        ensures
            r@ == self@.url(),
    {
        match self {
            Item::Event(e) => e.url_string(),
            Item::Task(t) => t.url_string(),
        }
    }

    pub fn uid(&self) -> (r: &str)
        ensures
            r@ == self@.uid(),
    {
        match self {
            Item::Event(e) => e.uid(),
            Item::Task(t) => t.uid(),
        }
    }

    pub fn name(&self) -> (r: &str)
        ensures
            r@ == self@.name(),
    {
        match self {
            Item::Event(e) => e.name(),
            Item::Task(t) => t.name(),
        }
    }

    pub fn sync_status(&self) -> (r: &SyncStatus)
        ensures
            r@ == self@.sync_status(),
    {
        match self {
            Item::Event(e) => e.sync_status(),
            Item::Task(t) => t.sync_status(),
        }
    }

    pub fn ical_prod_id(&self) -> (r: &str)
        ensures
            self@ matches ItemView::Task(t) ==> r@ == t.ical_prod_id,
            self@ matches ItemView::Event(e) ==> r@ == e.ical_prod_id,
    {
        match self {
            Item::Event(e) => e.ical_prod_id(),
            Item::Task(t) => t.ical_prod_id(),
        }
    }

    pub fn set_sync_status(&mut self, new_status: SyncStatus)
        ensures
            final(self)@ == old(self)@.with_sync_status(new_status@),
    {
        match self {
            Item::Event(e) => e.set_sync_status(new_status),
            Item::Task(t) => t.set_sync_status(new_status),
        }
    }

    pub fn is_event(&self) -> (r: bool)
        ensures
            r == (self@ is Event),
    {
        match self {
            Item::Event(_) => true,
            _ => false,
        }
    }

    pub fn is_task(&self) -> (r: bool)
        ensures
            r == (self@ is Task),
    {
        match self {
            Item::Task(_) => true,
            _ => false,
        }
    }

    /// The inner task, to be changed in place.
    pub fn unwrap_task_mut(&mut self) -> (r: &mut Task)
        requires
            old(self)@ is Task,
        ensures
            old(self)@ == ItemView::Task(r@),
            final(self)@ == ItemView::Task(final(r)@),
    {
        match self {
            Item::Task(t) => t,
            Item::Event(_) => vstd::pervasive::unreached(),
        }
    }

    /// The inner task.
    pub fn unwrap_task(&self) -> (r: &Task)
        requires
            self@ is Task,
        ensures
            self@ == ItemView::Task(r@),
    {
        match self {
            Item::Task(t) => t,
            Item::Event(_) => vstd::pervasive::unreached(),
        }
    }

    pub fn has_same_observable_content_as(&self, other: &Item) -> (r: bool)
        ensures
            r == self@.same_observable_content(other@),
    {
        match (self, other) {
            (Item::Event(s), Item::Event(o)) => s.has_same_observable_content_as(o),
            (Item::Task(s), Item::Task(o)) => s.has_same_observable_content_as(o),
            _ => false,
        }
    }
}

} // verus!
