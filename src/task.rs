//! To-do tasks (iCal `VTODO` items).

use vstd::prelude::*;

use crate::item::{random_item_url, random_uuid, SyncStatus, SyncStatusView};
use crate::property::{clone_properties, properties_view, Property, PropertyView};
use crate::time::{now, DateTime};

verus! {

/// The completion of a task. The two variants rule out a `COMPLETED` timestamp on a task that
/// is not completed.
#[derive(Clone, Copy, Debug, PartialEq, Eq, Structural)]
pub enum CompletionStatus {
    /// Completed, at the given instant if it is known.
    Completed(Option<DateTime>),
    Uncompleted,
}

impl CompletionStatus {
    pub fn is_completed(&self) -> (r: bool)
        ensures
            r == (*self is Completed),
    {
        match self {
            CompletionStatus::Completed(_) => true,
            _ => false,
        }
    }
}

/// A to-do task.
#[derive(Debug)]
pub struct Task {
    /// The task URL, its key within a calendar.
    url: String,
    /// The persistent RFC5545 UID.
    uid: String,
    sync_status: SyncStatus,
    /// The creation time; tasks that come from a server may lack it.
    creation_date: Option<DateTime>,
    last_modified: DateTime,
    completion_status: CompletionStatus,
    /// The display name (`SUMMARY`).
    name: String,
    /// The `PRODID` of the iCal text the task came from.
    ical_prod_id: String,
    /// The properties that the codec did not interpret, in source order.
    extra_parameters: Vec<Property>,
}

pub struct TaskView {
    pub url: Seq<char>,
    pub uid: Seq<char>,
    pub sync_status: SyncStatusView,
    pub creation_date: Option<DateTime>,
    pub last_modified: DateTime,
    pub completion_status: CompletionStatus,
    pub name: Seq<char>,
    pub ical_prod_id: Seq<char>,
    pub extra_parameters: Seq<PropertyView>,
}

impl View for Task {
    type V = TaskView;

    closed spec fn view(&self) -> TaskView {
        TaskView {
            url: self.url@,
            uid: self.uid@,
            sync_status: self.sync_status@,
            creation_date: self.creation_date,
            last_modified: self.last_modified,
            completion_status: self.completion_status,
            name: self.name@,
            ical_prod_id: self.ical_prod_id@,
            extra_parameters: properties_view(self.extra_parameters@),
        }
    }
}

impl TaskView {
    /// Same URL, name, sync-status variant and completion variant; tags, dates and
    /// pass-through properties are not examined.
    pub open spec fn same_observable_content(self, other: TaskView) -> bool {
        &&& self.url == other.url
        &&& self.name == other.name
        &&& crate::event::same_variant(self.sync_status, other.sync_status)
        &&& self.completion_status is Completed == other.completion_status is Completed
    }
}

impl Clone for Task {
    fn clone(&self) -> (r: Self)
        ensures
            r@ == self@,
    {
        Task {
            url: self.url.clone(),
            uid: self.uid.clone(),
            sync_status: self.sync_status.clone(),
            creation_date: self.creation_date,
            last_modified: self.last_modified,
            completion_status: self.completion_status,
            name: self.name.clone(),
            ical_prod_id: self.ical_prod_id.clone(),
            extra_parameters: clone_properties(&self.extra_parameters),
        }
    }
}

impl Task {
    /// A brand new task, not on any server yet, with a random URL under the calendar's URL and
    /// a random UID; `None` when the calendar URL cannot be the base of another URL.
    pub fn new(name: String, completed: bool, parent_calendar_url: &str) -> (r: Option<Self>)
        ensures
            r matches Some(t) ==> {
                &&& t@.name == name@
                &&& t@.sync_status is NotSynced
                &&& t@.creation_date == Some(t@.last_modified)
                &&& (completed ==> t@.completion_status == CompletionStatus::Completed(
                    Some(t@.last_modified),
                ))
                &&& (!completed ==> t@.completion_status is Uncompleted)
                &&& t@.ical_prod_id == crate::ical::spec_default_prod_id()
                &&& t@.extra_parameters.len() == 0
            },
    {
        let url = match random_item_url(parent_calendar_url) {
            Some(u) => u,
            None => return None,
        };
        let uid = random_uuid();
        let instant = now();
        let completion_status = if completed {
            CompletionStatus::Completed(Some(instant))
        } else {
            CompletionStatus::Uncompleted
        };
        let t = Task::new_with_parameters(
            name,
            uid,
            url,
            completion_status,
            SyncStatus::NotSynced,
            Some(instant),
            instant,
            crate::ical::default_prod_id(),
            Vec::new(),
        );
        assert(t@.extra_parameters =~= Seq::<PropertyView>::empty());
        Some(t)
    }

    /// A task with every attribute given, possibly synced already.
    pub fn new_with_parameters(
        name: String,
        uid: String,
        url: String,
        completion_status: CompletionStatus,
        sync_status: SyncStatus,
        creation_date: Option<DateTime>,
        last_modified: DateTime,
        ical_prod_id: String,
        extra_parameters: Vec<Property>,
    ) -> (r: Self)
        ensures
            r@ == (TaskView {
                url: url@,
                uid: uid@,
                sync_status: sync_status@,
                creation_date,
                last_modified,
                completion_status,
                name: name@,
                ical_prod_id: ical_prod_id@,
                extra_parameters: properties_view(extra_parameters@),
            }),
    {
        Task {
            url,
            uid,
            name,
            completion_status,
            sync_status,
            creation_date,
            last_modified,
            ical_prod_id,
            extra_parameters,
        }
    }

    pub fn url(&self) -> (r: &str)
        ensures
            r@ == self@.url,
    {
        self.url.as_str()
    }

    pub(crate) fn url_string(&self) -> (r: &String)
        ensures
            r@ == self@.url,
    {
        &self.url
    }

    pub fn uid(&self) -> (r: &str)
        ensures
            r@ == self@.uid,
    {
        self.uid.as_str()
    }

    pub fn name(&self) -> (r: &str)
        ensures
            r@ == self@.name,
    {
        self.name.as_str()
    }

    pub fn completed(&self) -> (r: bool)
        ensures
            r == (self@.completion_status is Completed),
    {
        self.completion_status.is_completed()
    }

    pub fn ical_prod_id(&self) -> (r: &str)
        ensures
            r@ == self@.ical_prod_id,
    {
        self.ical_prod_id.as_str()
    }

    pub fn sync_status(&self) -> (r: &SyncStatus)
        ensures
            r@ == self@.sync_status,
    {
        &self.sync_status
    }

    pub fn last_modified(&self) -> (r: &DateTime)
        ensures
            *r == self@.last_modified,
    {
        &self.last_modified
    }

    pub fn creation_date(&self) -> (r: Option<&DateTime>)
        ensures
            r matches Some(d) ==> self@.creation_date == Some(*d),
            r is None ==> self@.creation_date is None,
    {
        match &self.creation_date {
            Some(d) => Some(d),
            None => None,
        }
    }

    pub fn completion_status(&self) -> (r: &CompletionStatus)
        ensures
            *r == self@.completion_status,
    {
        &self.completion_status
    }

    pub fn extra_parameters(&self) -> (r: &[Property])
        ensures
            properties_view(r@) == self@.extra_parameters,
    {
        self.extra_parameters.as_slice()
    }

    pub fn has_same_observable_content_as(&self, other: &Task) -> (r: bool)
        ensures
            r == self@.same_observable_content(other@),
    {
        self.url == other.url && self.name == other.name
            && crate::event::same_status_variant(&self.sync_status, &other.sync_status)
            && self.completion_status.is_completed() == other.completion_status.is_completed()
    }

    pub fn set_sync_status(&mut self, new_status: SyncStatus)
        ensures
            final(self)@ == (TaskView { sync_status: new_status@, ..old(self)@ }),
    {
        self.sync_status = new_status;
    }

    /// Record a user edit in the sync status: `Synced(v)` becomes `LocallyModified(v)`.
    fn update_sync_status(&mut self)
        ensures
            final(self)@ == (TaskView {
                sync_status: old(self)@.sync_status.after_edit(),
                ..old(self)@
            }),
    {
        let next = match &self.sync_status {
            SyncStatus::Synced(prev_vt) => Some(SyncStatus::LocallyModified(prev_vt.clone())),
            _ => None,
        };
        if let Some(s) = next {
            self.sync_status = s;
        }
    }

    fn update_last_modified(&mut self)
        ensures
            final(self)@ == (TaskView { last_modified: final(self)@.last_modified, ..old(self)@ }),
    {
        self.last_modified = now();
    }

    /// Rename the task. This is a user edit: it updates "last modified" and the sync status.
    pub fn set_name(&mut self, new_name: String)
        ensures
            final(self)@ == (TaskView {
                name: new_name@,
                sync_status: old(self)@.sync_status.after_edit(),
                last_modified: final(self)@.last_modified,
                ..old(self)@
            }),
    {
        self.update_sync_status();
        self.update_last_modified();
        self.name = new_name;
    }

    /// Rename the task the way a server does: the server is always the master, so the status
    /// becomes `Synced` with a fresh tag.
    pub fn mock_remote_calendar_set_name(&mut self, new_name: String)
        ensures
            final(self)@.sync_status is Synced,
            final(self)@ == (TaskView {
                name: new_name@,
                sync_status: final(self)@.sync_status,
                last_modified: final(self)@.last_modified,
                ..old(self)@
            }),
    {
        self.sync_status = SyncStatus::random_synced();
        self.update_last_modified();
        self.name = new_name;
    }

    /// Set the completion status. This is a user edit: it updates "last modified" and the sync
    /// status.
    pub fn set_completion_status(&mut self, new_completion_status: CompletionStatus)
        ensures
            final(self)@ == (TaskView {
                completion_status: new_completion_status,
                sync_status: old(self)@.sync_status.after_edit(),
                last_modified: final(self)@.last_modified,
                ..old(self)@
            }),
    {
        self.update_sync_status();
        self.update_last_modified();
        self.completion_status = new_completion_status;
    }

    /// Set the completion status the way a server does: the status becomes `Synced` with a
    /// fresh tag.
    pub fn mock_remote_calendar_set_completion_status(
        &mut self,
        new_completion_status: CompletionStatus,
    )
        ensures
            final(self)@.sync_status is Synced,
            final(self)@ == (TaskView {
                completion_status: new_completion_status,
                sync_status: final(self)@.sync_status,
                ..old(self)@
            }),
    {
        self.sync_status = SyncStatus::random_synced();
        self.completion_status = new_completion_status;
    }
}

} // verus!
