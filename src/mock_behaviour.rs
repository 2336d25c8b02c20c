//! Fault injection for mocked remote sources, so that the sync engine can be
//! exercised against transient failures.

use vstd::prelude::*;

use crate::error::ErrorKind;

verus! {

/// How a mocked instance behaves during a test.
///
/// For an operation to fail `n` times after `m` initial successes, set its
/// parameter to `(m, n)`.
#[derive(Clone, Copy, Debug)]
pub struct MockBehaviour {
    /// While this is true, every action is allowed and no counter moves.
    pub is_suspended: bool,

    pub get_calendars_behaviour: (u32, u32),
    pub create_calendar_behaviour: (u32, u32),

    pub add_item_behaviour: (u32, u32),
    pub update_item_behaviour: (u32, u32),

    pub get_item_version_tags_behaviour: (u32, u32),
    pub get_item_by_id_behaviour: (u32, u32),
    pub delete_item_behaviour: (u32, u32),
}

/// The outcome of consulting a counter pair `(successes, failures)`: whether
/// the action is allowed.
pub open spec fn counter_allows(c: (u32, u32)) -> bool {
    c.0 > 0 || c.1 == 0
}

/// The counter pair after it has been consulted once.
pub open spec fn counter_after(c: (u32, u32)) -> (u32, u32) {
    if c.0 > 0 {
        ((c.0 - 1) as u32, c.1)
    } else if c.1 > 0 {
        (c.0, (c.1 - 1) as u32)
    } else {
        c
    }
}

/// The operations of a mocked source that a behaviour governs.
#[derive(Clone, Copy, Debug, PartialEq, Eq, Structural)]
pub enum MockOp {
    GetCalendars,
    CreateCalendar,
    AddItem,
    UpdateItem,
    GetItemVersionTags,
    GetItemById,
    DeleteItem,
}

impl MockBehaviour {
    /// The counter pair that governs an operation.
    pub open spec fn counter(self, op: MockOp) -> (u32, u32) {
        match op {
            MockOp::GetCalendars => self.get_calendars_behaviour,
            MockOp::CreateCalendar => self.create_calendar_behaviour,
            MockOp::AddItem => self.add_item_behaviour,
            MockOp::UpdateItem => self.update_item_behaviour,
            MockOp::GetItemVersionTags => self.get_item_version_tags_behaviour,
            MockOp::GetItemById => self.get_item_by_id_behaviour,
            MockOp::DeleteItem => self.delete_item_behaviour,
        }
    }

    /// This behaviour with the counter pair of `op` replaced.
    pub open spec fn with_counter(self, op: MockOp, c: (u32, u32)) -> MockBehaviour {
        match op {
            MockOp::GetCalendars => MockBehaviour { get_calendars_behaviour: c, ..self },
            MockOp::CreateCalendar => MockBehaviour { create_calendar_behaviour: c, ..self },
            MockOp::AddItem => MockBehaviour { add_item_behaviour: c, ..self },
            MockOp::UpdateItem => MockBehaviour { update_item_behaviour: c, ..self },
            MockOp::GetItemVersionTags => MockBehaviour {
                get_item_version_tags_behaviour: c,
                ..self
            },
            MockOp::GetItemById => MockBehaviour { get_item_by_id_behaviour: c, ..self },
            MockOp::DeleteItem => MockBehaviour { delete_item_behaviour: c, ..self },
        }
    }

    /// Whether the next attempt of `op` is allowed.
    pub open spec fn allows(self, op: MockOp) -> bool {
        self.is_suspended || counter_allows(self.counter(op))
    }

    /// This behaviour after one attempt of `op`.
    pub open spec fn after(self, op: MockOp) -> MockBehaviour {
        if self.is_suspended {
            self
        } else {
            self.with_counter(op, counter_after(self.counter(op)))
        }
    }
}

/// Whether an optional behaviour allows `op`: no behaviour allows everything.
pub open spec fn mock_allows(m: Option<MockBehaviour>, op: MockOp) -> bool {
    match m {
        Some(b) => b.allows(op),
        None => true,
    }
}

/// An optional behaviour after one attempt of `op`.
pub open spec fn mock_after(m: Option<MockBehaviour>, op: MockOp) -> Option<MockBehaviour> {
    match m {
        Some(b) => Some(b.after(op)),
        None => None,
    }
}

/// Consult an optional behaviour before an attempt of `op`.
pub fn consult(m: &mut Option<MockBehaviour>, op: MockOp) -> (r: Result<(), ErrorKind>)
    ensures
        r is Ok <==> mock_allows(*old(m), op),
        *final(m) == mock_after(*old(m), op),
        r is Err ==> r == Err::<(), ErrorKind>(ErrorKind::MockedFailure),
{
    match m {
        None => Ok(()),
        Some(b) => match op {
            MockOp::GetCalendars => b.can_get_calendars(),
            MockOp::CreateCalendar => b.can_create_calendar(),
            MockOp::AddItem => b.can_add_item(),
            MockOp::UpdateItem => b.can_update_item(),
            MockOp::GetItemVersionTags => b.can_get_item_version_tags(),
            MockOp::GetItemById => b.can_get_item_by_id(),
            MockOp::DeleteItem => b.can_delete_item(),
        },
    }
}

impl Default for MockBehaviour {
    fn default() -> (r: Self)
        ensures
            r == MockBehaviour::spec_new(),
    {
        MockBehaviour::new()
    }
}

impl MockBehaviour {
    /// A behaviour that allows everything.
    pub open spec fn spec_new() -> MockBehaviour {
        MockBehaviour {
            is_suspended: false,
            get_calendars_behaviour: (0, 0),
            create_calendar_behaviour: (0, 0),
            add_item_behaviour: (0, 0),
            update_item_behaviour: (0, 0),
            get_item_version_tags_behaviour: (0, 0),
            get_item_by_id_behaviour: (0, 0),
            delete_item_behaviour: (0, 0),
        }
    }

    pub fn new() -> (r: Self)
        ensures
            r == MockBehaviour::spec_new(),
    {
        MockBehaviour {
            is_suspended: false,
            get_calendars_behaviour: (0, 0),
            create_calendar_behaviour: (0, 0),
            add_item_behaviour: (0, 0),
            update_item_behaviour: (0, 0),
            get_item_version_tags_behaviour: (0, 0),
            get_item_by_id_behaviour: (0, 0),
            delete_item_behaviour: (0, 0),
        }
    }

    /// Every operation fails at once, `n_fails` times.
    pub fn fail_now(n_fails: u32) -> (r: Self)
        ensures
            r == (MockBehaviour {
                is_suspended: false,
                get_calendars_behaviour: (0, n_fails),
                create_calendar_behaviour: (0, n_fails),
                add_item_behaviour: (0, n_fails),
                update_item_behaviour: (0, n_fails),
                get_item_version_tags_behaviour: (0, n_fails),
                get_item_by_id_behaviour: (0, n_fails),
                delete_item_behaviour: (0, n_fails),
            }),
    {
        MockBehaviour {
            is_suspended: false,
            get_calendars_behaviour: (0, n_fails),
            create_calendar_behaviour: (0, n_fails),
            add_item_behaviour: (0, n_fails),
            update_item_behaviour: (0, n_fails),
            get_item_version_tags_behaviour: (0, n_fails),
            get_item_by_id_behaviour: (0, n_fails),
            delete_item_behaviour: (0, n_fails),
        }
    }

    /// Suspend this behaviour until `resume` is called.
    pub fn suspend(&mut self)
        ensures
            *final(self) == (MockBehaviour { is_suspended: true, ..*old(self) }),
    {
        self.is_suspended = true;
    }

    /// Make this behaviour active again.
    pub fn resume(&mut self)
        ensures
            *final(self) == (MockBehaviour { is_suspended: false, ..*old(self) }),
    {
        self.is_suspended = false;
    }

    /// Copy the calendar-level counters of `other`.
    pub fn copy_from(&mut self, other: &Self)
        ensures
            *final(self) == (MockBehaviour {
                get_calendars_behaviour: other.get_calendars_behaviour,
                create_calendar_behaviour: other.create_calendar_behaviour,
                ..*old(self)
            }),
    {
        self.get_calendars_behaviour = other.get_calendars_behaviour;
        self.create_calendar_behaviour = other.create_calendar_behaviour;
    }

    pub fn can_get_calendars(&mut self) -> (r: Result<(), ErrorKind>)
        ensures
            r is Ok <==> old(self).allows(MockOp::GetCalendars),
            *final(self) == old(self).after(MockOp::GetCalendars),
            r is Err ==> r == Err::<(), ErrorKind>(ErrorKind::MockedFailure),
    {
        if self.is_suspended {
            return Ok(());
        }
        decrement(&mut self.get_calendars_behaviour)
    }

    pub fn can_create_calendar(&mut self) -> (r: Result<(), ErrorKind>)
        ensures
            r is Ok <==> old(self).allows(MockOp::CreateCalendar),
            *final(self) == old(self).after(MockOp::CreateCalendar),
            r is Err ==> r == Err::<(), ErrorKind>(ErrorKind::MockedFailure),
    {
        if self.is_suspended {
            return Ok(());
        }
        decrement(&mut self.create_calendar_behaviour)
    }

    pub fn can_add_item(&mut self) -> (r: Result<(), ErrorKind>)
        ensures
            r is Ok <==> old(self).allows(MockOp::AddItem),
            *final(self) == old(self).after(MockOp::AddItem),
            r is Err ==> r == Err::<(), ErrorKind>(ErrorKind::MockedFailure),
    {
        if self.is_suspended {
            return Ok(());
        }
        decrement(&mut self.add_item_behaviour)
    }

    pub fn can_update_item(&mut self) -> (r: Result<(), ErrorKind>)
        ensures
            r is Ok <==> old(self).allows(MockOp::UpdateItem),
            *final(self) == old(self).after(MockOp::UpdateItem),
            r is Err ==> r == Err::<(), ErrorKind>(ErrorKind::MockedFailure),
    {
        if self.is_suspended {
            return Ok(());
        }
        decrement(&mut self.update_item_behaviour)
    }

    pub fn can_get_item_version_tags(&mut self) -> (r: Result<(), ErrorKind>)
        ensures
            r is Ok <==> old(self).allows(MockOp::GetItemVersionTags),
            *final(self) == old(self).after(MockOp::GetItemVersionTags),
            r is Err ==> r == Err::<(), ErrorKind>(ErrorKind::MockedFailure),
    {
        if self.is_suspended {
            return Ok(());
        }
        decrement(&mut self.get_item_version_tags_behaviour)
    }

    pub fn can_get_item_by_id(&mut self) -> (r: Result<(), ErrorKind>)
        ensures
            r is Ok <==> old(self).allows(MockOp::GetItemById),
            *final(self) == old(self).after(MockOp::GetItemById),
            r is Err ==> r == Err::<(), ErrorKind>(ErrorKind::MockedFailure),
    {
        if self.is_suspended {
            return Ok(());
        }
        decrement(&mut self.get_item_by_id_behaviour)
    }

    pub fn can_delete_item(&mut self) -> (r: Result<(), ErrorKind>)
        ensures
            r is Ok <==> old(self).allows(MockOp::DeleteItem),
            *final(self) == old(self).after(MockOp::DeleteItem),
            r is Err ==> r == Err::<(), ErrorKind>(ErrorKind::MockedFailure),
    {
        if self.is_suspended {
            return Ok(());
        }
        decrement(&mut self.delete_item_behaviour)
    }
}

/// Allow the action when the pair is `(1+, _)` or `(_, 0)`; otherwise fail and
/// use up one failure. An allowed action with successes left uses up one
/// success.
pub fn decrement(value: &mut (u32, u32)) -> (r: Result<(), ErrorKind>)
    ensures
        r is Ok <==> counter_allows(*old(value)),
        r is Err ==> r == Err::<(), ErrorKind>(ErrorKind::MockedFailure),
        *final(value) == counter_after(*old(value)),
{
    let remaining_successes = value.0;
    let remaining_failures = value.1;

    if remaining_successes > 0 {
        value.0 = remaining_successes - 1;
        Ok(())
    } else if remaining_failures > 0 {
        value.1 = remaining_failures - 1;
        Err(ErrorKind::MockedFailure)
    } else {
        Ok(())
    }
}

} // verus!
