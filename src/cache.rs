//! The local source: a set of calendars kept in memory, persisted by the application.
//!
//! With a [`MockBehaviour`] attached, a cache also stands for a remote source in tests.

use vstd::prelude::*;

use crate::calendar::cached_calendar::{same_observable_content, tag_urls_distinct, CachedCalendar};
use crate::calendar::{CalendarInfo, CalendarInfoView, Color, SupportedComponents};
use crate::error::ErrorKind;
use crate::item::{Item, SyncStatus, VersionTag};
use crate::mock_behaviour::{consult, mock_after, mock_allows, MockBehaviour, MockOp};
use crate::traits::{calendar_urls_distinct, DavSource, lists_calendars, model_ok, synced_items};
use crate::item::ItemView;

verus! {

/// Whether a list of calendars holds one with this URL.
pub open spec fn calendars_hold(cals: Seq<CachedCalendar>, u: Seq<char>) -> bool {
    exists|i: int| 0 <= i < cals.len() && #[trigger] cals[i].info().url == u
}

/// No two calendars of a list have the same URL.
pub open spec fn urls_unique(cals: Seq<CachedCalendar>) -> bool {
    forall|i: int, j: int|
        0 <= i < cals.len() && 0 <= j < cals.len() && i != j ==> #[trigger] cals[i].info().url
            != #[trigger] cals[j].info().url
}

/// The calendar of a list that has URL `u`.
pub open spec fn calendar_at(cals: Seq<CachedCalendar>, u: Seq<char>) -> CachedCalendar {
    cals[choose|i: int| 0 <= i < cals.len() && cals[i].info().url == u]
}

/// In a list without repeated URLs, the calendar with the URL of position `i` is the one there.
pub proof fn lemma_calendar_at_index(cals: Seq<CachedCalendar>, i: int)
    requires
        urls_unique(cals),
        0 <= i < cals.len(),
    ensures
        calendars_hold(cals, cals[i].info().url),
        calendar_at(cals, cals[i].info().url) == cals[i],
{
    let u = cals[i].info().url;
    assert(cals[i].info().url == u);
    let k = choose|k: int| 0 <= k < cals.len() && cals[k].info().url == u;
    if k != i {
        assert(cals[k].info().url != cals[i].info().url);
    }
}

/// Replacing a calendar by one with the same attributes keeps the URLs, and changes the
/// calendar found at that URL only.
pub proof fn lemma_replace_calendar(cals: Seq<CachedCalendar>, i: int, x: CachedCalendar)
    requires
        urls_unique(cals),
        0 <= i < cals.len(),
        x.info() == cals[i].info(),
    ensures
        urls_unique(cals.update(i, x)),
        forall|u: Seq<char>| #[trigger] calendars_hold(cals.update(i, x), u) == calendars_hold(cals, u),
        calendar_at(cals.update(i, x), x.info().url) == x,
        forall|u: Seq<char>|
            calendars_hold(cals, u) && u != x.info().url ==> #[trigger] calendar_at(cals.update(i, x), u)
                == calendar_at(cals, u),
{
    let n = cals.update(i, x);
    assert forall|a: int, b: int| 0 <= a < n.len() && 0 <= b < n.len() && a != b implies #[trigger] n[a].info().url
        != #[trigger] n[b].info().url by {
        assert(cals[a].info().url != cals[b].info().url);
    }
    assert forall|u: Seq<char>| #[trigger] calendars_hold(n, u) == calendars_hold(cals, u) by {
        if calendars_hold(n, u) {
            let k = choose|k: int| 0 <= k < n.len() && #[trigger] n[k].info().url == u;
            assert(cals[k].info().url == u);
        }
        if calendars_hold(cals, u) {
            let k = choose|k: int| 0 <= k < cals.len() && #[trigger] cals[k].info().url == u;
            assert(n[k].info().url == u);
        }
    }
    lemma_calendar_at_index(n, i);
    assert forall|u: Seq<char>| calendars_hold(cals, u) && u != x.info().url implies #[trigger] calendar_at(n, u)
        == calendar_at(cals, u) by {
        let k = choose|k: int| 0 <= k < cals.len() && #[trigger] cals[k].info().url == u;
        lemma_calendar_at_index(cals, k);
        lemma_calendar_at_index(n, k);
    }
}

/// Adding a calendar with a new URL keeps the calendars found at the other URLs.
pub proof fn lemma_push_calendar(cals: Seq<CachedCalendar>, x: CachedCalendar)
    requires
        urls_unique(cals),
        !calendars_hold(cals, x.info().url),
    ensures
        urls_unique(cals.push(x)),
        forall|u: Seq<char>| #[trigger] calendars_hold(cals.push(x), u) == (calendars_hold(cals, u) || u == x.info().url),
        calendar_at(cals.push(x), x.info().url) == x,
        forall|u: Seq<char>| calendars_hold(cals, u) ==> #[trigger] calendar_at(cals.push(x), u) == calendar_at(cals, u),
{
    let n = cals.push(x);
    let last = cals.len() as int;
    assert forall|a: int, b: int| 0 <= a < n.len() && 0 <= b < n.len() && a != b implies #[trigger] n[a].info().url
        != #[trigger] n[b].info().url by {
        if a < last && b < last {
            assert(cals[a].info().url != cals[b].info().url);
        } else if a < last {
            assert(cals[a].info().url == n[a].info().url);
        } else {
            assert(cals[b].info().url == n[b].info().url);
        }
    }
    assert forall|u: Seq<char>| #[trigger] calendars_hold(n, u) == (calendars_hold(cals, u) || u == x.info().url) by {
        if calendars_hold(n, u) {
            let k = choose|k: int| 0 <= k < n.len() && #[trigger] n[k].info().url == u;
            if k < last {
                assert(cals[k].info().url == u);
            }
        }
        if calendars_hold(cals, u) {
            let k = choose|k: int| 0 <= k < cals.len() && #[trigger] cals[k].info().url == u;
            assert(n[k].info().url == u);
        }
        if u == x.info().url {
            assert(n[last].info().url == u);
        }
    }
    lemma_calendar_at_index(n, last);
    assert forall|u: Seq<char>| calendars_hold(cals, u) implies #[trigger] calendar_at(n, u) == calendar_at(cals, u) by {
        let k = choose|k: int| 0 <= k < cals.len() && #[trigger] cals[k].info().url == u;
        lemma_calendar_at_index(cals, k);
        lemma_calendar_at_index(n, k);
    }
}

/// A set of calendars, each held under its own URL.
pub struct Cache {
    calendars: Vec<CachedCalendar>,
    mock_behaviour: Option<MockBehaviour>,
}

impl Cache {
    /// The calendars, in storage order.
    pub closed spec fn calendars(&self) -> Seq<CachedCalendar> {
        self.calendars@
    }

    /// The fault injector attached, when the cache stands for a remote source.
    pub closed spec fn mock(&self) -> Option<MockBehaviour> {
        self.mock_behaviour
    }

    /// Whether a calendar with this URL is held.
    pub open spec fn has_calendar(&self, u: Seq<char>) -> bool {
        calendars_hold(self.calendars(), u)
    }

    /// Every calendar is well formed, and no URL is held twice.
    pub open spec fn wf(&self) -> bool {
        &&& forall|i: int|
            0 <= i < self.calendars().len() ==> (#[trigger] self.calendars()[i]).wf()
                && self.calendars()[i].mock() is None
        &&& urls_unique(self.calendars())
    }

    /// An empty cache.
    pub fn new() -> (r: Self)
        ensures
            r.wf(),
            r.calendars().len() == 0,
            r.mock() is None,
    {
        Cache { calendars: Vec::new(), mock_behaviour: None }
    }

    /// Attach a fault injector: the cache then behaves as a remote source.
    pub fn set_mock_behaviour(&mut self, mock_behaviour: Option<MockBehaviour>)
        requires
            old(self).wf(),
        ensures
            final(self).wf(),
            final(self).calendars() == old(self).calendars(),
            final(self).mock() == mock_behaviour,
    {
        self.mock_behaviour = mock_behaviour;
    }

    /// Where the calendar with this URL stands, if it is held.
    fn position(&self, url: &str) -> (r: Option<usize>)
        requires
            self.wf(),
        ensures
            r matches Some(i) ==> i < self.calendars().len() && self.calendars()[i as int].info().url
                == url@,
            r is None ==> !self.has_calendar(url@),
    {
        let mut i: usize = 0;
        while i < self.calendars.len()
            invariant
                i <= self.calendars@.len(),
                forall|j: int| 0 <= j < i ==> #[trigger] self.calendars@[j].info().url != url@,
            decreases self.calendars@.len() - i,
        {
            if crate::utils::str_eq(self.calendars[i].url(), url) {
                return Some(i);
            }
            i = i + 1;
        }
        None
    }

    /// The attributes of every calendar, in storage order.
    pub fn get_calendar_infos(&self) -> (r: Vec<CalendarInfo>)
        requires
            self.wf(),
        ensures
            r@.len() == self.calendars().len(),
            forall|i: int| 0 <= i < r@.len() ==> (#[trigger] r@[i])@ == self.calendars()[i].info(),
            calendar_urls_distinct(r@),
    {
        let mut out: Vec<CalendarInfo> = Vec::new();
        let mut i: usize = 0;
        while i < self.calendars.len()
            invariant
                self.wf(),
                i <= self.calendars@.len(),
                out@.len() == i,
                forall|j: int| 0 <= j < i ==> (#[trigger] out@[j])@ == self.calendars()[j].info(),
            decreases self.calendars@.len() - i,
        {
            out.push(self.calendars[i].info_value());
            i = i + 1;
        }
        proof {
            assert forall|a: int, b: int|
                0 <= a < out@.len() && 0 <= b < out@.len() && a != b implies #[trigger] out@[a].url@
                != #[trigger] out@[b].url@ by {
                assert(out@[a]@ == self.calendars()[a].info());
                assert(out@[b]@ == self.calendars()[b].info());
                assert(self.calendars()[a].info().url != self.calendars()[b].info().url);
            }
        }
        out
    }

    /// The attributes of every calendar. A cache that stands for a remote source consults its
    /// fault injector first.
    pub fn get_calendars(&mut self) -> (r: Result<Vec<CalendarInfo>, ErrorKind>)
        requires
            old(self).wf(),
        ensures
            final(self).wf(),
            final(self).calendars() == old(self).calendars(),
            final(self).mock() == mock_after(old(self).mock(), MockOp::GetCalendars),
            r is Ok <==> mock_allows(old(self).mock(), MockOp::GetCalendars),
            r is Err ==> r == Err::<Vec<CalendarInfo>, ErrorKind>(ErrorKind::MockedFailure),
            r matches Ok(v) ==> v@.len() == old(self).calendars().len() && calendar_urls_distinct(v@)
                && forall|i: int|
                0 <= i < v@.len() ==> (#[trigger] v@[i])@ == old(self).calendars()[i].info(),
    {
        if consult(&mut self.mock_behaviour, MockOp::GetCalendars).is_err() {
            return Err(ErrorKind::MockedFailure);
        }
        Ok(self.get_calendar_infos())
    }

    /// The calendar with this URL.
    pub fn get_calendar(&self, url: &str) -> (r: Option<&CachedCalendar>)
        requires
            self.wf(),
        ensures
            r matches Some(c) ==> self.has_calendar(url@) && c.info().url == url@ && c.wf()
                && exists|i: int| 0 <= i < self.calendars().len() && self.calendars()[i] == *c,
            r is None ==> !self.has_calendar(url@),
    {
        match self.position(url) {
            Some(i) => Some(&self.calendars[i]),
            None => None,
        }
    }

    /// Create an empty calendar; fails with `Duplicate` when the URL is taken. A cache that
    /// stands for a remote source consults its fault injector first.
    pub fn create_calendar(
        &mut self,
        url: String,
        name: String,
        supported_components: SupportedComponents,
        color: Option<Color>,
    ) -> (r: Result<(), ErrorKind>)
        requires
            old(self).wf(),
        ensures
            final(self).wf(),
            final(self).mock() == mock_after(old(self).mock(), MockOp::CreateCalendar),
            !mock_allows(old(self).mock(), MockOp::CreateCalendar) ==> r == Err::<(), ErrorKind>(
                ErrorKind::MockedFailure,
            ) && final(self).calendars() == old(self).calendars(),
            mock_allows(old(self).mock(), MockOp::CreateCalendar) && old(self).has_calendar(url@)
                ==> r == Err::<(), ErrorKind>(ErrorKind::Duplicate) && final(self).calendars() == old(self).calendars(),
            mock_allows(old(self).mock(), MockOp::CreateCalendar) && !old(self).has_calendar(url@)
                ==> r is Ok && final(self).calendars().len() == old(self).calendars().len() + 1
                && final(self).calendars().drop_last() == old(self).calendars() && final(self).calendars().last().info() == (CalendarInfoView {
                url: url@,
                name: name@,
                supported_components,
                color,
            }) && final(self).calendars().last().items() == Map::<Seq<char>, ItemView>::empty(),
    {
        if consult(&mut self.mock_behaviour, MockOp::CreateCalendar).is_err() {
            return Err(ErrorKind::MockedFailure);
        }
        if self.position(url.as_str()).is_some() {
            return Err(ErrorKind::Duplicate);
        }
        let ghost u = url@;
        let cal = CachedCalendar::new(name, url, supported_components, color);
        let ghost c0 = self.calendars@;
        self.calendars.push(cal);
        proof {
            assert(self.calendars@.drop_last() =~= c0);
            assert forall|a: int, b: int|
                0 <= a < self.calendars@.len() && 0 <= b < self.calendars@.len() && a != b implies #[trigger] self.calendars@[a].info().url
                != #[trigger] self.calendars@[b].info().url by {
                if a < c0.len() && b == c0.len() {
                    assert(self.calendars@[a] == c0[a]);
                }
                if b < c0.len() && a == c0.len() {
                    assert(self.calendars@[b] == c0[b]);
                }
            }
        }
        Ok(())
    }

    /// Take the calendar with this URL out of the cache, to work on it.
    pub(crate) fn take_calendar(&mut self, url: &str) -> (r: Option<(usize, CachedCalendar)>)
        requires
            old(self).wf(),
        ensures
            final(self).mock() == old(self).mock(),
            r is None ==> !old(self).has_calendar(url@) && final(self).calendars() == old(self).calendars()
                && final(self).wf(),
            r matches Some((i, c)) ==> i < old(self).calendars().len() && c == old(self).calendars()[i as int]
                && c.info().url == url@ && c.wf() && c.mock() is None && final(self).calendars() == old(self).calendars().remove(i as int)
                && final(self).wf() && !final(self).has_calendar(url@),
    {
        match self.position(url) {
            None => None,
            Some(i) => {
                let ghost c0 = self.calendars@;
                let c = self.calendars.remove(i);
                proof {
                    assert forall|a: int, b: int|
                        0 <= a < self.calendars@.len() && 0 <= b < self.calendars@.len() && a != b implies #[trigger] self.calendars@[a].info().url
                        != #[trigger] self.calendars@[b].info().url by {
                        let a0 = if a < i { a } else { a + 1 };
                        let b0 = if b < i { b } else { b + 1 };
                        assert(self.calendars@[a] == c0[a0]);
                        assert(self.calendars@[b] == c0[b0]);
                    }
                    assert forall|a: int| 0 <= a < self.calendars@.len() implies (#[trigger] self.calendars@[a]).wf() by {
                        let a0 = if a < i { a } else { a + 1 };
                        assert(self.calendars@[a] == c0[a0]);
                    }
                    if self.has_calendar(url@) {
                        let a = choose|a: int| 0 <= a < self.calendars@.len() && self.calendars@[a].info().url == url@;
                        let a0 = if a < i { a } else { a + 1 };
                        assert(self.calendars@[a] == c0[a0]);
                        assert(c0[a0].info().url != c0[i as int].info().url);
                    }
                }
                Some((i, c))
            },
        }
    }

    /// Put back a calendar taken out with `take_calendar`, after work that kept its attributes.
    pub(crate) fn put_back_calendar(&mut self, i: usize, c: CachedCalendar)
        requires
            old(self).wf(),
            c.wf(),
            c.mock() is None,
            i <= old(self).calendars().len(),
            !old(self).has_calendar(c.info().url),
        ensures
            final(self).wf(),
            final(self).mock() == old(self).mock(),
            final(self).calendars() == old(self).calendars().insert(i as int, c),
    {
        let ghost c0 = self.calendars@;
        self.calendars.insert(i, c);
        proof {
            assert forall|a: int, b: int|
                0 <= a < self.calendars@.len() && 0 <= b < self.calendars@.len() && a != b implies #[trigger] self.calendars@[a].info().url
                != #[trigger] self.calendars@[b].info().url by {
                if a != i && b != i {
                    let a0 = if a < i { a } else { a - 1 };
                    let b0 = if b < i { b } else { b - 1 };
                    assert(self.calendars@[a] == c0[a0]);
                    assert(self.calendars@[b] == c0[b0]);
                } else if a == i {
                    let b0 = if b < i { b } else { b - 1 };
                    assert(self.calendars@[b] == c0[b0]);
                } else {
                    let a0 = if a < i { a } else { a - 1 };
                    assert(self.calendars@[a] == c0[a0]);
                }
            }
            assert forall|a: int| 0 <= a < self.calendars@.len() implies (#[trigger] self.calendars@[a]).wf() by {
                if a != i {
                    let a0 = if a < i { a } else { a - 1 };
                    assert(self.calendars@[a] == c0[a0]);
                }
            }
        }
    }
}

/// Two sources show the same thing to a user: calendars at the same URLs, and at each URL
/// calendars with the same observable content.
pub open spec fn same_sources(a: Cache, b: Cache) -> bool {
    &&& forall|u: Seq<char>| #[trigger] a.has_calendar(u) <==> b.has_calendar(u)
    &&& forall|i: int, j: int|
        0 <= i < a.calendars().len() && 0 <= j < b.calendars().len() && #[trigger] a.calendars()[i].info().url
            == #[trigger] b.calendars()[j].info().url ==> same_observable_content(a.calendars()[i], b.calendars()[j])
}

impl Cache {
    /// Whether both sources show the same thing to a user (see [`same_sources`]).
    pub fn has_same_observable_content_as(&self, other: &Cache) -> (r: bool)
        requires
            self.wf(),
            other.wf(),
        ensures
            r == same_sources(*self, *other),
    {
        let mut i: usize = 0;
        while i < self.calendars.len()
            invariant
                self.wf(),
                other.wf(),
                i <= self.calendars@.len(),
                forall|a: int| 0 <= a < i ==> other.has_calendar(#[trigger] self.calendars()[a].info().url),
                forall|a: int, b: int|
                    0 <= a < i && 0 <= b < other.calendars().len() && #[trigger] self.calendars()[a].info().url
                        == #[trigger] other.calendars()[b].info().url ==> same_observable_content(self.calendars()[a], other.calendars()[b]),
            decreases self.calendars@.len() - i,
        {
            let mine = &self.calendars[i];
            assert(mine.wf());
            match other.get_calendar(mine.url()) {
                None => {
                    proof {
                        let u = self.calendars()[i as int].info().url;
                        assert(calendars_hold(self.calendars(), u));
                        assert(self.has_calendar(u));
                    }
                    return false;
                },
                Some(theirs) => {
                    let ghost k = choose|k: int| 0 <= k < other.calendars().len() && other.calendars()[k] == *theirs;
                    if !mine.has_same_observable_content_as(theirs) {
                        proof {
                            assert(self.calendars()[i as int].info().url == other.calendars()[k].info().url);
                        }
                        return false;
                    }
                    proof {
                        assert forall|a: int, b: int|
                            0 <= a < i + 1 && 0 <= b < other.calendars().len() && #[trigger] self.calendars()[a].info().url
                                == #[trigger] other.calendars()[b].info().url implies same_observable_content(self.calendars()[a], other.calendars()[b]) by {
                            if a == i {
                                if b != k {
                                    assert(other.calendars()[b].info().url != other.calendars()[k].info().url);
                                }
                            }
                        }
                        assert(other.has_calendar(self.calendars()[i as int].info().url));
                    }
                },
            }
            i = i + 1;
        }
        let mut j: usize = 0;
        while j < other.calendars.len()
            invariant
                self.wf(),
                other.wf(),
                j <= other.calendars@.len(),
                forall|b: int| 0 <= b < j ==> self.has_calendar(#[trigger] other.calendars()[b].info().url),
            decreases other.calendars@.len() - j,
        {
            if self.get_calendar(other.calendars[j].url()).is_none() {
                proof {
                    let u = other.calendars()[j as int].info().url;
                    assert(calendars_hold(other.calendars(), u));
                }
                return false;
            }
            j = j + 1;
        }
        proof {
            assert forall|u: Seq<char>| #[trigger] self.has_calendar(u) <==> other.has_calendar(u) by {
                if self.has_calendar(u) {
                    let a = choose|a: int| 0 <= a < self.calendars().len() && #[trigger] self.calendars()[a].info().url == u;
                    assert(other.has_calendar(self.calendars()[a].info().url));
                }
                if other.has_calendar(u) {
                    let b = choose|b: int| 0 <= b < other.calendars().len() && #[trigger] other.calendars()[b].info().url == u;
                    assert(self.has_calendar(other.calendars()[b].info().url));
                }
            }
        }
        true
    }
}

/// Item operations of a local cache, on one of its calendars; `NotFound` when no calendar has
/// that URL.
impl Cache {
    /// Add an item to the calendar at `cal_url` (see [`CachedCalendar::add_item`]).
    pub fn add_item_in(&mut self, cal_url: &str, item: Item) -> (r: Result<SyncStatus, ErrorKind>)
        requires
            old(self).wf(),
        ensures
            final(self).wf(),
            final(self).mock() == old(self).mock(),
            forall|u: Seq<char>| #[trigger] final(self).has_calendar(u) == old(self).has_calendar(u),
            !old(self).has_calendar(cal_url@) ==> r is Err && final(self).calendars() == old(self).calendars(),
    {
        match self.take_calendar(cal_url) {
            None => Err(ErrorKind::NotFound),
            Some((i, c)) => {
                let ghost old_cals = old(self).calendars();
                let mut c = c;
                let r = c.add_item(item);
                self.put_back_calendar(i, c);
                proof {
                    lemma_put_back_keeps_urls(old_cals, i as int, c);
                }
                r
            },
        }
    }

    /// Replace an item of the calendar at `cal_url` (see [`CachedCalendar::update_item`]).
    pub fn update_item_in(&mut self, cal_url: &str, item: Item) -> (r: Result<SyncStatus, ErrorKind>)
        requires
            old(self).wf(),
        ensures
            final(self).wf(),
            final(self).mock() == old(self).mock(),
            forall|u: Seq<char>| #[trigger] final(self).has_calendar(u) == old(self).has_calendar(u),
            !old(self).has_calendar(cal_url@) ==> r is Err && final(self).calendars() == old(self).calendars(),
    {
        match self.take_calendar(cal_url) {
            None => Err(ErrorKind::NotFound),
            Some((i, c)) => {
                let ghost old_cals = old(self).calendars();
                let mut c = c;
                let r = c.update_item(item);
                self.put_back_calendar(i, c);
                proof {
                    lemma_put_back_keeps_urls(old_cals, i as int, c);
                }
                r
            },
        }
    }

    /// Mark an item of the calendar at `cal_url` for deletion (see [`CachedCalendar::mark_for_deletion`]).
    pub fn mark_for_deletion_in(&mut self, cal_url: &str, url: &str) -> (r: Result<(), ErrorKind>)
        requires
            old(self).wf(),
        ensures
            final(self).wf(),
            final(self).mock() == old(self).mock(),
            forall|u: Seq<char>| #[trigger] final(self).has_calendar(u) == old(self).has_calendar(u),
            !old(self).has_calendar(cal_url@) ==> r is Err && final(self).calendars() == old(self).calendars(),
    {
        match self.take_calendar(cal_url) {
            None => Err(ErrorKind::NotFound),
            Some((i, c)) => {
                let ghost old_cals = old(self).calendars();
                let mut c = c;
                let r = c.mark_for_deletion(url);
                self.put_back_calendar(i, c);
                proof {
                    lemma_put_back_keeps_urls(old_cals, i as int, c);
                }
                r
            },
        }
    }

    /// Remove an item of the calendar at `cal_url` outright (see [`CachedCalendar::immediately_delete_item`]).
    pub fn immediately_delete_item_in(&mut self, cal_url: &str, url: &str) -> (r: Result<(), ErrorKind>)
        requires
            old(self).wf(),
        ensures
            final(self).wf(),
            final(self).mock() == old(self).mock(),
            forall|u: Seq<char>| #[trigger] final(self).has_calendar(u) == old(self).has_calendar(u),
            !old(self).has_calendar(cal_url@) ==> r is Err && final(self).calendars() == old(self).calendars(),
    {
        match self.take_calendar(cal_url) {
            None => Err(ErrorKind::NotFound),
            Some((i, c)) => {
                let ghost old_cals = old(self).calendars();
                let mut c = c;
                let r = c.immediately_delete_item(url);
                self.put_back_calendar(i, c);
                proof {
                    lemma_put_back_keeps_urls(old_cals, i as int, c);
                }
                r
            },
        }
    }
}

/// Putting back at its place a calendar with the URL of the one taken out keeps the set of
/// URLs held.
proof fn lemma_put_back_keeps_urls(cals: Seq<CachedCalendar>, i: int, c: CachedCalendar)
    requires
        0 <= i < cals.len(),
        c.info().url == cals[i].info().url,
    ensures
        forall|u: Seq<char>|
            #[trigger] calendars_hold(cals.remove(i).insert(i, c), u) == calendars_hold(cals, u),
{
    let new_cals = cals.remove(i).insert(i, c);
    assert forall|u: Seq<char>|
        #[trigger] calendars_hold(new_cals, u) == calendars_hold(cals, u) by {
        if calendars_hold(cals, u) {
            let k = choose|k: int| 0 <= k < cals.len() && #[trigger] cals[k].info().url == u;
            if k != i {
                assert(new_cals[k] == cals[k]);
            }
            assert(new_cals[k].info().url == u);
        }
        if calendars_hold(new_cals, u) {
            let k = choose|k: int| 0 <= k < new_cals.len() && #[trigger] new_cals[k].info().url == u;
            if k != i {
                assert(new_cals[k] == cals[k]);
            }
            assert(cals[k].info().url == u);
        }
    }
}

/// The item operations of a cache that stands for a remote source, on one of its calendars.
impl Cache {
    /// Take out a calendar and lend it the cache's fault injector, so that it behaves as a
    /// remote calendar.
    fn enter(&mut self, url: &str) -> (r: Option<(usize, CachedCalendar)>)
        requires
            old(self).wf(),
        ensures
            final(self).wf(),
            r is None ==> !old(self).has_calendar(url@) && final(self).calendars() == old(self).calendars(),
            r matches Some((i, c)) ==> {
                &&& c.wf() && c.mock() is Some
                &&& i < old(self).calendars().len()
                &&& c.info() == old(self).calendars()[i as int].info()
                &&& c.items() == old(self).calendars()[i as int].items()
                &&& c.info().url == url@
                &&& final(self).calendars() == old(self).calendars().remove(i as int)
                &&& !final(self).has_calendar(c.info().url)
            },
    {
        match self.take_calendar(url) {
            None => None,
            Some((i, c)) => {
                let mut c = c;
                let m = match self.mock_behaviour {
                    Some(m) => m,
                    None => MockBehaviour::new(),
                };
                c.set_mock_behaviour(Some(m));
                Some((i, c))
            },
        }
    }

    /// Take back the fault injector lent by `enter`, and put the calendar back.
    fn leave(&mut self, i: usize, c: CachedCalendar)
        requires
            old(self).wf(),
            c.wf(),
            c.mock() is Some,
            i <= old(self).calendars().len(),
            !old(self).has_calendar(c.info().url),
        ensures
            final(self).wf(),
            final(self).calendars() == old(self).calendars().insert(i as int, final(self).calendars()[i as int]),
            final(self).calendars()[i as int].info() == c.info(),
            final(self).calendars()[i as int].items() == c.items(),
    {
        let mut c = c;
        if self.mock_behaviour.is_some() {
            self.mock_behaviour = c.mock_behaviour();
        }
        c.set_mock_behaviour(None);
        self.put_back_calendar(i, c);
    }
}

/// After a calendar of a cache is replaced by one with the same attributes, the model of the
/// cache changes in the items of that calendar only.
proof fn lemma_cache_replace(a: Cache, b: Cache, i: int, x: CachedCalendar)
    requires
        a.wf(),
        0 <= i < a.calendars().len(),
        x.info() == a.calendars()[i].info(),
        b.calendars() == a.calendars().update(i, x),
    ensures
        b.calendars_model() == a.calendars_model(),
        a.items_of(x.info().url) == a.calendars()[i].items(),
        b.items_of(x.info().url) == x.items(),
        forall|c: Seq<char>| c != x.info().url ==> #[trigger] b.items_of(c) == a.items_of(c),
{
    let cals = a.calendars();
    lemma_replace_calendar(cals, i, x);
    lemma_calendar_at_index(cals, i);
    assert(b.calendars_model() =~= a.calendars_model()) by {
        assert forall|u: Seq<char>| #[trigger] b.calendars_model().contains_key(u) == a.calendars_model().contains_key(u) by {
            assert(calendars_hold(b.calendars(), u) == calendars_hold(cals, u));
        }
        assert forall|u: Seq<char>| b.calendars_model().contains_key(u) implies #[trigger] b.calendars_model()[u] == a.calendars_model()[u] by {
            if u != x.info().url {
                assert(calendar_at(b.calendars(), u) == calendar_at(cals, u));
            }
        }
    }
    assert forall|c: Seq<char>| c != x.info().url implies #[trigger] b.items_of(c) == a.items_of(c) by {
        assert(calendars_hold(b.calendars(), c) == calendars_hold(cals, c));
        if calendars_hold(cals, c) {
            assert(calendar_at(b.calendars(), c) == calendar_at(cals, c));
        }
    }
}

impl DavSource for Cache {
    open spec fn inv(&self) -> bool {
        self.wf()
    }

    open spec fn calendars_model(&self) -> Map<Seq<char>, CalendarInfoView> {
        Map::new(|u: Seq<char>| self.has_calendar(u), |u: Seq<char>| calendar_at(self.calendars(), u).info())
    }

    open spec fn items_of(&self, cal: Seq<char>) -> Map<Seq<char>, ItemView> {
        if self.has_calendar(cal) {
            calendar_at(self.calendars(), cal).items()
        } else {
            Map::empty()
        }
    }

    fn get_calendars(&mut self) -> (r: Result<Vec<CalendarInfo>, ErrorKind>) {
        if consult(&mut self.mock_behaviour, MockOp::GetCalendars).is_err() {
            assert(self.calendars() == old(self).calendars());
            assert(self.calendars_model() =~= old(self).calendars_model());
            assert forall|c: Seq<char>| #[trigger] self.items_of(c) == old(self).items_of(c) by {}
            return Err(ErrorKind::MockedFailure);
        }
        let v = self.get_calendar_infos();
        proof {
            assert(self.calendars() == old(self).calendars());
            assert forall|c: Seq<char>| #[trigger] self.items_of(c) == old(self).items_of(c) by {}
            assert(self.calendars_model() =~= old(self).calendars_model());
            let m = self.calendars_model();
            assert forall|k: int| 0 <= k < v@.len() implies m.contains_key(#[trigger] v@[k].url@) && m[v@[k].url@] == v@[k]@ by {
                lemma_calendar_at_index(self.calendars(), k);
            }
            assert forall|u: Seq<char>| #[trigger] m.contains_key(u) implies exists|k: int| 0 <= k < v@.len() && v@[k].url@ == u by {
                let k = choose|k: int| 0 <= k < self.calendars().len() && #[trigger] self.calendars()[k].info().url == u;
                assert(v@[k].url@ == u);
            }
        }
        Ok(v)
    }

    fn create_calendar(&mut self, info: &CalendarInfo) -> (r: Result<(), ErrorKind>) {
        let ghost cals = self.calendars();
        let r = Cache::create_calendar(
            self,
            info.url.clone(),
            info.name.clone(),
            info.supported_components,
            info.color,
        );
        proof {
            if r is Ok {
                let x = self.calendars().last();
                assert(self.calendars() =~= cals.push(x));
                lemma_push_calendar(cals, x);
                assert(self.calendars_model() =~= old(self).calendars_model().insert(info.url@, info@));
                assert forall|c: Seq<char>| c != info.url@ implies #[trigger] self.items_of(c) == old(self).items_of(c) by {}
            } else {
                assert(self.calendars_model() =~= old(self).calendars_model());
            }
            assert forall|c: Seq<char>| synced_items(#[trigger] self.items_of(c)) by {
                if r is Ok && c == info.url@ {
                } else {
                    assert(self.items_of(c) == old(self).items_of(c));
                }
            }
        }
        r
    }

    fn get_item_version_tags(&mut self, calendar_url: &str) -> (r: Result<
        Vec<(String, VersionTag)>,
        ErrorKind,
    >) {
        match self.enter(calendar_url) {
            None => {
                proof {
                    lemma_same_calendars(*old(self), *self);
                }
                Err(ErrorKind::NotFound)
            },
            Some((i, c)) => {
                let mut c = c;
                let ghost c0 = c;
                let r = c.get_item_version_tags();
                self.leave(i, c);
                proof {
                    let x = self.calendars()[i as int];
                    assert(self.calendars() =~= old(self).calendars().update(i as int, x));
                    lemma_cache_replace(*old(self), *self, i as int, x);
                    lemma_model_kept(*old(self), *self, calendar_url@);
                }
                r
            },
        }
    }

    fn get_items_by_url(&mut self, calendar_url: &str, urls: &Vec<String>) -> (r: Result<
        Vec<Option<Item>>,
        ErrorKind,
    >) {
        match self.enter(calendar_url) {
            None => {
                proof {
                    lemma_same_calendars(*old(self), *self);
                }
                Err(ErrorKind::NotFound)
            },
            Some((i, c)) => {
                let mut c = c;
                let r = c.get_items_by_url(urls);
                self.leave(i, c);
                proof {
                    let x = self.calendars()[i as int];
                    assert(self.calendars() =~= old(self).calendars().update(i as int, x));
                    lemma_cache_replace(*old(self), *self, i as int, x);
                    lemma_model_kept(*old(self), *self, calendar_url@);
                }
                r
            },
        }
    }

    fn add_item(&mut self, calendar_url: &str, item: Item) -> (r: Result<SyncStatus, ErrorKind>) {
        match self.enter(calendar_url) {
            None => {
                proof {
                    lemma_same_calendars(*old(self), *self);
                }
                Err(ErrorKind::NotFound)
            },
            Some((i, c)) => {
                let mut c = c;
                let ghost iv = item@;
                let r = c.add_item(item);
                self.leave(i, c);
                proof {
                    let x = self.calendars()[i as int];
                    assert(self.calendars() =~= old(self).calendars().update(i as int, x));
                    lemma_cache_replace(*old(self), *self, i as int, x);
                    lemma_stored_synced(*old(self), *self, calendar_url@, iv, r);
                    if r is Err {
                        lemma_model_kept(*old(self), *self, calendar_url@);
                    }
                }
                r
            },
        }
    }

    fn update_item(&mut self, calendar_url: &str, item: Item) -> (r: Result<SyncStatus, ErrorKind>) {
        match self.enter(calendar_url) {
            None => {
                proof {
                    lemma_same_calendars(*old(self), *self);
                }
                Err(ErrorKind::NotFound)
            },
            Some((i, c)) => {
                let mut c = c;
                let ghost iv = item@;
                let r = c.update_item(item);
                self.leave(i, c);
                proof {
                    let x = self.calendars()[i as int];
                    assert(self.calendars() =~= old(self).calendars().update(i as int, x));
                    lemma_cache_replace(*old(self), *self, i as int, x);
                    lemma_stored_synced(*old(self), *self, calendar_url@, iv, r);
                    if r is Err {
                        lemma_model_kept(*old(self), *self, calendar_url@);
                    }
                }
                r
            },
        }
    }

    fn delete_item(&mut self, calendar_url: &str, url: &str) -> (r: Result<(), ErrorKind>) {
        match self.enter(calendar_url) {
            None => {
                proof {
                    lemma_same_calendars(*old(self), *self);
                }
                Err(ErrorKind::NotFound)
            },
            Some((i, c)) => {
                let mut c = c;
                let r = c.delete_item(url);
                self.leave(i, c);
                proof {
                    let x = self.calendars()[i as int];
                    assert(self.calendars() =~= old(self).calendars().update(i as int, x));
                    lemma_cache_replace(*old(self), *self, i as int, x);
                    if r is Err {
                        lemma_model_kept(*old(self), *self, calendar_url@);
                    }
                    assert forall|cc: Seq<char>| synced_items(#[trigger] self.items_of(cc)) by {
                        if cc != calendar_url@ {
                            assert(self.items_of(cc) == old(self).items_of(cc));
                        } else {
                            assert(synced_items(old(self).items_of(cc)));
                        }
                    }
                }
                r
            },
        }
    }
}

/// When the calendars are the same, or differ at most in one calendar whose items are the
/// same, the model is the same.
proof fn lemma_model_kept(a: Cache, b: Cache, cal: Seq<char>)
    requires
        forall|c: Seq<char>| synced_items(#[trigger] a.items_of(c)),
        b.calendars_model() == a.calendars_model(),
        forall|c: Seq<char>| c != cal ==> #[trigger] b.items_of(c) == a.items_of(c),
        b.items_of(cal) == a.items_of(cal),
    ensures
        forall|c: Seq<char>| #[trigger] b.items_of(c) == a.items_of(c),
        forall|c: Seq<char>| synced_items(#[trigger] b.items_of(c)),
{
    assert forall|c: Seq<char>| #[trigger] b.items_of(c) == a.items_of(c) by {
        if c != cal {
        }
    }
}

/// Two caches with the same calendars have the same model.
proof fn lemma_same_calendars(a: Cache, b: Cache)
    requires
        b.calendars() == a.calendars(),
        forall|c: Seq<char>| synced_items(#[trigger] a.items_of(c)),
    ensures
        b.calendars_model() == a.calendars_model(),
        forall|c: Seq<char>| #[trigger] b.items_of(c) == a.items_of(c),
        forall|c: Seq<char>| synced_items(#[trigger] b.items_of(c)),
{
    assert(b.calendars_model() =~= a.calendars_model());
    assert forall|c: Seq<char>| #[trigger] b.items_of(c) == a.items_of(c) by {}
}

/// After an item is stored as a server stores it, the calendars keep `Synced` items under
/// their own URLs.
proof fn lemma_stored_synced(a: Cache, b: Cache, cal: Seq<char>, iv: ItemView, r: Result<SyncStatus, ErrorKind>)
    requires
        forall|c: Seq<char>| synced_items(#[trigger] a.items_of(c)),
        forall|c: Seq<char>| c != cal ==> #[trigger] b.items_of(c) == a.items_of(c),
        r is Err ==> b.items_of(cal) == a.items_of(cal),
        r matches Ok(s) ==> s@ is Synced && b.items_of(cal) == a.items_of(cal).insert(iv.url(), iv.with_sync_status(s@)),
    ensures
        forall|c: Seq<char>| synced_items(#[trigger] b.items_of(c)),
{
    assert forall|c: Seq<char>| synced_items(#[trigger] b.items_of(c)) by {
        if c != cal {
            assert(b.items_of(c) == a.items_of(c));
        } else {
            assert(synced_items(a.items_of(c)));
            if r is Ok {
                let s = r->Ok_0;
                crate::provider::sync_pair::lemma_status_twice(iv, s@, s@);
            }
        }
    }
}

} // verus!
