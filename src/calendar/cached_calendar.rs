//! The local calendar: full knowledge of its items, kept in memory.
//!
//! With a [`MockBehaviour`] attached it also stands for a remote calendar in tests: it then
//! behaves as a server does, forcing a `Synced` status on what it stores and failing the
//! operations that the behaviour says should fail.

use vstd::prelude::*;
use vstd::string::StringExecFns;

use crate::calendar::{CalendarInfo, CalendarInfoView, Color, SupportedComponents};
use crate::error::ErrorKind;
use crate::item::{Item, ItemView, SyncStatus, SyncStatusView, VersionTag};
use crate::mock_behaviour::{consult, mock_after, mock_allows, MockBehaviour, MockOp};

verus! {

/// Whether a list of items holds each URL at most once.
pub open spec fn urls_distinct(s: Seq<ItemView>) -> bool {
    forall|i: int, j: int|
        0 <= i < s.len() && 0 <= j < s.len() && i != j ==> #[trigger] s[i].url() != #[trigger] s[j].url()
}

/// The items of a calendar after `mark_for_deletion` of a present URL: an item never synced is
/// removed; any other becomes a tombstone at its last known tag.
pub open spec fn marked_for_deletion(
    m: Map<Seq<char>, ItemView>,
    url: Seq<char>,
) -> Map<Seq<char>, ItemView> {
    if m[url].sync_status() is NotSynced {
        m.remove(url)
    } else {
        m.insert(url, m[url].with_sync_status(m[url].sync_status().after_deletion()))
    }
}

/// A calendar whose items are all known locally.
pub struct CachedCalendar {
    name: String,
    url: String,
    supported_components: SupportedComponents,
    color: Option<Color>,
    mock_behaviour: Option<MockBehaviour>,
    items: Vec<Item>,
    model: Ghost<Map<Seq<char>, ItemView>>,
}

impl CachedCalendar {
    closed spec fn item_views(&self) -> Seq<ItemView> {
        self.items@.map_values(|i: Item| i@)
    }

    /// The items, by URL.
    pub closed spec fn items(&self) -> Map<Seq<char>, ItemView> {
        self.model@
    }

    /// The calendar's attributes.
    pub closed spec fn info(&self) -> CalendarInfoView {
        CalendarInfoView {
            url: self.url@,
            name: self.name@,
            supported_components: self.supported_components,
            color: self.color,
        }
    }

    /// The fault injector attached, when the calendar stands for a remote one.
    pub closed spec fn mock(&self) -> Option<MockBehaviour> {
        self.mock_behaviour
    }

    /// The item list and the map agree, and no URL is held twice.
    pub closed spec fn wf(&self) -> bool {
        let s = self.item_views();
        &&& forall|i: int|
            0 <= i < s.len() ==> #[trigger] self.model@.contains_key(s[i].url())
                && self.model@[s[i].url()] == s[i]
        &&& forall|u: Seq<char>| #[trigger]
            self.model@.contains_key(u) ==> exists|i: int| 0 <= i < s.len() && s[i].url() == u
        &&& urls_distinct(s)
    }

    /// Each stored item is kept under its own URL.
    pub proof fn lemma_keys_are_urls(&self)
        requires
            self.wf(),
        ensures
            forall|u: Seq<char>| #[trigger]
                self.items().contains_key(u) ==> self.items()[u].url() == u,
    {
        assert forall|u: Seq<char>| #[trigger] self.items().contains_key(u) implies self.items()[
            u
        ].url() == u by {
            let i = choose|i: int| 0 <= i < self.item_views().len() && self.item_views()[i].url() == u;
            assert(self.model@[self.item_views()[i].url()] == self.item_views()[i]);
        }
    }

    /// An empty calendar.
    pub fn new(
        name: String,
        url: String,
        supported_components: SupportedComponents,
        color: Option<Color>,
    ) -> (r: Self)
        ensures
            r.wf(),
            r.items() == Map::<Seq<char>, ItemView>::empty(),
            r.info() == (CalendarInfoView {
                url: url@,
                name: name@,
                supported_components,
                color,
            }),
            r.mock() is None,
    {
        let r = CachedCalendar {
            name,
            url,
            supported_components,
            color,
            mock_behaviour: None,
            items: Vec::new(),
            model: Ghost(Map::empty()),
        };
        assert(r.item_views() =~= Seq::<ItemView>::empty());
        r
    }

    /// Attach a fault injector: the calendar then behaves as a remote one.
    pub fn set_mock_behaviour(&mut self, mock_behaviour: Option<MockBehaviour>)
        requires
            old(self).wf(),
        ensures
            final(self).wf(),
            final(self).items() == old(self).items(),
            final(self).info() == old(self).info(),
            final(self).mock() == mock_behaviour,
    {
        self.mock_behaviour = mock_behaviour;
        assert(self.item_views() == old(self).item_views());
    }

    /// The fault injector attached, if any.
    pub fn mock_behaviour(&self) -> (r: Option<MockBehaviour>)
        ensures
            r == self.mock(),
    {
        self.mock_behaviour
    }

    pub fn name(&self) -> (r: &str)
        ensures
            r@ == self.info().name,
    {
        self.name.as_str()
    }

    pub fn url(&self) -> (r: &str)
        ensures
            r@ == self.info().url,
    {
        self.url.as_str()
    }

    pub fn supported_components(&self) -> (r: SupportedComponents)
        ensures
            r == self.info().supported_components,
    {
        self.supported_components
    }

    pub fn color(&self) -> (r: Option<&Color>)
        ensures
            r matches Some(c) ==> self.info().color == Some(*c),
            r is None ==> self.info().color is None,
    {
        match &self.color {
            Some(c) => Some(c),
            None => None,
        }
    }

    pub fn supports_todo(&self) -> (r: bool)
        ensures
            r == (self.info().supported_components.bits & 2 == 2),
    {
        self.supported_components.supports_todo()
    }

    pub fn supports_events(&self) -> (r: bool)
        ensures
            r == (self.info().supported_components.bits & 1 == 1),
    {
        self.supported_components.supports_events()
    }

    /// The calendar's attributes, without its items.
    pub fn info_value(&self) -> (r: CalendarInfo)
        ensures
            r@ == self.info(),
    {
        CalendarInfo {
            url: self.url.clone(),
            name: self.name.clone(),
            supported_components: self.supported_components,
            color: self.color,
        }
    }

    /// Where the item with this URL stands in the list, if it is there.
    fn position(&self, url: &String) -> (r: Option<usize>)
        requires
            self.wf(),
        ensures
            r matches Some(i) ==> i < self.items@.len() && self.items@[i as int]@.url() == url@
                && self.items().contains_key(url@) && self.items()[url@] == self.items@[i as int]@,
            r is None ==> !self.items().contains_key(url@),
    {
        let mut i: usize = 0;
        while i < self.items.len()
            invariant
                self.wf(),
                i <= self.items@.len(),
                forall|j: int| 0 <= j < i ==> #[trigger] self.items@[j]@.url() != url@,
            decreases self.items@.len() - i,
        {
            if *self.items[i].url_string() == *url {
                assert(self.item_views()[i as int] == self.items@[i as int]@);
                assert(self.model@.contains_key(self.item_views()[i as int].url()));
                return Some(i);
            }
            i = i + 1;
        }
        proof {
            if self.items().contains_key(url@) {
                let k = choose|k: int|
                    0 <= k < self.item_views().len() && self.item_views()[k].url() == url@;
                assert(self.item_views()[k] == self.items@[k]@);
            }
        }
        None
    }

    /// The URLs of all items, each once.
    pub fn get_item_urls(&self) -> (r: Vec<String>)
        requires
            self.wf(),
        ensures
            r@.len() == self.items().len(),
            forall|i: int| 0 <= i < r@.len() ==> self.items().contains_key(#[trigger] r@[i]@),
            forall|u: Seq<char>| #[trigger]
                self.items().contains_key(u) ==> exists|i: int| 0 <= i < r@.len() && r@[i]@ == u,
            forall|i: int, j: int|
                0 <= i < r@.len() && 0 <= j < r@.len() && i != j ==> #[trigger] r@[i]@ != #[trigger] r@[j]@,
    {
        let mut out: Vec<String> = Vec::new();
        let mut i: usize = 0;
        while i < self.items.len()
            invariant
                self.wf(),
                i <= self.items@.len(),
                out@.len() == i,
                forall|j: int| 0 <= j < i ==> #[trigger] out@[j]@ == self.item_views()[j].url(),
            decreases self.items@.len() - i,
        {
            out.push(self.items[i].url_string().clone());
            i = i + 1;
        }
        proof {
            let s = self.item_views();
            assert forall|u: Seq<char>| #[trigger] self.items().contains_key(u) implies exists|
                i: int,
            | 0 <= i < out@.len() && out@[i]@ == u by {
                let k = choose|k: int| 0 <= k < s.len() && s[k].url() == u;
                assert(out@[k]@ == u);
            }
            assert forall|i: int| 0 <= i < out@.len() implies self.items().contains_key(
                #[trigger] out@[i]@,
            ) by {
                assert(self.model@.contains_key(s[i].url()));
            }
            let urls = Seq::new(s.len(), |i: int| s[i].url());
            assert forall|x: Seq<char>| #[trigger] urls.to_set().contains(x) <==> self.items().dom().contains(x) by {
                if urls.to_set().contains(x) {
                    let k = choose|k: int| 0 <= k < urls.len() && urls[k] == x;
                    assert(self.model@.contains_key(s[k].url()));
                }
                if self.items().dom().contains(x) {
                    let k = choose|k: int| 0 <= k < s.len() && s[k].url() == x;
                    assert(urls[k] == x);
                }
            }
            assert(urls.to_set() =~= self.items().dom());
            assert(urls.no_duplicates());
            urls.unique_seq_to_set();
        }
        out
    }

    /// The items, in storage order.
    pub fn get_items(&self) -> (r: &[Item])
        requires
            self.wf(),
        ensures
            r@.len() == self.items().len(),
            forall|i: int| 0 <= i < r@.len() ==> self.items().contains_key(#[trigger] r@[i]@.url())
                && self.items()[r@[i]@.url()] == r@[i]@,
            forall|u: Seq<char>| #[trigger]
                self.items().contains_key(u) ==> exists|i: int| 0 <= i < r@.len() && r@[i]@.url() == u,
            forall|i: int, j: int|
                0 <= i < r@.len() && 0 <= j < r@.len() && i != j ==> #[trigger] r@[i]@.url()
                    != #[trigger] r@[j]@.url(),
    {
        proof {
            let s = self.item_views();
            let urls = Seq::new(s.len(), |i: int| s[i].url());
            assert forall|x: Seq<char>| #[trigger] urls.to_set().contains(x) <==> self.items().dom().contains(x) by {
                if urls.to_set().contains(x) {
                    let k = choose|k: int| 0 <= k < urls.len() && urls[k] == x;
                    assert(self.model@.contains_key(s[k].url()));
                }
                if self.items().dom().contains(x) {
                    let k = choose|k: int| 0 <= k < s.len() && s[k].url() == x;
                    assert(urls[k] == x);
                }
            }
            assert(urls.to_set() =~= self.items().dom());
            assert(urls.no_duplicates());
            urls.unique_seq_to_set();
            assert forall|i: int| 0 <= i < self.items@.len() implies self.items().contains_key(
                #[trigger] self.items@[i]@.url(),
            ) && self.items()[self.items@[i]@.url()] == self.items@[i]@ by {
                assert(s[i] == self.items@[i]@);
            }
            assert forall|u: Seq<char>| #[trigger] self.items().contains_key(u) implies exists|
                i: int,
            | 0 <= i < self.items@.len() && self.items@[i]@.url() == u by {
                let k = choose|k: int| 0 <= k < s.len() && s[k].url() == u;
                assert(s[k] == self.items@[k]@);
            }
            assert forall|i: int, j: int|
                0 <= i < self.items@.len() && 0 <= j < self.items@.len() && i != j implies #[trigger] self.items@[i]@.url()
                != #[trigger] self.items@[j]@.url() by {
                assert(s[i] == self.items@[i]@);
                assert(s[j] == self.items@[j]@);
            }
        }
        self.items.as_slice()
    }

    /// The item with this URL.
    pub fn get_item_by_url(&self, url: &str) -> (r: Option<&Item>)
        requires
            self.wf(),
        ensures
            r matches Some(it) ==> self.items().contains_key(url@) && it@ == self.items()[url@],
            r is None ==> !self.items().contains_key(url@),
    {
        let key = String::from_str(url);
        match self.position(&key) {
            Some(i) => Some(&self.items[i]),
            None => None,
        }
    }

    /// Store an item under a URL that is not there yet.
    fn push_new(&mut self, item: Item)
        requires
            old(self).wf(),
            !old(self).items().contains_key(item@.url()),
        ensures
            final(self).wf(),
            final(self).items() == old(self).items().insert(item@.url(), item@),
            final(self).info() == old(self).info(),
            final(self).mock() == old(self).mock(),
    {
        let ghost u = item@.url();
        let ghost iv = item@;
        let ghost s0 = self.item_views();
        self.items.push(item);
        self.model = Ghost(self.model@.insert(u, iv));
        proof {
            let s = self.item_views();
            assert(s =~= s0.push(iv));
            assert forall|i: int| 0 <= i < s.len() implies #[trigger] self.model@.contains_key(
                s[i].url(),
            ) && self.model@[s[i].url()] == s[i] by {
                if i < s0.len() {
                    assert(old(self).model@.contains_key(s0[i].url()));
                }
            }
            assert forall|k: Seq<char>| #[trigger] self.model@.contains_key(k) implies exists|
                i: int,
            | 0 <= i < s.len() && s[i].url() == k by {
                if k == u {
                    assert(s[s0.len() as int].url() == k);
                } else {
                    assert(old(self).model@.contains_key(k));
                    let j = choose|j: int| 0 <= j < s0.len() && s0[j].url() == k;
                    assert(s[j].url() == k);
                }
            }
            assert forall|i: int, j: int|
                0 <= i < s.len() && 0 <= j < s.len() && i != j implies #[trigger] s[i].url()
                != #[trigger] s[j].url() by {
                if i < s0.len() {
                    assert(old(self).model@.contains_key(s0[i].url()));
                }
                if j < s0.len() {
                    assert(old(self).model@.contains_key(s0[j].url()));
                }
            }
        }
    }

    /// Replace the item at a position by one with the same URL.
    fn replace_at(&mut self, i: usize, item: Item)
        requires
            old(self).wf(),
            i < old(self).items@.len(),
            old(self).items@[i as int]@.url() == item@.url(),
        ensures
            final(self).wf(),
            final(self).items() == old(self).items().insert(item@.url(), item@),
            final(self).info() == old(self).info(),
            final(self).mock() == old(self).mock(),
    {
        let ghost u = item@.url();
        let ghost iv = item@;
        let ghost s0 = self.item_views();
        self.items[i] = item;
        self.model = Ghost(self.model@.insert(u, iv));
        proof {
            let s = self.item_views();
            assert(s =~= s0.update(i as int, iv));
            assert(s0[i as int].url() == u);
            assert forall|j: int| 0 <= j < s.len() implies #[trigger] self.model@.contains_key(
                s[j].url(),
            ) && self.model@[s[j].url()] == s[j] by {
                assert(old(self).model@.contains_key(s0[j].url()));
            }
            assert forall|k: Seq<char>| #[trigger] self.model@.contains_key(k) implies exists|
                j: int,
            | 0 <= j < s.len() && s[j].url() == k by {
                if k == u {
                    assert(s[i as int].url() == k);
                } else {
                    assert(old(self).model@.contains_key(k));
                    let j = choose|j: int| 0 <= j < s0.len() && s0[j].url() == k;
                    assert(s[j].url() == k);
                }
            }
            assert forall|a: int, b: int|
                0 <= a < s.len() && 0 <= b < s.len() && a != b implies #[trigger] s[a].url()
                != #[trigger] s[b].url() by {
                assert(s0[a].url() != s0[b].url());
            }
        }
    }

    /// Remove the item at a position.
    fn remove_at(&mut self, i: usize)
        requires
            old(self).wf(),
            i < old(self).items@.len(),
        ensures
            final(self).wf(),
            final(self).items() == old(self).items().remove(old(self).items@[i as int]@.url()),
            final(self).info() == old(self).info(),
            final(self).mock() == old(self).mock(),
    {
        let ghost s0 = self.item_views();
        let ghost u = s0[i as int].url();
        assert(s0[i as int] == self.items@[i as int]@);
        self.items.remove(i);
        self.model = Ghost(self.model@.remove(u));
        proof {
            let s = self.item_views();
            assert(s =~= s0.remove(i as int));
            assert forall|j: int| 0 <= j < s.len() implies #[trigger] self.model@.contains_key(
                s[j].url(),
            ) && self.model@[s[j].url()] == s[j] by {
                if j < i {
                    assert(old(self).model@.contains_key(s0[j].url()));
                    assert(s0[j].url() != s0[i as int].url());
                } else {
                    assert(old(self).model@.contains_key(s0[j + 1].url()));
                    assert(s0[j + 1].url() != s0[i as int].url());
                }
            }
            assert forall|k: Seq<char>| #[trigger] self.model@.contains_key(k) implies exists|
                j: int,
            | 0 <= j < s.len() && s[j].url() == k by {
                assert(old(self).model@.contains_key(k));
                let j = choose|j: int| 0 <= j < s0.len() && s0[j].url() == k;
                assert(j != i);
                if j < i {
                    assert(s[j].url() == k);
                } else {
                    assert(s[j - 1].url() == k);
                }
            }
            assert forall|a: int, b: int|
                0 <= a < s.len() && 0 <= b < s.len() && a != b implies #[trigger] s[a].url()
                != #[trigger] s[b].url() by {
                let a0 = if a < i { a } else { a + 1 };
                let b0 = if b < i { b } else { b + 1 };
                assert(s[a] == s0[a0]);
                assert(s[b] == s0[b0]);
                assert(s0[a0].url() != s0[b0].url());
            }
        }
    }

    /// Add an item; fails with `Duplicate` when its URL is taken. A local calendar keeps the
    /// item as it is and returns its status. A calendar that stands for a remote one first
    /// consults its fault injector, then stores the item as `Synced` and returns that status.
    pub fn add_item(&mut self, item: Item) -> (r: Result<SyncStatus, ErrorKind>)
        requires
            old(self).wf(),
        ensures
            final(self).wf(),
            final(self).info() == old(self).info(),
            old(self).items().contains_key(item@.url()) ==> r == Err::<SyncStatus, ErrorKind>(
                ErrorKind::Duplicate,
            ) && final(self).items() == old(self).items() && final(self).mock() == old(self).mock(),
            !old(self).items().contains_key(item@.url()) ==> stored_or_refused(
                *old(self),
                *final(self),
                item@,
                r,
                MockOp::AddItem,
            ),
    {
        let key = item.url_string().clone();
        if self.position(&key).is_some() {
            return Err(ErrorKind::Duplicate);
        }
        match self.store_status(item, MockOp::AddItem) {
            Err(e) => Err(e),
            Ok((item, status)) => {
                self.push_new(item);
                Ok(status)
            },
        }
    }

    /// Replace the item with the same URL; fails with `NotFound` when there is none. A
    /// calendar that stands for a remote one consults its fault injector first and stores the
    /// item as `Synced`.
    pub fn update_item(&mut self, item: Item) -> (r: Result<SyncStatus, ErrorKind>)
        requires
            old(self).wf(),
        ensures
            final(self).wf(),
            final(self).info() == old(self).info(),
            !old(self).items().contains_key(item@.url()) ==> r == Err::<SyncStatus, ErrorKind>(
                ErrorKind::NotFound,
            ) && final(self).items() == old(self).items() && final(self).mock() == old(self).mock(),
            old(self).items().contains_key(item@.url()) ==> stored_or_refused(
                *old(self),
                *final(self),
                item@,
                r,
                MockOp::UpdateItem,
            ),
    {
        let key = item.url_string().clone();
        let i = match self.position(&key) {
            None => return Err(ErrorKind::NotFound),
            Some(i) => i,
        };
        match self.store_status(item, MockOp::UpdateItem) {
            Err(e) => Err(e),
            Ok((item, status)) => {
                self.replace_at(i, item);
                Ok(status)
            },
        }
    }

    /// The item as it is to be stored, and the status to return: the item itself on a local
    /// calendar; on one that stands for a remote calendar, after consulting the fault
    /// injector, the item forced to `Synced`.
    fn store_status(&mut self, item: Item, op: MockOp) -> (r: Result<(Item, SyncStatus), ErrorKind>)
        requires
            old(self).wf(),
        ensures
            final(self).wf(),
            final(self).items() == old(self).items(),
            final(self).items@ == old(self).items@,
            final(self).info() == old(self).info(),
            final(self).mock() == mock_after(old(self).mock(), op),
            r is Ok <==> mock_allows(old(self).mock(), op),
            r is Err ==> r == Err::<(Item, SyncStatus), ErrorKind>(ErrorKind::MockedFailure),
            r matches Ok((it, s)) ==> {
                &&& it@ == item@.with_sync_status(s@)
                &&& (old(self).mock() is None ==> s@ == item@.sync_status())
                &&& (old(self).mock() is Some ==> s@ is Synced)
                &&& (item@.sync_status() is Synced ==> s@ == item@.sync_status())
            },
    {
        let ghost s0 = self.item_views();
        let res = consult(&mut self.mock_behaviour, op);
        assert(self.item_views() == s0);
        if res.is_err() {
            return Err(ErrorKind::MockedFailure);
        }
        let mut item = item;
        if self.mock_behaviour.is_some() {
            if !matches!(item.sync_status(), SyncStatus::Synced(_)) {
                item.set_sync_status(SyncStatus::random_synced());
            }
        }
        let status = item.sync_status().clone();
        proof {
            lemma_with_own_status(item@);
        }
        Ok((item, status))
    }

    /// Mark an item for deletion, so that the next sync deletes it on the server too. An item
    /// that was never synced is removed at once; any other becomes a tombstone at its last
    /// known tag. Fails with `NotFound` when the URL is absent.
    pub fn mark_for_deletion(&mut self, url: &str) -> (r: Result<(), ErrorKind>)
        requires
            old(self).wf(),
        ensures
            final(self).wf(),
            final(self).info() == old(self).info(),
            final(self).mock() == old(self).mock(),
            !old(self).items().contains_key(url@) ==> r == Err::<(), ErrorKind>(
                ErrorKind::NotFound,
            ) && final(self).items() == old(self).items(),
            old(self).items().contains_key(url@) ==> r is Ok && final(self).items()
                == marked_for_deletion(old(self).items(), url@),
    {
        let key = String::from_str(url);
        let i = match self.position(&key) {
            None => return Err(ErrorKind::NotFound),
            Some(i) => i,
        };
        let next = match self.items[i].sync_status() {
            SyncStatus::NotSynced => None,
            SyncStatus::Synced(v) => Some(SyncStatus::LocallyDeleted(v.clone())),
            SyncStatus::LocallyModified(v) => Some(SyncStatus::LocallyDeleted(v.clone())),
            SyncStatus::LocallyDeleted(v) => Some(SyncStatus::LocallyDeleted(v.clone())),
        };
        match next {
            None => {
                self.remove_at(i);
            },
            Some(status) => {
                let mut item = self.items[i].clone();
                item.set_sync_status(status);
                self.replace_at(i, item);
            },
        }
        Ok(())
    }

    /// Remove an item outright; fails with `NotFound` when the URL is absent.
    pub fn immediately_delete_item(&mut self, url: &str) -> (r: Result<(), ErrorKind>)
        requires
            old(self).wf(),
        ensures
            final(self).wf(),
            final(self).info() == old(self).info(),
            final(self).mock() == old(self).mock(),
            !old(self).items().contains_key(url@) ==> r == Err::<(), ErrorKind>(
                ErrorKind::NotFound,
            ) && final(self).items() == old(self).items(),
            old(self).items().contains_key(url@) ==> r is Ok && final(self).items() == old(self).items().remove(url@),
    {
        let key = String::from_str(url);
        match self.position(&key) {
            None => Err(ErrorKind::NotFound),
            Some(i) => {
                self.remove_at(i);
                Ok(())
            },
        }
    }

    /// Replace the sync status of an item; fails with `NotFound` when the URL is absent.
    pub fn set_item_sync_status(&mut self, url: &str, status: SyncStatus) -> (r: Result<
        (),
        ErrorKind,
    >)
        requires
            old(self).wf(),
        ensures
            final(self).wf(),
            final(self).info() == old(self).info(),
            final(self).mock() == old(self).mock(),
            !old(self).items().contains_key(url@) ==> r == Err::<(), ErrorKind>(
                ErrorKind::NotFound,
            ) && final(self).items() == old(self).items(),
            old(self).items().contains_key(url@) ==> r is Ok && final(self).items() == old(self).items().insert(url@, old(self).items()[url@].with_sync_status(status@)),
    {
        let key = String::from_str(url);
        match self.position(&key) {
            None => Err(ErrorKind::NotFound),
            Some(i) => {
                let mut item = self.items[i].clone();
                item.set_sync_status(status);
                self.replace_at(i, item);
                Ok(())
            },
        }
    }

    /// Whether both calendars show the same thing to a user (see [`same_observable_content`]).
    pub fn has_same_observable_content_as(&self, other: &CachedCalendar) -> (r: bool)
        requires
            self.wf(),
            other.wf(),
        ensures
            r == same_observable_content(*self, *other),
    {
        if !(self.name == other.name && self.url == other.url && self.supported_components
            == other.supported_components && self.color == other.color) {
            return false;
        }
        let mine = self.get_items();
        let mut i: usize = 0;
        while i < mine.len()
            invariant
                self.wf(),
                other.wf(),
                i <= mine@.len(),
                mine@.len() == self.items().len(),
                forall|a: int| 0 <= a < mine@.len() ==> self.items().contains_key(#[trigger] mine@[a]@.url())
                    && self.items()[mine@[a]@.url()] == mine@[a]@,
                forall|u: Seq<char>| #[trigger]
                    self.items().contains_key(u) ==> exists|a: int| 0 <= a < mine@.len() && mine@[a]@.url() == u,
                forall|a: int| 0 <= a < i ==> other.items().contains_key(#[trigger] mine@[a]@.url())
                    && mine@[a]@.same_observable_content(other.items()[mine@[a]@.url()]),
            decreases mine@.len() - i,
        {
            match other.get_item_by_url(mine[i].url()) {
                None => {
                    proof {
                        assert(self.items().contains_key(mine@[i as int]@.url()));
                    }
                    return false;
                },
                Some(o) => {
                    if !mine[i].has_same_observable_content_as(o) {
                        proof {
                            self.lemma_keys_are_urls();
                        }
                        return false;
                    }
                },
            }
            i = i + 1;
        }
        let theirs = other.get_items();
        let mut k: usize = 0;
        while k < theirs.len()
            invariant
                self.wf(),
                other.wf(),
                k <= theirs@.len(),
                forall|a: int| 0 <= a < theirs@.len() ==> other.items().contains_key(#[trigger] theirs@[a]@.url()),
                forall|u: Seq<char>| #[trigger]
                    other.items().contains_key(u) ==> exists|a: int| 0 <= a < theirs@.len() && theirs@[a]@.url() == u,
                forall|a: int| 0 <= a < k ==> self.items().contains_key(#[trigger] theirs@[a]@.url()),
            decreases theirs@.len() - k,
        {
            if self.get_item_by_url(theirs[k].url()).is_none() {
                return false;
            }
            k = k + 1;
        }
        proof {
            assert forall|u: Seq<char>| #[trigger] self.items().contains_key(u) <==> other.items().contains_key(u) by {
                if self.items().contains_key(u) {
                    let a = choose|a: int| 0 <= a < mine@.len() && mine@[a]@.url() == u;
                }
                if other.items().contains_key(u) {
                    let a = choose|a: int| 0 <= a < theirs@.len() && theirs@[a]@.url() == u;
                }
            }
            assert forall|u: Seq<char>| #[trigger] self.items().contains_key(u) implies self.items()[u].same_observable_content(other.items()[u]) by {
                let a = choose|a: int| 0 <= a < mine@.len() && mine@[a]@.url() == u;
            }
        }
        true
    }

    /// The URL and tag of every item whose status carries a tag, as a server lists them.
    /// A calendar that stands for a remote one consults its fault injector first.
    pub fn get_item_version_tags(&mut self) -> (r: Result<Vec<(String, VersionTag)>, ErrorKind>)
        requires
            old(self).wf(),
        ensures
            final(self).wf(),
            final(self).items() == old(self).items(),
            final(self).info() == old(self).info(),
            final(self).mock() == mock_after(old(self).mock(), MockOp::GetItemVersionTags),
            r is Ok <==> mock_allows(old(self).mock(), MockOp::GetItemVersionTags),
            r is Err ==> r == Err::<Vec<(String, VersionTag)>, ErrorKind>(
                ErrorKind::MockedFailure,
            ),
            r matches Ok(v) ==> lists_tags_of(v@, old(self).items()),
    {
        let ghost s0 = self.item_views();
        if consult(&mut self.mock_behaviour, MockOp::GetItemVersionTags).is_err() {
            assert(self.item_views() == s0);
            return Err(ErrorKind::MockedFailure);
        }
        assert(self.item_views() == s0);
        let mut out: Vec<(String, VersionTag)> = Vec::new();
        let mut i: usize = 0;
        while i < self.items.len()
            invariant
                self.wf(),
                i <= self.items@.len(),
                s0 == self.item_views(),
                tag_urls_distinct(out@),
                forall|k: int|
                    0 <= k < out@.len() ==> exists|j: int|
                        0 <= j < i && #[trigger] out@[k].0@ == s0[j].url()
                            && s0[j].sync_status().tag() == Some(out@[k].1@),
                forall|j: int|
                    0 <= j < i && (#[trigger] s0[j]).sync_status().tag() is Some ==> exists|k: int|
                        0 <= k < out@.len() && out@[k].0@ == s0[j].url(),
            decreases self.items@.len() - i,
        {
            assert(s0[i as int] == self.items@[i as int]@);
            match tag_of(self.items[i].sync_status()) {
                None => {},
                Some(v) => {
                    let ghost out0 = out@;
                    out.push((self.items[i].url_string().clone(), v.clone()));
                    proof {
                        assert forall|a: int, b: int|
                            0 <= a < out@.len() && 0 <= b < out@.len() && a != b implies #[trigger] out@[a].0@
                            != #[trigger] out@[b].0@ by {
                            if a < out0.len() && b == out0.len() {
                                let j = choose|j: int| 0 <= j < i && out0[a].0@ == s0[j].url()
                                    && s0[j].sync_status().tag() == Some(out0[a].1@);
                                assert(s0[j].url() != s0[i as int].url());
                            }
                            if b < out0.len() && a == out0.len() {
                                let j = choose|j: int| 0 <= j < i && out0[b].0@ == s0[j].url()
                                    && s0[j].sync_status().tag() == Some(out0[b].1@);
                                assert(s0[j].url() != s0[i as int].url());
                            }
                        }
                        assert forall|k: int| 0 <= k < out@.len() implies exists|j: int|
                            0 <= j < i + 1 && #[trigger] out@[k].0@ == s0[j].url()
                                && s0[j].sync_status().tag() == Some(out@[k].1@) by {
                            if k < out0.len() {
                                let j = choose|j: int| 0 <= j < i && out0[k].0@ == s0[j].url()
                                    && s0[j].sync_status().tag() == Some(out0[k].1@);
                                assert(out@[k] == out0[k]);
                            } else {
                                assert(out@[k].0@ == s0[i as int].url());
                            }
                        }
                        assert forall|j: int|
                            0 <= j < i + 1 && (#[trigger] s0[j]).sync_status().tag() is Some implies exists|k: int|
                                0 <= k < out@.len() && out@[k].0@ == s0[j].url() by {
                            if j < i {
                                let k = choose|k: int| 0 <= k < out0.len() && out0[k].0@ == s0[j].url();
                                assert(out@[k] == out0[k]);
                            } else {
                                assert(out@[out0.len() as int].0@ == s0[j].url());
                            }
                        }
                    }
                },
            }
            i = i + 1;
        }
        proof {
            assert forall|k: int| 0 <= k < out@.len() implies self.items().contains_key(
                #[trigger] out@[k].0@,
            ) && self.items()[out@[k].0@].sync_status().tag() == Some(out@[k].1@) by {
                let j = choose|j: int| 0 <= j < s0.len() && out@[k].0@ == s0[j].url()
                    && s0[j].sync_status().tag() == Some(out@[k].1@);
                assert(self.model@.contains_key(s0[j].url()));
            }
            assert forall|u: Seq<char>| #[trigger]
                self.items().contains_key(u) && self.items()[u].sync_status().tag() is Some implies exists|k: int|
                    0 <= k < out@.len() && out@[k].0@ == u by {
                let j = choose|j: int| 0 <= j < s0.len() && s0[j].url() == u;
                assert(self.model@.contains_key(s0[j].url()));
                assert(s0[j].sync_status().tag() is Some);
            }
        }
        Ok(out)
    }

    /// Fetch a batch of items by URL, in the order requested, `None` where there is none.
    /// A calendar that stands for a remote one consults its fault injector first.
    pub fn get_items_by_url(&mut self, urls: &Vec<String>) -> (r: Result<Vec<Option<Item>>, ErrorKind>)
        requires
            old(self).wf(),
        ensures
            final(self).wf(),
            final(self).items() == old(self).items(),
            final(self).info() == old(self).info(),
            final(self).mock() == mock_after(old(self).mock(), MockOp::GetItemById),
            r is Ok <==> mock_allows(old(self).mock(), MockOp::GetItemById),
            r is Err ==> r == Err::<Vec<Option<Item>>, ErrorKind>(ErrorKind::MockedFailure),
            r matches Ok(v) ==> fetched_as_requested(v@, urls@, old(self).items()),
    {
        let ghost s0 = self.item_views();
        if consult(&mut self.mock_behaviour, MockOp::GetItemById).is_err() {
            assert(self.item_views() == s0);
            return Err(ErrorKind::MockedFailure);
        }
        assert(self.item_views() == s0);
        let mut out: Vec<Option<Item>> = Vec::new();
        let mut i: usize = 0;
        while i < urls.len()
            invariant
                self.wf(),
                i <= urls@.len(),
                out@.len() == i,
                forall|k: int|
                    0 <= k < i ==> (#[trigger] out@[k] is Some <==> self.items().contains_key(
                        urls@[k]@,
                    )),
                forall|k: int|
                    0 <= k < i ==> (#[trigger] out@[k] matches Some(it) ==> it@ == self.items()[urls@[k]@]),
            decreases urls@.len() - i,
        {
            let found = match self.position(&urls[i]) {
                Some(j) => Some(self.items[j].clone()),
                None => None,
            };
            out.push(found);
            i = i + 1;
        }
        Ok(out)
    }

    /// Delete an item as a server does. A calendar that stands for a remote one consults its
    /// fault injector first; fails with `NotFound` when the URL is absent.
    pub fn delete_item(&mut self, url: &str) -> (r: Result<(), ErrorKind>)
        requires
            old(self).wf(),
        ensures
            final(self).wf(),
            final(self).info() == old(self).info(),
            final(self).mock() == mock_after(old(self).mock(), MockOp::DeleteItem),
            !mock_allows(old(self).mock(), MockOp::DeleteItem) ==> r == Err::<(), ErrorKind>(
                ErrorKind::MockedFailure,
            ) && final(self).items() == old(self).items(),
            mock_allows(old(self).mock(), MockOp::DeleteItem) && !old(self).items().contains_key(
                url@,
            ) ==> r == Err::<(), ErrorKind>(ErrorKind::NotFound) && final(self).items() == old(self).items(),
            mock_allows(old(self).mock(), MockOp::DeleteItem) && old(self).items().contains_key(
                url@,
            ) ==> r is Ok && final(self).items() == old(self).items().remove(url@),
    {
        let ghost s0 = self.item_views();
        if consult(&mut self.mock_behaviour, MockOp::DeleteItem).is_err() {
            assert(self.item_views() == s0);
            return Err(ErrorKind::MockedFailure);
        }
        assert(self.item_views() == s0);
        self.immediately_delete_item(url)
    }
}



/// Two calendars show the same thing to a user: the same attributes, items at the same URLs,
/// and at each URL items with the same observable content.
pub open spec fn same_observable_content(a: CachedCalendar, b: CachedCalendar) -> bool {
    &&& a.info() == b.info()
    &&& forall|u: Seq<char>| #[trigger] a.items().contains_key(u) <==> b.items().contains_key(u)
    &&& forall|u: Seq<char>|
        #[trigger] a.items().contains_key(u) ==> a.items()[u].same_observable_content(b.items()[u])
}

/// A list of (URL, tag) entries holds each URL once.
pub open spec fn tag_urls_distinct(v: Seq<(String, VersionTag)>) -> bool {
    forall|i: int, j: int|
        0 <= i < v.len() && 0 <= j < v.len() && i != j ==> #[trigger] v[i].0@ != #[trigger] v[j].0@
}

/// The entries list exactly the items of `m` whose status carries a tag, each with that tag.
pub open spec fn lists_tags_of(v: Seq<(String, VersionTag)>, m: Map<Seq<char>, ItemView>) -> bool {
    &&& tag_urls_distinct(v)
    &&& forall|i: int|
        0 <= i < v.len() ==> m.contains_key(#[trigger] v[i].0@) && m[v[i].0@].sync_status().tag()
            == Some(v[i].1@)
    &&& forall|u: Seq<char>| #[trigger]
        m.contains_key(u) && m[u].sync_status().tag() is Some ==> exists|i: int|
            0 <= i < v.len() && v[i].0@ == u
}

/// A batched fetch answered in the order of the request: one entry per requested URL, holding
/// the item stored there, or `None` where there is none.
pub open spec fn fetched_as_requested(
    v: Seq<Option<Item>>,
    urls: Seq<String>,
    m: Map<Seq<char>, ItemView>,
) -> bool {
    &&& v.len() == urls.len()
    &&& forall|i: int|
        0 <= i < v.len() ==> (#[trigger] v[i] is Some <==> m.contains_key(urls[i]@))
    &&& forall|i: int|
        0 <= i < v.len() ==> (#[trigger] v[i] matches Some(it) ==> it@ == m[urls[i]@])
}

/// The tag that a status carries, if any.
pub fn tag_of(status: &SyncStatus) -> (r: Option<&VersionTag>)
    ensures
        r matches Some(v) ==> status@.tag() == Some(v@),
        r is None ==> status@.tag() is None,
{
    match status {
        SyncStatus::NotSynced => None,
        SyncStatus::Synced(v) => Some(v),
        SyncStatus::LocallyModified(v) => Some(v),
        SyncStatus::LocallyDeleted(v) => Some(v),
    }
}

/// Setting an item's status to the one it has leaves it as it is.
pub proof fn lemma_with_own_status(iv: ItemView)
    ensures
        iv.with_sync_status(iv.sync_status()) == iv,
{
}

/// What `add_item` or `update_item` does once the URL test has passed: a local calendar stores
/// the item as it is and returns its status; one that stands for a remote calendar consults
/// its fault injector for `op`, and then either fails with `MockedFailure` and keeps its items,
/// or stores the item as `Synced` and returns that status.
pub open spec fn stored_or_refused(
    before: CachedCalendar,
    after: CachedCalendar,
    item: ItemView,
    r: Result<SyncStatus, ErrorKind>,
    op: MockOp,
) -> bool {
    &&& after.mock() == mock_after(before.mock(), op)
    &&& (r is Ok <==> mock_allows(before.mock(), op))
    &&& (r is Err ==> r == Err::<SyncStatus, ErrorKind>(ErrorKind::MockedFailure) && after.items()
        == before.items())
    &&& (r matches Ok(s) ==> {
        &&& after.items() == before.items().insert(item.url(), item.with_sync_status(s@))
        &&& (before.mock() is None ==> s@ == item.sync_status())
        &&& (before.mock() is Some ==> s@ is Synced)
        &&& (item.sync_status() is Synced ==> s@ == item.sync_status())
    })
}

} // verus!
