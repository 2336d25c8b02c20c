//! The sync engine: it pairs a local source with a remote one and reconciles them,
//! calendar by calendar. The remote side wins every conflict.

pub mod classify;
pub mod sync_pair;
pub mod sync_progress;

use vstd::prelude::*;

use crate::cache::{calendars_hold, Cache};
use crate::calendar::CalendarInfo;
use crate::error::ErrorKind;
use crate::mock_behaviour::{mock_after, MockOp};
use crate::traits::{model_ok, synced_items, DavSource};
use crate::calendar::cached_calendar::{lists_tags_of, CachedCalendar};
use crate::item::{ItemView, VersionTag};
use sync_pair::{message, sync_calendar_pair};
use sync_progress::{extends, SyncEvent, SyncProgress};

verus! {

/// Whether a list of calendars holds one with URL `u`.
pub open spec fn infos_have(v: Seq<CalendarInfo>, u: Seq<char>) -> bool {
    exists|k: int| 0 <= k < v.len() && #[trigger] v[k].url@ == u
}

/// The entries of `v` whose URL `others` does not hold, in order: exactly those, each once.
pub open spec fn missing_from(r: Seq<CalendarInfo>, v: Seq<CalendarInfo>, others: Seq<CalendarInfo>) -> bool {
    &&& crate::traits::calendar_urls_distinct(r)
    &&& forall|k: int|
        0 <= k < r.len() ==> !infos_have(others, #[trigger] r[k].url@) && exists|j: int|
            0 <= j < v.len() && v[j]@ == r[k]@
    &&& forall|u: Seq<char>| #[trigger] infos_have(v, u) && !infos_have(others, u) ==> infos_have(r, u)
}

/// What a sync does with the calendars of both sides.
#[derive(Debug)]
pub struct CalendarPlan {
    /// The remote calendars to create locally, with their attributes.
    pub create_locally: Vec<CalendarInfo>,
    /// The local calendars to create on the server, with their attributes.
    pub create_remotely: Vec<CalendarInfo>,
    /// The URLs of the pairs to reconcile: every calendar of either side, each once.
    pub pairs: Vec<String>,
}

impl CalendarPlan {
    pub open spec fn plans(&self, listing: Seq<CalendarInfo>, local: Seq<CalendarInfo>) -> bool {
        &&& missing_from(self.create_locally@, listing, local)
        &&& missing_from(self.create_remotely@, local, listing)
        &&& classify::strings_distinct(self.pairs@)
        &&& forall|u: Seq<char>|
            #[trigger] classify::seq_has(self.pairs@, u) <==> infos_have(listing, u) || infos_have(local, u)
    }
}

/// Whether a list of calendars holds one with this URL.
fn has_info(v: &Vec<CalendarInfo>, url: &str) -> (r: bool)
    ensures
        r == infos_have(v@, url@),
{
    let mut i: usize = 0;
    while i < v.len()
        invariant
            i <= v@.len(),
            forall|j: int| 0 <= j < i ==> #[trigger] v@[j].url@ != url@,
        decreases v@.len() - i,
    {
        if crate::utils::str_eq(v[i].url.as_str(), url) {
            return true;
        }
        i = i + 1;
    }
    false
}

/// The entries of `v` whose URL `others` does not hold.
fn missing(v: &Vec<CalendarInfo>, others: &Vec<CalendarInfo>) -> (r: Vec<CalendarInfo>)
    requires
        crate::traits::calendar_urls_distinct(v@),
    ensures
        missing_from(r@, v@, others@),
{
    let mut out: Vec<CalendarInfo> = Vec::new();
    let mut i: usize = 0;
    while i < v.len()
        invariant
            i <= v@.len(),
            crate::traits::calendar_urls_distinct(v@),
            forall|k: int|
                0 <= k < out@.len() ==> !infos_have(others@, #[trigger] out@[k].url@) && exists|j: int|
                    0 <= j < i && v@[j]@ == out@[k]@,
            forall|j: int| 0 <= j < i && !infos_have(others@, #[trigger] v@[j].url@) ==> infos_have(out@, v@[j].url@),
            crate::traits::calendar_urls_distinct(out@),
        decreases v@.len() - i,
    {
        if !has_info(others, v[i].url.as_str()) {
            let ghost out0 = out@;
            out.push(v[i].clone());
            proof {
                assert(out@[out0.len() as int]@ == v@[i as int]@);
                assert forall|k: int| 0 <= k < out@.len() implies !infos_have(others@, #[trigger] out@[k].url@) && exists|j: int|
                    0 <= j < i + 1 && v@[j]@ == out@[k]@ by {
                    if k < out0.len() {
                        assert(out@[k] == out0[k]);
                    }
                }
                assert forall|j: int| 0 <= j < i + 1 && !infos_have(others@, #[trigger] v@[j].url@) implies infos_have(out@, v@[j].url@) by {
                    if j < i {
                        let k = choose|k: int| 0 <= k < out0.len() && #[trigger] out0[k].url@ == v@[j].url@;
                        assert(out@[k] == out0[k]);
                    } else {
                        assert(out@[out0.len() as int].url@ == v@[j].url@);
                    }
                }
                assert forall|a: int, b: int| 0 <= a < out@.len() && 0 <= b < out@.len() && a != b implies #[trigger] out@[a].url@
                    != #[trigger] out@[b].url@ by {
                    if a < out0.len() && b < out0.len() {
                        assert(out@[a] == out0[a] && out@[b] == out0[b]);
                    } else if a < out0.len() {
                        let j = choose|j: int| 0 <= j < i && v@[j]@ == out0[a]@;
                        assert(v@[j].url@ != v@[i as int].url@);
                        assert(out@[a] == out0[a]);
                    } else if b < out0.len() {
                        let j = choose|j: int| 0 <= j < i && v@[j]@ == out0[b]@;
                        assert(v@[j].url@ != v@[i as int].url@);
                        assert(out@[b] == out0[b]);
                    }
                }
            }
        }
        i = i + 1;
    }
    proof {
        assert forall|u: Seq<char>| #[trigger] infos_have(v@, u) && !infos_have(others@, u) implies infos_have(out@, u) by {
            let j = choose|j: int| 0 <= j < v@.len() && #[trigger] v@[j].url@ == u;
        }
    }
    out
}

/// The plan of a sync, from the server's listing of its calendars and the local ones: which
/// calendars to create on each side (those the other side lacks, with their attributes), and
/// which pairs to reconcile (every calendar of either side, each once).
pub fn plan_calendars(listing: &Vec<CalendarInfo>, local: &Vec<CalendarInfo>) -> (r: CalendarPlan)
    requires
        crate::traits::calendar_urls_distinct(listing@),
        crate::traits::calendar_urls_distinct(local@),
    ensures
        r.plans(listing@, local@),
{
    let create_locally = missing(listing, local);
    let create_remotely = missing(local, listing);
    let mut pairs: Vec<String> = Vec::new();
    let mut i: usize = 0;
    while i < local.len()
        invariant
            i <= local@.len(),
            crate::traits::calendar_urls_distinct(local@),
            pairs@.len() == i,
            forall|k: int| 0 <= k < i ==> #[trigger] pairs@[k]@ == local@[k].url@,
        decreases local@.len() - i,
    {
        pairs.push(local[i].url.clone());
        i = i + 1;
    }
    let mut j: usize = 0;
    while j < create_locally.len()
        invariant
            j <= create_locally@.len(),
            pairs@.len() == local@.len() + j,
            forall|k: int| 0 <= k < local@.len() ==> #[trigger] pairs@[k]@ == local@[k].url@,
            forall|k: int| 0 <= k < j ==> #[trigger] pairs@[local@.len() + k]@ == create_locally@[k].url@,
        decreases create_locally@.len() - j,
    {
        pairs.push(create_locally[j].url.clone());
        j = j + 1;
    }
    let r = CalendarPlan { create_locally, create_remotely, pairs };
    proof {
        let n = local@.len() as int;
        let cl = r.create_locally@;
        assert forall|a: int, b: int| 0 <= a < pairs@.len() && 0 <= b < pairs@.len() && a != b implies #[trigger] pairs@[a]@
            != #[trigger] pairs@[b]@ by {
            if a < n && b < n {
                assert(pairs@[a]@ == local@[a].url@);
                assert(pairs@[b]@ == local@[b].url@);
                assert(local@[a].url@ != local@[b].url@);
            } else if a >= n && b >= n {
                assert(pairs@[n + (a - n)]@ == cl[a - n].url@);
                assert(pairs@[n + (b - n)]@ == cl[b - n].url@);
                assert(cl[a - n].url@ != cl[b - n].url@);
            } else if a < n {
                assert(pairs@[a]@ == local@[a].url@);
                assert(pairs@[n + (b - n)]@ == cl[b - n].url@);
                assert(!infos_have(local@, cl[b - n].url@));
            } else {
                assert(pairs@[b]@ == local@[b].url@);
                assert(pairs@[n + (a - n)]@ == cl[a - n].url@);
                assert(!infos_have(local@, cl[a - n].url@));
            }
        }
        assert forall|u: Seq<char>| #[trigger] classify::seq_has(pairs@, u) <==> infos_have(listing@, u) || infos_have(local@, u) by {
            if classify::seq_has(pairs@, u) {
                let a = choose|a: int| 0 <= a < pairs@.len() && #[trigger] pairs@[a]@ == u;
                if a < n {
                    assert(local@[a].url@ == u);
                } else {
                    assert(pairs@[n + (a - n)]@ == cl[a - n].url@);
                    assert(!infos_have(local@, cl[a - n].url@));
                    let jj = choose|jj: int| 0 <= jj < listing@.len() && listing@[jj]@ == cl[a - n]@;
                    assert(listing@[jj].url@ == u);
                }
            }
            if infos_have(local@, u) {
                let a = choose|a: int| 0 <= a < local@.len() && #[trigger] local@[a].url@ == u;
                assert(pairs@[a]@ == u);
            } else if infos_have(listing@, u) {
                assert(infos_have(cl, u));
                let k = choose|k: int| 0 <= k < cl.len() && #[trigger] cl[k].url@ == u;
                assert(pairs@[n + k]@ == u);
            }
        }
    }
    r
}

/// The calendar `c1` and the server items `rm1` are what reconciling the pair (`c0`, `rm0`)
/// once may leave; if `completed`, the reconciliation completed (see
/// [`sync_pair::reconcile`]).
pub open spec fn pair_synced(
    c0: CachedCalendar,
    c1: CachedCalendar,
    rm0: Map<Seq<char>, ItemView>,
    rm1: Map<Seq<char>, ItemView>,
    completed: bool,
) -> bool {
    exists|tags: Seq<(String, VersionTag)>|
        #[trigger] lists_tags_of(tags, rm0) && sync_pair::allowed_everywhere(c0, tags, rm0, c1.items(), rm1)
            && (completed ==> sync_pair::completed_everywhere(c0, tags, rm0, c1.items(), rm1)
            && forall|u: Seq<char>| #[trigger] classify::class_at(c0, tags, u) != classify::ChangeClass::UrlReuse)
}

/// The pair was left as it was (and then it did not complete), or it was reconciled once.
pub open spec fn pair_kept_or_synced(
    c0: CachedCalendar,
    c1: CachedCalendar,
    rm0: Map<Seq<char>, ItemView>,
    rm1: Map<Seq<char>, ItemView>,
    completed: bool,
) -> bool {
    (c1.items() == c0.items() && rm1 == rm0 && !completed) || pair_synced(c0, c1, rm0, rm1, completed)
}

proof fn lemma_pair_weaken(
    c0: CachedCalendar,
    c1: CachedCalendar,
    rm0: Map<Seq<char>, ItemView>,
    rm1: Map<Seq<char>, ItemView>,
    a: bool,
    b: bool,
)
    requires
        pair_kept_or_synced(c0, c1, rm0, rm1, a),
        b ==> a,
    ensures
        pair_kept_or_synced(c0, c1, rm0, rm1, b),
{
    if !(c1.items() == c0.items() && rm1 == rm0 && !a) {
        let tags = choose|tags: Seq<(String, VersionTag)>|
            #[trigger] lists_tags_of(tags, rm0) && sync_pair::allowed_everywhere(c0, tags, rm0, c1.items(), rm1)
                && (a ==> sync_pair::completed_everywhere(c0, tags, rm0, c1.items(), rm1)
                && forall|u: Seq<char>| #[trigger] classify::class_at(c0, tags, u) != classify::ChangeClass::UrlReuse);
        assert(lists_tags_of(tags, rm0));
    }
}

/// What a sync from `a` to `b` did, with `success` whether it reported no error:
/// - every local calendar keeps its attributes, and its pair was left as it was (then the sync
///   failed) or reconciled once, against the items the server held for it, or none if the
///   calendar had to be created there;
/// - every local calendar added is a server calendar, with its attributes, reconciled once;
/// - every server calendar keeps its attributes;
/// - on success, both sides hold calendars at the same URLs, and a calendar that only the
///   local side held is on the server with the local attributes.
pub open spec fn sync_outcome<R: DavSource>(a: Provider<R>, b: Provider<R>, success: bool) -> bool {
    let l0 = a.local_view().calendars();
    let l = b.local_view().calendars();
    let r0 = a.remote_view();
    let r1 = b.remote_view();
    &&& l.len() >= l0.len()
    &&& forall|j: int|
        0 <= j < l0.len() ==> (#[trigger] l[j]).info() == l0[j].info() && exists|rm0: Map<Seq<char>, ItemView>|
            (rm0 == r0.items_of(l0[j].info().url) || (!r0.calendars_model().contains_key(l0[j].info().url)
                && rm0 == Map::<Seq<char>, ItemView>::empty())) && #[trigger] pair_kept_or_synced(
                l0[j],
                l[j],
                rm0,
                r1.items_of(l0[j].info().url),
                success,
            )
    &&& forall|j: int|
        l0.len() <= j < l.len() ==> r0.calendars_model().contains_key((#[trigger] l[j]).info().url)
            && r0.calendars_model()[l[j].info().url] == l[j].info() && exists|c0: CachedCalendar|
            c0.info() == l[j].info() && c0.items() == Map::<Seq<char>, ItemView>::empty() && #[trigger] pair_kept_or_synced(
                c0,
                l[j],
                r0.items_of(l[j].info().url),
                r1.items_of(l[j].info().url),
                success,
            )
    &&& forall|u: Seq<char>|
        #[trigger] r0.calendars_model().contains_key(u) ==> r1.calendars_model().contains_key(u)
            && r1.calendars_model()[u] == r0.calendars_model()[u]
    &&& success ==> forall|u: Seq<char>|
        #[trigger] b.local_view().has_calendar(u) <==> r1.calendars_model().contains_key(u)
    &&& success ==> forall|j: int|
        0 <= j < l0.len() && !r0.calendars_model().contains_key(#[trigger] l0[j].info().url)
            ==> r1.calendars_model()[l0[j].info().url] == l0[j].info()
}

/// A pair reconciled to completion against `Synced` server items agrees with the server: the
/// same item URLs on both sides, each local item `Synced` at the version the server holds.
proof fn lemma_pair_agrees(
    c0: CachedCalendar,
    c1: CachedCalendar,
    rm0: Map<Seq<char>, ItemView>,
    rm1: Map<Seq<char>, ItemView>,
)
    requires
        pair_kept_or_synced(c0, c1, rm0, rm1, true),
        synced_items(rm0),
    ensures
        forall|u: Seq<char>| #[trigger] c1.items().contains_key(u) == rm1.contains_key(u),
        forall|u: Seq<char>|
            #[trigger] c1.items().contains_key(u) ==> c1.items()[u].sync_status() is Synced
                && c1.items()[u].sync_status() == rm1[u].sync_status(),
{
    let tags = choose|tags: Seq<(String, VersionTag)>|
        #[trigger] lists_tags_of(tags, rm0) && sync_pair::allowed_everywhere(c0, tags, rm0, c1.items(), rm1)
            && (true ==> sync_pair::completed_everywhere(c0, tags, rm0, c1.items(), rm1)
            && forall|u: Seq<char>| #[trigger] classify::class_at(c0, tags, u) != classify::ChangeClass::UrlReuse);
    sync_pair::lemma_completed_pair_converges(c0, tags, rm0, c1.items(), rm1);
}

/// After a sync that reported no error, both sides agree on every calendar: the local
/// calendar and the server hold the same item URLs, and each local item is `Synced` at the
/// version the server holds it at; no local item is left `NotSynced`, `LocallyModified` or as a
/// tombstone. Both sides hold calendars at the same URLs.
pub proof fn lemma_successful_sync_converges<R: DavSource>(a: Provider<R>, b: Provider<R>)
    requires
        a.wf(),
        sync_outcome(a, b, true),
    ensures
        forall|u: Seq<char>| #[trigger] b.local_view().has_calendar(u) <==> b.remote_view().calendars_model().contains_key(u),
        forall|j: int|
            0 <= j < b.local_view().calendars().len() ==> {
                let c = #[trigger] b.local_view().calendars()[j];
                let rm = b.remote_view().items_of(c.info().url);
                &&& forall|u: Seq<char>| #[trigger] c.items().contains_key(u) == rm.contains_key(u)
                &&& forall|u: Seq<char>|
                    #[trigger] c.items().contains_key(u) ==> c.items()[u].sync_status() is Synced
                        && c.items()[u].sync_status() == rm[u].sync_status()
            },
{
    let l0 = a.local_view().calendars();
    let l = b.local_view().calendars();
    let r0 = a.remote_view();
    assert forall|j: int| 0 <= j < l.len() implies {
        let c = #[trigger] l[j];
        let rm = b.remote_view().items_of(c.info().url);
        &&& forall|u: Seq<char>| #[trigger] c.items().contains_key(u) == rm.contains_key(u)
        &&& forall|u: Seq<char>|
            #[trigger] c.items().contains_key(u) ==> c.items()[u].sync_status() is Synced
                && c.items()[u].sync_status() == rm[u].sync_status()
    } by {
        if j < l0.len() {
            let url = l0[j].info().url;
            assert(l[j].info() == l0[j].info());
            let rm0 = choose|rm0: Map<Seq<char>, ItemView>|
                (rm0 == r0.items_of(url) || (!r0.calendars_model().contains_key(url)
                    && rm0 == Map::<Seq<char>, ItemView>::empty())) && #[trigger] pair_kept_or_synced(
                    l0[j],
                    l[j],
                    rm0,
                    b.remote_view().items_of(url),
                    true,
                );
            assert(synced_items(r0.items_of(url)));
            lemma_pair_agrees(l0[j], l[j], rm0, b.remote_view().items_of(url));
        } else {
            let url = l[j].info().url;
            let c0 = choose|c0: CachedCalendar|
                c0.info() == l[j].info() && c0.items() == Map::<Seq<char>, ItemView>::empty() && #[trigger] pair_kept_or_synced(
                    c0,
                    l[j],
                    r0.items_of(url),
                    b.remote_view().items_of(url),
                    true,
                );
            assert(synced_items(r0.items_of(url)));
            lemma_pair_agrees(c0, l[j], r0.items_of(url), b.remote_view().items_of(url));
        }
    }
}

/// Reconciling a pair whose two sides agree changes neither side: every URL needs nothing.
proof fn lemma_agreeing_pair_unchanged(
    c0: CachedCalendar,
    c1: CachedCalendar,
    rm0: Map<Seq<char>, ItemView>,
    rm1: Map<Seq<char>, ItemView>,
    completed: bool,
)
    requires
        pair_kept_or_synced(c0, c1, rm0, rm1, completed),
        synced_items(rm0),
        forall|u: Seq<char>| #[trigger] c0.items().contains_key(u) == rm0.contains_key(u),
        forall|u: Seq<char>|
            #[trigger] c0.items().contains_key(u) ==> c0.items()[u].sync_status() is Synced
                && c0.items()[u].sync_status() == rm0[u].sync_status(),
    ensures
        c1.items() == c0.items(),
        rm1 == rm0,
{
    if !(c1.items() == c0.items() && rm1 == rm0 && !completed) {
        let tags = choose|tags: Seq<(String, VersionTag)>|
            #[trigger] lists_tags_of(tags, rm0) && sync_pair::allowed_everywhere(c0, tags, rm0, c1.items(), rm1)
                && (completed ==> sync_pair::completed_everywhere(c0, tags, rm0, c1.items(), rm1)
                && forall|u: Seq<char>| #[trigger] classify::class_at(c0, tags, u) != classify::ChangeClass::UrlReuse);
        sync_pair::lemma_tag_at_listing(tags, rm0);
        assert forall|u: Seq<char>| #[trigger] sync_pair::item_at(rm1, u) == sync_pair::item_at(rm0, u) by {
            assert(classify::class_at(c0, tags, u) == classify::ChangeClass::NoOp);
            assert(sync_pair::allowed_outcome(
                classify::class_at(c0, tags, u),
                sync_pair::item_at(c0.items(), u),
                sync_pair::item_at(c1.items(), u),
                sync_pair::item_at(rm0, u),
                sync_pair::item_at(rm1, u),
            ));
        }
        assert forall|u: Seq<char>| #[trigger] sync_pair::item_at(c1.items(), u) == sync_pair::item_at(c0.items(), u) by {
            assert(classify::class_at(c0, tags, u) == classify::ChangeClass::NoOp);
            assert(sync_pair::allowed_outcome(
                classify::class_at(c0, tags, u),
                sync_pair::item_at(c0.items(), u),
                sync_pair::item_at(c1.items(), u),
                sync_pair::item_at(rm0, u),
                sync_pair::item_at(rm1, u),
            ));
        }
        assert(c1.items() =~= c0.items()) by {
            assert forall|u: Seq<char>| #[trigger] c1.items().contains_key(u) == c0.items().contains_key(u) by {
                assert(sync_pair::item_at(c1.items(), u) == sync_pair::item_at(c0.items(), u));
            }
            assert forall|u: Seq<char>| c1.items().contains_key(u) implies #[trigger] c1.items()[u] == c0.items()[u] by {
                assert(sync_pair::item_at(c1.items(), u) == sync_pair::item_at(c0.items(), u));
            }
        }
        assert(rm1 =~= rm0) by {
            assert forall|u: Seq<char>| #[trigger] rm1.contains_key(u) == rm0.contains_key(u) by {
                assert(sync_pair::item_at(rm1, u) == sync_pair::item_at(rm0, u));
            }
            assert forall|u: Seq<char>| rm1.contains_key(u) implies #[trigger] rm1[u] == rm0[u] by {
                assert(sync_pair::item_at(rm1, u) == sync_pair::item_at(rm0, u));
            }
        }
    }
}

/// A sync right after one that reported no error changes nothing: the local side keeps the
/// same calendars with the same items, and the server the same items in each of them,
/// whether the second sync reports errors or not.
pub proof fn lemma_sync_after_success_changes_nothing<R: DavSource>(
    a: Provider<R>,
    b: Provider<R>,
    c: Provider<R>,
    second: bool,
)
    requires
        a.wf(),
        b.wf(),
        c.wf(),
        sync_outcome(a, b, true),
        sync_outcome(b, c, second),
    ensures
        c.local_view().calendars().len() == b.local_view().calendars().len(),
        forall|j: int|
            0 <= j < b.local_view().calendars().len() ==> {
                let cb = b.local_view().calendars()[j];
                let cc = #[trigger] c.local_view().calendars()[j];
                &&& cc.info() == cb.info()
                &&& cc.items() == cb.items()
                &&& c.remote_view().items_of(cb.info().url) == b.remote_view().items_of(cb.info().url)
            },
{
    lemma_successful_sync_converges(a, b);
    let lb = b.local_view().calendars();
    let lc = c.local_view().calendars();
    let rb = b.remote_view();
    assert forall|j: int| 0 <= j < lb.len() implies {
        let cb = lb[j];
        let cc = #[trigger] lc[j];
        &&& cc.info() == cb.info()
        &&& cc.items() == cb.items()
        &&& c.remote_view().items_of(cb.info().url) == rb.items_of(cb.info().url)
    } by {
        let url = lb[j].info().url;
        assert(lc[j].info() == lb[j].info());
        assert(calendars_hold(lb, url));
        assert(b.local_view().has_calendar(url));
        assert(rb.calendars_model().contains_key(url));
        let rm0 = choose|rm0: Map<Seq<char>, ItemView>|
            (rm0 == rb.items_of(url) || (!rb.calendars_model().contains_key(url)
                && rm0 == Map::<Seq<char>, ItemView>::empty())) && #[trigger] pair_kept_or_synced(
                lb[j],
                lc[j],
                rm0,
                c.remote_view().items_of(url),
                second,
            );
        assert(synced_items(rb.items_of(url)));
        assert(lb[j] == b.local_view().calendars()[j]);
        lemma_agreeing_pair_unchanged(lb[j], lc[j], rm0, c.remote_view().items_of(url), second);
    }
    if lc.len() > lb.len() {
        let j = lb.len() as int;
        let url = lc[j].info().url;
        assert(rb.calendars_model().contains_key(url));
        assert(b.local_view().has_calendar(url));
        let i = choose|i: int| 0 <= i < lb.len() && #[trigger] lb[i].info().url == url;
        assert(lc[i].info().url == url);
        assert(lc[i].info().url != lc[j].info().url);
    }
}

/// A pair of sources that can be synced: a local cache, and a remote source (usually a
/// CalDAV server). The remote side wins every conflict.
pub struct Provider<R: DavSource> {
    remote: R,
    local: Cache,
}

impl<R: DavSource> Provider<R> {
    /// The local cache.
    pub closed spec fn local_view(&self) -> Cache {
        self.local
    }

    /// The remote source.
    pub closed spec fn remote_view(&self) -> R {
        self.remote
    }

    pub open spec fn wf(&self) -> bool {
        self.local_view().wf() && self.remote_view().inv() && model_ok(self.remote_view())
    }

    pub fn new(remote: R, local: Cache) -> (r: Self)
        requires
            remote.inv(),
            model_ok(remote),
            local.wf(),
        ensures
            r.wf(),
            r.local_view() == local,
            r.remote_view() == remote,
    {
        Provider { remote, local }
    }

    /// The local source.
    pub fn local(&self) -> (r: &Cache)
        ensures
            *r == self.local_view(),
    {
        &self.local
    }

    /// The local source, to change it.
    pub fn local_mut(&mut self) -> (r: &mut Cache)
        ensures
            *r == old(self).local_view(),
            final(self).local_view() == *final(r),
            final(self).remote_view() == old(self).remote_view(),
    {
        &mut self.local
    }

    /// The remote source. The local cache is usually what to read: [`Provider::sync`] makes it
    /// mirror the remote source.
    pub fn remote(&self) -> (r: &R)
        ensures
            *r == self.remote_view(),
    {
        &self.remote
    }

    /// Sync both sources, and return whether the sync was a complete success.
    ///
    /// Each remote calendar gets a local counterpart, and each local calendar a remote one;
    /// then each pair is reconciled. A failure is reported and the sync goes on with the next
    /// item or calendar; whatever state it leaves is safe, and the next sync resumes from it.
    pub fn sync(&mut self) -> (r: bool)
        requires
            old(self).wf(),
        ensures
            final(self).wf(),
            sync_outcome(*old(self), *final(self), r),
    {
        let mut progress = SyncProgress::new();
        self.sync_with_progress(&mut progress)
    }

    /// [`Provider::sync`], reporting to `progress`. The result is whether no error was reported
    /// during this sync.
    pub fn sync_with_progress(&mut self, progress: &mut SyncProgress) -> (r: bool)
        requires
            old(self).wf(),
        ensures
            extends(*old(progress), *final(progress)),
            final(self).wf(),
            r == sync_pair::clean(*old(progress), *final(progress)),
            sync_outcome(*old(self), *final(self), r),
            final(progress).latest() == (SyncEvent::Finished { success: r }),
            final(progress).posted().len() >= old(progress).posted().len() + 2,
            final(progress).posted()[old(progress).posted().len() as int] == SyncEvent::Started,
            final(progress).posted().last() == (SyncEvent::Finished { success: r }),
    {
        let start = progress.error_count();
        self.run_sync_inner(progress);
        let success = progress.error_count() == start && start < u32::MAX;
        progress.feedback(SyncEvent::Finished { success });
        success
    }

    /// Reconcile the pair at `url`, whose local calendar the cache holds.
    fn sync_held_pair(&mut self, url: &str, progress: &mut SyncProgress) -> (r: Result<(), ErrorKind>)
        requires
            old(self).wf(),
        ensures
            extends(*old(progress), *final(progress)),
            final(self).wf(),
            final(self).local_view().calendars().len() == old(self).local_view().calendars().len(),
            forall|j: int|
                0 <= j < old(self).local_view().calendars().len() ==> (#[trigger] final(self).local_view().calendars()[j]).info()
                    == old(self).local_view().calendars()[j].info(),
            forall|j: int|
                0 <= j < old(self).local_view().calendars().len() && old(self).local_view().calendars()[j].info().url != url@
                    ==> #[trigger] final(self).local_view().calendars()[j] == old(self).local_view().calendars()[j],
            sync_pair::remote_frame(old(self).remote_view(), final(self).remote_view(), url@),
            final(progress).n_errors() >= old(progress).n_errors(),
            forall|j: int|
                0 <= j < old(self).local_view().calendars().len() && old(self).local_view().calendars()[j].info().url == url@
                    ==> pair_kept_or_synced(
                    old(self).local_view().calendars()[j],
                    #[trigger] final(self).local_view().calendars()[j],
                    old(self).remote_view().items_of(url@),
                    final(self).remote_view().items_of(url@),
                    sync_pair::clean(*old(progress), *final(progress)),
                ),
            r is Err ==> final(self).remote_view().items_of(url@) == old(self).remote_view().items_of(url@)
                && !sync_pair::clean(*old(progress), *final(progress)),
    {
        let (i, cal) = match self.local.take_calendar(url) {
            None => {
                progress.warn(sync_pair::message("No local calendar ", url).as_str());
                return Err(ErrorKind::NotFound);
            },
            Some(x) => x,
        };
        let ghost before = self.local.calendars();
        let ghost c0 = cal;
        let mut cal = cal;
        let r = sync_calendar_pair(&mut cal, &mut self.remote, url, progress);
        if r.is_err() {
            progress.warn(sync_pair::message("Unable to sync calendar ", url).as_str());
        }
        self.local.put_back_calendar(i, cal);
        proof {
            let old_cals = old(self).local_view().calendars();
            let new_cals = self.local.calendars();
            assert(new_cals =~= old_cals.update(i as int, cal));
            assert forall|j: int| 0 <= j < old_cals.len() && old_cals[j].info().url != url@ implies #[trigger] new_cals[j]
                == old_cals[j] by {
                if j == i {
                    assert(old_cals[j].info().url == url@);
                }
            }
            assert forall|j: int| 0 <= j < old_cals.len() && old_cals[j].info().url == url@ implies pair_kept_or_synced(
                old_cals[j],
                #[trigger] new_cals[j],
                old(self).remote_view().items_of(url@),
                self.remote_view().items_of(url@),
                sync_pair::clean(*old(progress), *progress),
            ) by {
                if j != i {
                    assert(old_cals[j].info().url != old_cals[i as int].info().url);
                }
            }
        }
        r
    }

    fn run_sync_inner(&mut self, progress: &mut SyncProgress)
        requires
            old(self).wf(),
        ensures
            final(self).wf(),
            sync_outcome(*old(self), *final(self), sync_pair::clean(*old(progress), *final(progress))),
            final(progress).n_errors() >= old(progress).n_errors(),
            extends(*old(progress), *final(progress)),
            final(progress).posted().len() > old(progress).posted().len(),
            final(progress).posted()[old(progress).posted().len() as int] == SyncEvent::Started,
    {
        progress.feedback(SyncEvent::Started);
        let ghost ps = *progress;
        let ghost rem_pre = self.remote;
        assert(rem_pre == old(self).remote_view());
        let listing = match self.remote.get_calendars() {
            Err(_) => {
                progress.error("Sync terminated because the remote calendars could not be listed");
                proof {
                    let l0 = old(self).local_view().calendars();
                    assert(self.local_view() == old(self).local_view());
                    assert forall|j: int| 0 <= j < l0.len() implies (#[trigger] self.local_view().calendars()[j]).info() == l0[j].info()
                        && exists|rm0: Map<Seq<char>, ItemView>|
                        (rm0 == old(self).remote_view().items_of(l0[j].info().url) || (!old(self).remote_view().calendars_model().contains_key(l0[j].info().url)
                            && rm0 == Map::<Seq<char>, ItemView>::empty())) && #[trigger] pair_kept_or_synced(
                            l0[j],
                            self.local_view().calendars()[j],
                            rm0,
                            self.remote_view().items_of(l0[j].info().url),
                            sync_pair::clean(*old(progress), *progress),
                        ) by {
                        assert(pair_kept_or_synced(l0[j], self.local_view().calendars()[j], old(self).remote_view().items_of(l0[j].info().url),
                            self.remote_view().items_of(l0[j].info().url), sync_pair::clean(*old(progress), *progress)));
                    }
                }
                return ;
            },
            Ok(v) => v,
        };
        let local_infos = self.local.get_calendar_infos();
        let plan = plan_calendars(&listing, &local_infos);
        let ghost l0 = self.local.calendars();
        let ghost rem0 = self.remote;
        let ghost p0 = *progress;
        assert(forall|c: Seq<char>| #[trigger] rem0.items_of(c) == rem_pre.items_of(c));
        assert(rem0.calendars_model() == rem_pre.calendars_model());
        // The remote calendars that the local side lacks.
        let mut k: usize = 0;
        while k < plan.create_locally.len()
            invariant
                extends(ps, *progress),
                self.wf(),
                self.remote == rem0,
                k <= plan.create_locally@.len(),
                plan.plans(listing@, local_infos@),
                crate::traits::lists_calendars(listing@, rem0.calendars_model()),
                self.local.calendars().len() >= l0.len(),
                forall|j: int| 0 <= j < l0.len() ==> #[trigger] self.local.calendars()[j] == l0[j],
                forall|j: int|
                    l0.len() <= j < self.local.calendars().len() ==> (#[trigger] self.local.calendars()[j]).items()
                        == Map::<Seq<char>, crate::item::ItemView>::empty() && rem0.calendars_model().contains_key(
                        self.local.calendars()[j].info().url,
                    ) && rem0.calendars_model()[self.local.calendars()[j].info().url] == self.local.calendars()[j].info(),
                sync_pair::clean(p0, *progress) ==> forall|q: int|
                    0 <= q < k ==> self.local.has_calendar(#[trigger] plan.create_locally@[q].url@),
                progress.n_errors() >= p0.n_errors(),
            decreases plan.create_locally@.len() - k,
        {
            let info = &plan.create_locally[k];
            let ghost ci = plan.create_locally@[k as int];
            assert(!infos_have(local_infos@, ci.url@));
            assert(ci.url@ == info.url@);
            let ghost cals = self.local.calendars();
            let res = self.local.create_calendar(info.url.clone(), info.name.clone(), info.supported_components, info.color);
            if res.is_err() {
                progress.warn(sync_pair::message("Unable to create the local calendar ", info.url.as_str()).as_str());
            }
            proof {
                if res is Ok {
                    assert(self.local.calendars() =~= cals.push(self.local.calendars().last()));
                }
                assert forall|j: int| 0 <= j < l0.len() implies #[trigger] self.local.calendars()[j] == l0[j] by {
                    if res is Ok {
                        assert(self.local.calendars()[j] == cals[j]);
                    }
                }
                assert forall|j: int| l0.len() <= j < self.local.calendars().len() implies (#[trigger] self.local.calendars()[j]).items()
                        == Map::<Seq<char>, crate::item::ItemView>::empty() && rem0.calendars_model().contains_key(
                        self.local.calendars()[j].info().url,
                    ) && rem0.calendars_model()[self.local.calendars()[j].info().url] == self.local.calendars()[j].info() by {
                    if res is Ok && j == cals.len() {
                        let jj = choose|jj: int| 0 <= jj < listing@.len() && listing@[jj]@ == ci@;
                        assert(listing@[jj].url@ == info.url@);
                        assert(rem0.calendars_model().contains_key(listing@[jj].url@));
                    } else if res is Ok {
                        assert(self.local.calendars()[j] == cals[j]);
                    }
                }
                if sync_pair::clean(p0, *progress) {
                    assert(res is Ok);
                    assert forall|q: int| 0 <= q < k + 1 implies self.local.has_calendar(#[trigger] plan.create_locally@[q].url@) by {
                        if q == k {
                            assert(self.local.calendars()[cals.len() as int].info().url == info.url@);
                        } else {
                            let j = choose|j: int| 0 <= j < cals.len() && #[trigger] cals[j].info().url == plan.create_locally@[q].url@;
                            assert(self.local.calendars()[j] == cals[j]);
                        }
                    }
                }
            }
            k = k + 1;
        }
        let ghost l1 = self.local.calendars();
        let ghost p1 = *progress;
        // The local calendars that the remote side lacks.
        let mut k: usize = 0;
        while k < plan.create_remotely.len()
            invariant
                extends(ps, *progress),
                self.wf(),
                self.local.calendars() == l1,
                k <= plan.create_remotely@.len(),
                plan.plans(listing@, local_infos@),
                crate::traits::lists_calendars(listing@, rem0.calendars_model()),
                forall|u: Seq<char>|
                    #[trigger] self.remote.calendars_model().contains_key(u) ==> rem0.calendars_model().contains_key(u)
                        || infos_have(plan.create_remotely@, u),
                forall|u: Seq<char>|
                    rem0.calendars_model().contains_key(u) ==> #[trigger] self.remote.calendars_model().contains_key(u)
                        && self.remote.calendars_model()[u] == rem0.calendars_model()[u]
                        && self.remote.items_of(u) == rem0.items_of(u),
                forall|u: Seq<char>|
                    !rem0.calendars_model().contains_key(u) ==> #[trigger] self.remote.items_of(u) == rem0.items_of(u)
                        || self.remote.items_of(u) == Map::<Seq<char>, crate::item::ItemView>::empty(),
                sync_pair::clean(p1, *progress) ==> forall|q: int|
                    0 <= q < k ==> self.remote.calendars_model().contains_key(#[trigger] plan.create_remotely@[q].url@)
                        && self.remote.calendars_model()[plan.create_remotely@[q].url@] == plan.create_remotely@[q]@,
                progress.n_errors() >= p1.n_errors(),
            decreases plan.create_remotely@.len() - k,
        {
            let info = &plan.create_remotely[k];
            let ghost ci = plan.create_remotely@[k as int];
            assert(!infos_have(listing@, ci.url@));
            assert(ci.url@ == info.url@);
            let ghost remb = self.remote;
            let res = self.remote.create_calendar(info);
            if res.is_err() {
                progress.warn(sync_pair::message("Unable to create the remote calendar ", info.url.as_str()).as_str());
            }
            proof {
                assert(!rem0.calendars_model().contains_key(info.url@)) by {
                    if rem0.calendars_model().contains_key(info.url@) {
                        let jj = choose|jj: int| 0 <= jj < listing@.len() && listing@[jj].url@ == info.url@;
                        assert(infos_have(listing@, ci.url@));
                    }
                }
                assert forall|u: Seq<char>| #[trigger] self.remote.calendars_model().contains_key(u) implies rem0.calendars_model().contains_key(u)
                    || infos_have(plan.create_remotely@, u) by {
                    if res is Ok && u == info.url@ {
                        assert(plan.create_remotely@[k as int].url@ == u);
                    } else {
                        assert(remb.calendars_model().contains_key(u));
                    }
                }
                assert forall|u: Seq<char>| rem0.calendars_model().contains_key(u) implies #[trigger] self.remote.calendars_model().contains_key(u)
                        && self.remote.calendars_model()[u] == rem0.calendars_model()[u]
                        && self.remote.items_of(u) == rem0.items_of(u) by {
                    assert(u != info.url@);
                    assert(remb.calendars_model().contains_key(u));
                }
                assert forall|u: Seq<char>| !rem0.calendars_model().contains_key(u) implies #[trigger] self.remote.items_of(u) == rem0.items_of(u)
                        || self.remote.items_of(u) == Map::<Seq<char>, crate::item::ItemView>::empty() by {
                    if !(res is Ok && u == info.url@) {
                        assert(self.remote.items_of(u) == remb.items_of(u));
                    }
                }
                if sync_pair::clean(p1, *progress) {
                    assert(res is Ok);
                    assert forall|q: int| 0 <= q < k + 1 implies self.remote.calendars_model().contains_key(#[trigger] plan.create_remotely@[q].url@)
                        && self.remote.calendars_model()[plan.create_remotely@[q].url@] == plan.create_remotely@[q]@ by {
                        if q < k {
                            assert(plan.create_remotely@[q].url@ != info.url@);
                            assert(remb.calendars_model().contains_key(plan.create_remotely@[q].url@));
                        }
                    }
                }
            }
            k = k + 1;
        }
        let ghost rem1 = self.remote;
        let ghost p2 = *progress;
        // Every pair.
        let mut k: usize = 0;
        while k < plan.pairs.len()
            invariant
                extends(ps, *progress),
                self.wf(),
                k <= plan.pairs@.len(),
                classify::strings_distinct(plan.pairs@),
                self.local.calendars().len() == l1.len(),
                forall|j: int| 0 <= j < l1.len() ==> (#[trigger] self.local.calendars()[j]).info() == l1[j].info(),
                forall|j: int|
                    0 <= j < l1.len() && !sync_pair::in_range(plan.pairs@, 0, k as int, l1[j].info().url) ==> #[trigger] self.local.calendars()[j]
                        == l1[j],
                forall|j: int|
                    0 <= j < l1.len() && sync_pair::in_range(plan.pairs@, 0, k as int, l1[j].info().url) ==> pair_kept_or_synced(
                        l1[j],
                        #[trigger] self.local.calendars()[j],
                        rem1.items_of(l1[j].info().url),
                        self.remote.items_of(l1[j].info().url),
                        sync_pair::clean(p2, *progress),
                    ),
                self.remote.calendars_model() == rem1.calendars_model(),
                forall|u: Seq<char>| !sync_pair::in_range(plan.pairs@, 0, k as int, u) ==> #[trigger] self.remote.items_of(u) == rem1.items_of(u),
                progress.n_errors() >= p2.n_errors(),
            decreases plan.pairs@.len() - k,
        {
            let url = plan.pairs[k].as_str();
            let ghost u = plan.pairs@[k as int]@;
            let ghost cals = self.local.calendars();
            let ghost remb = self.remote;
            let ghost pb = *progress;
            assert(!sync_pair::in_range(plan.pairs@, 0, k as int, u)) by {
                if sync_pair::in_range(plan.pairs@, 0, k as int, u) {
                    let q = choose|q: int| 0 <= q < k && #[trigger] plan.pairs@[q]@ == u;
                    assert(plan.pairs@[q]@ != plan.pairs@[k as int]@);
                }
            }
            let res = self.sync_held_pair(url, progress);
            proof {
                assert(sync_pair::in_range(plan.pairs@, 0, k + 1, u)) by {
                    assert(plan.pairs@[k as int]@ == u);
                }
                assert forall|w: Seq<char>| !sync_pair::in_range(plan.pairs@, 0, k + 1, w) implies #[trigger] self.remote.items_of(w) == rem1.items_of(w) by {
                    assert(!sync_pair::in_range(plan.pairs@, 0, k as int, w)) by {
                        if sync_pair::in_range(plan.pairs@, 0, k as int, w) {
                            let q = choose|q: int| 0 <= q < k && #[trigger] plan.pairs@[q]@ == w;
                            assert(sync_pair::in_range(plan.pairs@, 0, k + 1, w));
                        }
                    }
                    assert(w != u);
                }
                assert forall|j: int| 0 <= j < l1.len() && !sync_pair::in_range(plan.pairs@, 0, k + 1, l1[j].info().url) implies #[trigger] self.local.calendars()[j]
                        == l1[j] by {
                    assert(!sync_pair::in_range(plan.pairs@, 0, k as int, l1[j].info().url)) by {
                        if sync_pair::in_range(plan.pairs@, 0, k as int, l1[j].info().url) {
                            let q = choose|q: int| 0 <= q < k && #[trigger] plan.pairs@[q]@ == l1[j].info().url;
                            assert(sync_pair::in_range(plan.pairs@, 0, k + 1, l1[j].info().url));
                        }
                    }
                    assert(cals[j].info().url != u);
                }
                assert forall|j: int| 0 <= j < l1.len() && sync_pair::in_range(plan.pairs@, 0, k + 1, l1[j].info().url) implies pair_kept_or_synced(
                        l1[j],
                        #[trigger] self.local.calendars()[j],
                        rem1.items_of(l1[j].info().url),
                        self.remote.items_of(l1[j].info().url),
                        sync_pair::clean(p2, *progress),
                    ) by {
                    let w = l1[j].info().url;
                    if w == u {
                        assert(cals[j] == l1[j]);
                        assert(remb.items_of(u) == rem1.items_of(u));
                        lemma_pair_weaken(l1[j], self.local.calendars()[j], rem1.items_of(u), self.remote.items_of(u), sync_pair::clean(pb, *progress), sync_pair::clean(p2, *progress));
                    } else {
                        assert(sync_pair::in_range(plan.pairs@, 0, k as int, w)) by {
                            let q = choose|q: int| 0 <= q < k + 1 && #[trigger] plan.pairs@[q]@ == w;
                            assert(q != k);
                        }
                        assert(self.local.calendars()[j] == cals[j]);
                        assert(self.remote.items_of(w) == remb.items_of(w));
                        lemma_pair_weaken(l1[j], cals[j], rem1.items_of(w), remb.items_of(w), sync_pair::clean(p2, pb), sync_pair::clean(p2, *progress));
                    }
                }
            }
            k = k + 1;
        }
        proof {
            let a = *old(self);
            let r0 = a.remote_view();
            let l = self.local.calendars();
            let success = sync_pair::clean(*old(progress), *progress);
            assert(l0 == a.local_view().calendars());
            // The listing and the local infos name the calendars of each side.
            assert forall|u: Seq<char>| #[trigger] infos_have(listing@, u) == r0.calendars_model().contains_key(u) by {
                if infos_have(listing@, u) {
                    let q = choose|q: int| 0 <= q < listing@.len() && #[trigger] listing@[q].url@ == u;
                }
            }
            assert forall|u: Seq<char>| #[trigger] infos_have(local_infos@, u) == a.local_view().has_calendar(u) by {
                if infos_have(local_infos@, u) {
                    let q = choose|q: int| 0 <= q < local_infos@.len() && #[trigger] local_infos@[q].url@ == u;
                    assert(l0[q].info().url == u);
                }
                if a.local_view().has_calendar(u) {
                    let q = choose|q: int| 0 <= q < l0.len() && #[trigger] l0[q].info().url == u;
                    assert(local_infos@[q].url@ == u);
                }
            }
            assert(rem0.calendars_model() == r0.calendars_model());
            assert forall|u: Seq<char>| #[trigger] r0.calendars_model().contains_key(u) implies rem0.items_of(u) == r0.items_of(u)
                && rem0.calendars_model()[u] == r0.calendars_model()[u] && rem1.items_of(u) == r0.items_of(u) by {
                assert(rem0.items_of(u) == r0.items_of(u));
                assert(rem0.calendars_model().contains_key(u));
                assert(rem1.calendars_model().contains_key(u));
            }
            assert forall|j: int| 0 <= j < l0.len() implies (#[trigger] l[j]).info() == l0[j].info() && exists|rm0: Map<Seq<char>, ItemView>|
                (rm0 == r0.items_of(l0[j].info().url) || (!r0.calendars_model().contains_key(l0[j].info().url)
                    && rm0 == Map::<Seq<char>, ItemView>::empty())) && #[trigger] pair_kept_or_synced(
                    l0[j],
                    l[j],
                    rm0,
                    self.remote.items_of(l0[j].info().url),
                    success,
                ) by {
                let u = l0[j].info().url;
                assert(l1[j] == l0[j]);
                assert(infos_have(local_infos@, u)) by {
                    assert(local_infos@[j].url@ == u);
                }
                assert(classify::seq_has(plan.pairs@, u));
                let q = choose|q: int| 0 <= q < plan.pairs@.len() && #[trigger] plan.pairs@[q]@ == u;
                assert(sync_pair::in_range(plan.pairs@, 0, plan.pairs@.len() as int, u));
                lemma_pair_weaken(l1[j], l[j], rem1.items_of(u), self.remote.items_of(u), sync_pair::clean(p2, *progress), success);
            }
            assert forall|j: int| l0.len() <= j < l.len() implies r0.calendars_model().contains_key((#[trigger] l[j]).info().url)
                && r0.calendars_model()[l[j].info().url] == l[j].info() && exists|c0: CachedCalendar|
                c0.info() == l[j].info() && c0.items() == Map::<Seq<char>, ItemView>::empty() && #[trigger] pair_kept_or_synced(
                    c0,
                    l[j],
                    r0.items_of(l[j].info().url),
                    self.remote.items_of(l[j].info().url),
                    success,
                ) by {
                let u = l1[j].info().url;
                assert(rem0.calendars_model().contains_key(u));
                assert(infos_have(listing@, u));
                assert(classify::seq_has(plan.pairs@, u));
                let q = choose|q: int| 0 <= q < plan.pairs@.len() && #[trigger] plan.pairs@[q]@ == u;
                assert(sync_pair::in_range(plan.pairs@, 0, plan.pairs@.len() as int, u));
                lemma_pair_weaken(l1[j], l[j], rem1.items_of(u), self.remote.items_of(u), sync_pair::clean(p2, *progress), success);
            }
            if success {
                assert(sync_pair::clean(p0, p1) && sync_pair::clean(p1, p2));
                assert forall|u: Seq<char>| #[trigger] self.local_view().has_calendar(u) <==> self.remote.calendars_model().contains_key(u) by {
                    if self.local_view().has_calendar(u) {
                        let j = choose|j: int| 0 <= j < l.len() && #[trigger] l[j].info().url == u;
                        assert(l[j].info() == l1[j].info());
                        if j < l0.len() {
                            assert(l1[j] == l0[j]);
                            assert(a.local_view().has_calendar(u));
                            if !r0.calendars_model().contains_key(u) {
                                assert(infos_have(local_infos@, u) && !infos_have(listing@, u));
                                assert(infos_have(plan.create_remotely@, u));
                                let q = choose|q: int| 0 <= q < plan.create_remotely@.len() && #[trigger] plan.create_remotely@[q].url@ == u;
                            }
                        }
                    }
                    if self.remote.calendars_model().contains_key(u) {
                        if r0.calendars_model().contains_key(u) {
                            if !a.local_view().has_calendar(u) {
                                assert(infos_have(listing@, u) && !infos_have(local_infos@, u));
                                assert(infos_have(plan.create_locally@, u));
                                let q = choose|q: int| 0 <= q < plan.create_locally@.len() && #[trigger] plan.create_locally@[q].url@ == u;
                                assert(calendars_hold(l1, u));
                                let j = choose|j: int| 0 <= j < l1.len() && #[trigger] l1[j].info().url == u;
                                assert(l[j].info().url == u);
                            } else {
                                let j = choose|j: int| 0 <= j < l0.len() && #[trigger] l0[j].info().url == u;
                                assert(l[j].info() == l0[j].info());
                            }
                        } else {
                            assert(infos_have(plan.create_remotely@, u));
                            let q = choose|q: int| 0 <= q < plan.create_remotely@.len() && #[trigger] plan.create_remotely@[q].url@ == u;
                            assert(!infos_have(listing@, u));
                            let jj = choose|jj: int| 0 <= jj < local_infos@.len() && local_infos@[jj]@ == plan.create_remotely@[q]@;
                            assert(l[jj].info() == l0[jj].info());
                            assert(l[jj].info().url == u);
                        }
                    }
                }
                assert forall|j: int| 0 <= j < l0.len() && !r0.calendars_model().contains_key(#[trigger] l0[j].info().url)
                    implies self.remote.calendars_model()[l0[j].info().url] == l0[j].info() by {
                    let u = l0[j].info().url;
                    assert(local_infos@[j].url@ == u);
                    assert(infos_have(local_infos@, u) && !infos_have(listing@, u));
                    assert(infos_have(plan.create_remotely@, u));
                    let q = choose|q: int| 0 <= q < plan.create_remotely@.len() && #[trigger] plan.create_remotely@[q].url@ == u;
                    let jj = choose|jj: int| 0 <= jj < local_infos@.len() && local_infos@[jj]@ == plan.create_remotely@[q]@;
                    assert(local_infos@[jj].url@ == local_infos@[j].url@);
                    if jj != j {
                        assert(l0[jj].info().url != l0[j].info().url);
                    }
                }
            }
        }
    }
}

/// Whether a list of strings holds this text.
pub fn contains_str(v: &Vec<String>, s: &str) -> (r: bool)
    ensures
        r == classify::seq_has(v@, s@),
{
    let mut i: usize = 0;
    while i < v.len()
        invariant
            i <= v@.len(),
            forall|j: int| 0 <= j < i ==> #[trigger] v@[j]@ != s@,
        decreases v@.len() - i,
    {
        if crate::utils::str_eq(v[i].as_str(), s) {
            return true;
        }
        i = i + 1;
    }
    false
}

} // verus!
