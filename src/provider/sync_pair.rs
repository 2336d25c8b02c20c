//! Phase B of the reconciliation of a calendar pair: the change sets are applied in an order
//! that keeps every intermediate state safe to resume from.
//!
//! Each URL has two copies that the reconciliation may change: the local item, and the item
//! that the server holds. The contracts below say, for each class of URL, which pairs of
//! copies a step may leave, and which pair a step that succeeded leaves.

use vstd::prelude::*;
use vstd::string::StringExecFns;

use crate::calendar::cached_calendar::{
    fetched_as_requested,
    lemma_with_own_status,
    lists_tags_of,
    tag_urls_distinct,
    CachedCalendar,
};
use crate::error::ErrorKind;
use crate::item::{Item, ItemView, SyncStatus, SyncStatusView, VersionTag};
use crate::provider::classify::{
    class_at,
    classify,
    is_class_list,
    seq_has,
    strings_distinct,
    tag_at,
    ChangeClass,
    ChangeSets,
};
use crate::provider::sync_progress::{extends, SyncEvent, SyncProgress};
use crate::traits::{model_ok, synced_items, DavSource};

verus! {

/// How many items one batched fetch asks the server for.
pub const DOWNLOAD_BATCH_SIZE: usize = 30;

/// The item at a URL of a map, if any.
pub open spec fn item_at(m: Map<Seq<char>, ItemView>, u: Seq<char>) -> Option<ItemView> {
    if m.contains_key(u) {
        Some(m[u])
    } else {
        None
    }
}

/// `x` is the local item `before`, moved to the `Synced` status that the server answered.
pub open spec fn uploaded(before: Option<ItemView>, x: ItemView) -> bool {
    before matches Some(y) && x.sync_status() is Synced && x == y.with_sync_status(x.sync_status())
}

/// The pairs (local copy, server copy) that URL `u` may reach during the reconciliation, from
/// the pair (`before`, `rbefore`) it had when the pair was classified, given its class.
/// Staying as it was is always allowed: every step may fail and leave it for the next sync.
///
/// - Nothing happens to a URL that needs nothing, nor to a reused URL.
/// - A remote deletion may only remove the local copy.
/// - A local deletion may only remove the server copy, then the local one.
/// - A remote addition or change may only make the local copy the server's item.
/// - A local addition or change may only store the local item on the server, at the version
///   the server answered, and then take that status locally.
pub open spec fn allowed_outcome(
    c: ChangeClass,
    before: Option<ItemView>,
    after: Option<ItemView>,
    rbefore: Option<ItemView>,
    rafter: Option<ItemView>,
) -> bool {
    match c {
        ChangeClass::NoOp | ChangeClass::UrlReuse => after == before && rafter == rbefore,
        ChangeClass::RemoteDeletion => (after == before || after is None) && rafter == rbefore,
        ChangeClass::LocalDeletion => (after == before || after is None) && (rafter == rbefore
            || rafter is None),
        ChangeClass::RemoteAddition | ChangeClass::RemoteChange => (after == before || after
            == rbefore) && rafter == rbefore,
        ChangeClass::LocalAddition | ChangeClass::LocalChange => (after == before && rafter
            == rbefore) || (rafter matches Some(x) && uploaded(before, x) && (after == before
            || after == rafter)),
    }
}

/// The pair that URL `u` reaches once the step for its class has succeeded: both copies gone
/// for a deletion; the server's item on both sides for a remote addition or change; for a
/// local addition or change, the local item stored on the server at the version it answered,
/// and the same on the local side.
pub open spec fn full_outcome(
    c: ChangeClass,
    before: Option<ItemView>,
    after: Option<ItemView>,
    rbefore: Option<ItemView>,
    rafter: Option<ItemView>,
) -> bool {
    match c {
        ChangeClass::NoOp | ChangeClass::UrlReuse => after == before && rafter == rbefore,
        ChangeClass::LocalDeletion | ChangeClass::RemoteDeletion => after is None && rafter is None,
        ChangeClass::RemoteAddition | ChangeClass::RemoteChange => rbefore is Some && after
            == rbefore && rafter == rbefore,
        ChangeClass::LocalAddition | ChangeClass::LocalChange => rafter matches Some(x) && uploaded(
            before,
            x,
        ) && after == rafter,
    }
}

/// The outcome predicate `p` holds at every URL, for the local calendar `local0` and the server
/// items `r0` when the pair was classified against the listing `remote`, and the current local
/// items `now` and server items `rnow`.
pub open spec fn allowed_everywhere(
    local0: CachedCalendar,
    remote: Seq<(String, VersionTag)>,
    r0: Map<Seq<char>, ItemView>,
    now: Map<Seq<char>, ItemView>,
    rnow: Map<Seq<char>, ItemView>,
) -> bool {
    forall|u: Seq<char>|
        #[trigger] allowed_outcome(
            class_at(local0, remote, u),
            item_at(local0.items(), u),
            item_at(now, u),
            item_at(r0, u),
            item_at(rnow, u),
        )
}

/// Every URL has reached the full outcome of its class.
pub open spec fn completed_everywhere(
    local0: CachedCalendar,
    remote: Seq<(String, VersionTag)>,
    r0: Map<Seq<char>, ItemView>,
    now: Map<Seq<char>, ItemView>,
    rnow: Map<Seq<char>, ItemView>,
) -> bool {
    forall|u: Seq<char>|
        #[trigger] full_outcome(
            class_at(local0, remote, u),
            item_at(local0.items(), u),
            item_at(now, u),
            item_at(r0, u),
            item_at(rnow, u),
        )
}

/// Every URL whose class is in `done` has reached its full outcome.
pub open spec fn settled(
    local0: CachedCalendar,
    remote: Seq<(String, VersionTag)>,
    r0: Map<Seq<char>, ItemView>,
    now: Map<Seq<char>, ItemView>,
    rnow: Map<Seq<char>, ItemView>,
    done: Set<ChangeClass>,
) -> bool {
    forall|u: Seq<char>|
        #[trigger] done.contains(class_at(local0, remote, u)) ==> full_outcome(
            class_at(local0, remote, u),
            item_at(local0.items(), u),
            item_at(now, u),
            item_at(r0, u),
            item_at(rnow, u),
        )
}

/// Both copies of every URL whose class is not in `touched` are as they were.
pub open spec fn untouched_outside(
    local0: CachedCalendar,
    remote: Seq<(String, VersionTag)>,
    r0: Map<Seq<char>, ItemView>,
    now: Map<Seq<char>, ItemView>,
    rnow: Map<Seq<char>, ItemView>,
    touched: Set<ChangeClass>,
) -> bool {
    forall|u: Seq<char>|
        !#[trigger] touched.contains(class_at(local0, remote, u)) ==> item_at(now, u) == item_at(
            local0.items(),
            u,
        ) && item_at(rnow, u) == item_at(r0, u)
}

/// A step for class `c` changed no copy of a URL of another class.
pub open spec fn frame_outside(
    local0: CachedCalendar,
    remote: Seq<(String, VersionTag)>,
    m0: Map<Seq<char>, ItemView>,
    m1: Map<Seq<char>, ItemView>,
    rm0: Map<Seq<char>, ItemView>,
    rm1: Map<Seq<char>, ItemView>,
    c: ChangeClass,
) -> bool {
    forall|u: Seq<char>|
        #[trigger] class_at(local0, remote, u) != c ==> item_at(m1, u) == item_at(m0, u) && item_at(
            rm1,
            u,
        ) == item_at(rm0, u)
}

/// The server holds the same calendars, and the same items in every calendar but `cal`.
pub open spec fn remote_frame<R: DavSource>(r0: R, r1: R, cal: Seq<char>) -> bool {
    &&& r1.calendars_model() == r0.calendars_model()
    &&& forall|c: Seq<char>| c != cal ==> #[trigger] r1.items_of(c) == r0.items_of(c)
}

/// No error was reported between two states of a progress tracker.
pub open spec fn clean(p0: SyncProgress, p1: SyncProgress) -> bool {
    p1.n_errors() == p0.n_errors() && p0.n_errors() < u32::MAX
}

/// A listing of the server's items names exactly the URLs it holds, each with the tag of its
/// `Synced` status.
pub proof fn lemma_tag_at_listing(tags: Seq<(String, VersionTag)>, r: Map<Seq<char>, ItemView>)
    requires
        lists_tags_of(tags, r),
        synced_items(r),
    ensures
        forall|u: Seq<char>|
            #[trigger] tag_at(tags, u) == (if r.contains_key(u) {
                r[u].sync_status().tag()
            } else {
                None
            }),
{
    assert forall|u: Seq<char>|
        #[trigger] tag_at(tags, u) == (if r.contains_key(u) {
            r[u].sync_status().tag()
        } else {
            None
        }) by {
        if r.contains_key(u) {
            let k = choose|k: int| 0 <= k < tags.len() && tags[k].0@ == u;
            let j = choose|j: int| 0 <= j < tags.len() && tags[j].0@ == u;
            if j != k {
                assert(tags[j].0@ != tags[k].0@);
            }
        } else if exists|k: int| 0 <= k < tags.len() && tags[k].0@ == u {
            let k = choose|k: int| 0 <= k < tags.len() && tags[k].0@ == u;
            assert(r.contains_key(tags[k].0@));
        }
    }
}

/// Once a reconciliation has completed, with no URL reused, both sides agree: they hold the
/// same URLs; each local item is `Synced` at the version the server holds it at; and each item
/// that was added, changed or uploaded is the same on both sides.
pub proof fn lemma_completed_pair_converges(
    local0: CachedCalendar,
    tags: Seq<(String, VersionTag)>,
    r0: Map<Seq<char>, ItemView>,
    now: Map<Seq<char>, ItemView>,
    rnow: Map<Seq<char>, ItemView>,
)
    requires
        lists_tags_of(tags, r0),
        synced_items(r0),
        completed_everywhere(local0, tags, r0, now, rnow),
        forall|u: Seq<char>| #[trigger] class_at(local0, tags, u) != ChangeClass::UrlReuse,
    ensures
        forall|u: Seq<char>| #[trigger] now.contains_key(u) == rnow.contains_key(u),
        forall|u: Seq<char>|
            #[trigger] now.contains_key(u) ==> now[u].sync_status() is Synced && now[u].sync_status()
                == rnow[u].sync_status(),
        forall|u: Seq<char>|
            #[trigger] now.contains_key(u) && class_at(local0, tags, u) != ChangeClass::NoOp
                ==> now[u] == rnow[u],
{
    lemma_tag_at_listing(tags, r0);
    assert forall|u: Seq<char>| #[trigger] now.contains_key(u) == rnow.contains_key(u) by {
        assert(full_outcome(class_at(local0, tags, u), item_at(local0.items(), u), item_at(now, u), item_at(r0, u), item_at(rnow, u)));
    }
    assert forall|u: Seq<char>|
        #[trigger] now.contains_key(u) implies now[u].sync_status() is Synced && now[u].sync_status()
            == rnow[u].sync_status() by {
        assert(full_outcome(class_at(local0, tags, u), item_at(local0.items(), u), item_at(now, u), item_at(r0, u), item_at(rnow, u)));
    }
    assert forall|u: Seq<char>|
        #[trigger] now.contains_key(u) && class_at(local0, tags, u) != ChangeClass::NoOp
            implies now[u] == rnow[u] by {
        assert(full_outcome(class_at(local0, tags, u), item_at(local0.items(), u), item_at(now, u), item_at(r0, u), item_at(rnow, u)));
    }
}

/// A pair that has completed is converged: classified again against the server's new listing,
/// every URL needs nothing, so a second sync right after a successful one changes nothing.
pub proof fn lemma_completed_pair_needs_nothing(
    local0: CachedCalendar,
    tags: Seq<(String, VersionTag)>,
    r0: Map<Seq<char>, ItemView>,
    local1: CachedCalendar,
    rnow: Map<Seq<char>, ItemView>,
    tags1: Seq<(String, VersionTag)>,
)
    requires
        lists_tags_of(tags, r0),
        synced_items(r0),
        completed_everywhere(local0, tags, r0, local1.items(), rnow),
        forall|u: Seq<char>| #[trigger] class_at(local0, tags, u) != ChangeClass::UrlReuse,
        lists_tags_of(tags1, rnow),
        synced_items(rnow),
    ensures
        forall|u: Seq<char>| #[trigger] class_at(local1, tags1, u) == ChangeClass::NoOp,
{
    lemma_completed_pair_converges(local0, tags, r0, local1.items(), rnow);
    lemma_tag_at_listing(tags1, rnow);
    assert forall|u: Seq<char>| #[trigger] class_at(local1, tags1, u) == ChangeClass::NoOp by {
        if local1.items().contains_key(u) {
            assert(rnow.contains_key(u));
        } else {
            assert(!rnow.contains_key(u));
        }
    }
}

/// Setting a status twice is setting the second.
pub proof fn lemma_status_twice(iv: ItemView, s: SyncStatusView, t: SyncStatusView)
    ensures
        iv.with_sync_status(s).with_sync_status(t) == iv.with_sync_status(t),
        iv.with_sync_status(s).url() == iv.url(),
        iv.with_sync_status(s).sync_status() == s,
{
}

/// A message naming a URL.
pub(crate) fn message(text: &str, url: &str) -> (r: String)
    ensures
        r@ == text@ + url@,
{
    String::from_str(text).concat(url)
}

/// The name of the local item at a URL, or an empty name.
fn item_name(local: &CachedCalendar, url: &str) -> (r: String)
    requires
        local.wf(),
    ensures
        local.items().contains_key(url@) ==> r@ == local.items()[url@].name(),
        !local.items().contains_key(url@) ==> r@ == Seq::<char>::empty(),
{
    match local.get_item_by_url(url) {
        Some(item) => item.name().to_owned(),
        None => String::new(),
    }
}

/// Count one more handled item and tell the observer.
fn report_item(progress: &mut SyncProgress, cal_name: &String, details: String)
    ensures
        extends(*old(progress), *final(progress)),
        final(progress).n_errors() == old(progress).n_errors(),
{
    progress.increment_counter(1);
    let done = progress.counter();
    progress.feedback(SyncEvent::InProgress { calendar: cal_name.clone(), items_done_already: done, details });
}

/// The members of a class list are of that class.
proof fn lemma_class_list_members(
    urls: Seq<String>,
    local0: CachedCalendar,
    tags: Seq<(String, VersionTag)>,
    c: ChangeClass,
)
    requires
        is_class_list(urls, local0, tags, c),
    ensures
        forall|k: int| 0 <= k < urls.len() ==> class_at(local0, tags, #[trigger] urls[k]@) == c,
{
    assert forall|k: int| 0 <= k < urls.len() implies class_at(local0, tags, #[trigger] urls[k]@) == c by {
        assert(seq_has(urls, urls[k]@));
    }
}

/// Whether text `w` is one of `urls[i..k]`.
pub open spec fn in_range(urls: Seq<String>, i: int, k: int, w: Seq<char>) -> bool {
    exists|q: int| i <= q < k && #[trigger] urls[q]@ == w
}

/// After the URLs `urls[i..k]` of class `c` have been worked on, changing their copies alone,
/// the bookkeeping of the step still holds, from position `k` on.
proof fn lemma_step_bookkeeping(
    local0: CachedCalendar,
    tags: Seq<(String, VersionTag)>,
    r0: Map<Seq<char>, ItemView>,
    m0: Map<Seq<char>, ItemView>,
    m1: Map<Seq<char>, ItemView>,
    rm0: Map<Seq<char>, ItemView>,
    rm1: Map<Seq<char>, ItemView>,
    urls: Seq<String>,
    i: int,
    k: int,
    c: ChangeClass,
    done: Set<ChangeClass>,
)
    requires
        0 <= i <= k <= urls.len(),
        is_class_list(urls, local0, tags, c),
        !done.contains(c),
        forall|w: Seq<char>|
            !in_range(urls, i, k, w) ==> #[trigger] item_at(m1, w) == item_at(m0, w) && item_at(rm1, w)
                == item_at(rm0, w),
        untouched_outside(local0, tags, r0, m0, rm0, done.insert(c)),
        forall|q: int|
            i <= q < urls.len() ==> item_at(m0, #[trigger] urls[q]@) == item_at(local0.items(), urls[q]@)
                && item_at(rm0, urls[q]@) == item_at(r0, urls[q]@),
        allowed_everywhere(local0, tags, r0, m0, rm0),
        forall|q: int|
            i <= q < k ==> #[trigger] allowed_outcome(
                c,
                item_at(local0.items(), urls[q]@),
                item_at(m1, urls[q]@),
                item_at(r0, urls[q]@),
                item_at(rm1, urls[q]@),
            ),
    ensures
        untouched_outside(local0, tags, r0, m1, rm1, done.insert(c)),
        forall|q: int|
            k <= q < urls.len() ==> item_at(m1, #[trigger] urls[q]@) == item_at(local0.items(), urls[q]@)
                && item_at(rm1, urls[q]@) == item_at(r0, urls[q]@),
        settled(local0, tags, r0, m0, rm0, done) ==> settled(local0, tags, r0, m1, rm1, done),
        forall|q: int|
            0 <= q < i ==> item_at(m1, #[trigger] urls[q]@) == item_at(m0, urls[q]@) && item_at(rm1, urls[q]@)
                == item_at(rm0, urls[q]@),
        frame_outside(local0, tags, m0, m1, rm0, rm1, c),
        allowed_everywhere(local0, tags, r0, m1, rm1),
{
    lemma_class_list_members(urls, local0, tags, c);
    assert forall|w: Seq<char>| #[trigger] class_at(local0, tags, w) != c implies item_at(m1, w) == item_at(m0, w)
        && item_at(rm1, w) == item_at(rm0, w) by {
        if in_range(urls, i, k, w) {
            let q = choose|q: int| i <= q < k && #[trigger] urls[q]@ == w;
        }
    }
    assert forall|w: Seq<char>| !#[trigger] done.insert(c).contains(class_at(local0, tags, w)) implies item_at(m1, w)
        == item_at(local0.items(), w) && item_at(rm1, w) == item_at(r0, w) by {
        assert(class_at(local0, tags, w) != c);
    }
    assert forall|q: int| k <= q < urls.len() implies item_at(m1, #[trigger] urls[q]@) == item_at(local0.items(), urls[q]@)
        && item_at(rm1, urls[q]@) == item_at(r0, urls[q]@) by {
        if in_range(urls, i, k, urls[q]@) {
            let p = choose|p: int| i <= p < k && #[trigger] urls[p]@ == urls[q]@;
            assert(urls[p]@ != urls[q]@);
        }
    }
    assert forall|q: int| 0 <= q < i implies item_at(m1, #[trigger] urls[q]@) == item_at(m0, urls[q]@)
        && item_at(rm1, urls[q]@) == item_at(rm0, urls[q]@) by {
        if in_range(urls, i, k, urls[q]@) {
            let p = choose|p: int| i <= p < k && #[trigger] urls[p]@ == urls[q]@;
            assert(urls[p]@ != urls[q]@);
        }
    }
    if settled(local0, tags, r0, m0, rm0, done) {
        assert forall|w: Seq<char>| #[trigger] done.contains(class_at(local0, tags, w)) implies full_outcome(
            class_at(local0, tags, w),
            item_at(local0.items(), w),
            item_at(m1, w),
            item_at(r0, w),
            item_at(rm1, w),
        ) by {
            assert(class_at(local0, tags, w) != c);
        }
    }
    assert forall|w: Seq<char>| #[trigger] allowed_outcome(
        class_at(local0, tags, w),
        item_at(local0.items(), w),
        item_at(m1, w),
        item_at(r0, w),
        item_at(rm1, w),
    ) by {
        if in_range(urls, i, k, w) {
            let q = choose|q: int| i <= q < k && #[trigger] urls[q]@ == w;
            assert(allowed_outcome(c, item_at(local0.items(), urls[q]@), item_at(m1, urls[q]@), item_at(r0, urls[q]@), item_at(rm1, urls[q]@)));
        } else {
            assert(allowed_outcome(class_at(local0, tags, w), item_at(local0.items(), w), item_at(m0, w), item_at(r0, w), item_at(rm0, w)));
        }
    }
}

/// Once every URL of a class list has reached its full outcome, the class is settled.
proof fn lemma_step_done(
    local0: CachedCalendar,
    tags: Seq<(String, VersionTag)>,
    r0: Map<Seq<char>, ItemView>,
    m: Map<Seq<char>, ItemView>,
    rm: Map<Seq<char>, ItemView>,
    urls: Seq<String>,
    c: ChangeClass,
    done: Set<ChangeClass>,
    ok: bool,
)
    requires
        is_class_list(urls, local0, tags, c),
        ok ==> settled(local0, tags, r0, m, rm, done),
        ok ==> forall|q: int|
            0 <= q < urls.len() ==> full_outcome(
                c,
                item_at(local0.items(), #[trigger] urls[q]@),
                item_at(m, urls[q]@),
                item_at(r0, urls[q]@),
                item_at(rm, urls[q]@),
            ),
    ensures
        ok ==> settled(local0, tags, r0, m, rm, done.insert(c)),
{
    if ok {
        assert forall|w: Seq<char>| #[trigger] done.insert(c).contains(class_at(local0, tags, w)) implies full_outcome(
            class_at(local0, tags, w),
            item_at(local0.items(), w),
            item_at(m, w),
            item_at(r0, w),
            item_at(rm, w),
        ) by {
            if class_at(local0, tags, w) == c {
                let q = choose|q: int| 0 <= q < urls.len() && #[trigger] urls[q]@ == w;
            }
        }
    }
}

/// The shared bookkeeping of the steps, for class `c` over `urls`, with the local items `m`,
/// the server items `rm` of the calendar, and whether no error was reported yet (`ok`).
pub open spec fn step_state(
    local0: CachedCalendar,
    tags: Seq<(String, VersionTag)>,
    r0: Map<Seq<char>, ItemView>,
    m: Map<Seq<char>, ItemView>,
    rm: Map<Seq<char>, ItemView>,
    urls: Seq<String>,
    i: int,
    c: ChangeClass,
    done: Set<ChangeClass>,
    ok: bool,
) -> bool {
    &&& is_class_list(urls, local0, tags, c)
    &&& !done.contains(c)
    &&& allowed_everywhere(local0, tags, r0, m, rm)
    &&& untouched_outside(local0, tags, r0, m, rm, done.insert(c))
    &&& forall|q: int|
        i <= q < urls.len() ==> item_at(m, #[trigger] urls[q]@) == item_at(local0.items(), urls[q]@)
            && item_at(rm, urls[q]@) == item_at(r0, urls[q]@)
    &&& ok ==> settled(local0, tags, r0, m, rm, done)
    &&& ok ==> forall|q: int|
        0 <= q < i ==> full_outcome(
            c,
            item_at(local0.items(), #[trigger] urls[q]@),
            item_at(m, urls[q]@),
            item_at(r0, urls[q]@),
            item_at(rm, urls[q]@),
        )
}

/// The bookkeeping at the start of the step for class `c`, once the classes in `done` have
/// been worked on.
proof fn lemma_step_start(
    local0: CachedCalendar,
    tags: Seq<(String, VersionTag)>,
    r0: Map<Seq<char>, ItemView>,
    m: Map<Seq<char>, ItemView>,
    rm: Map<Seq<char>, ItemView>,
    urls: Seq<String>,
    c: ChangeClass,
    done: Set<ChangeClass>,
    ok: bool,
)
    requires
        is_class_list(urls, local0, tags, c),
        !done.contains(c),
        allowed_everywhere(local0, tags, r0, m, rm),
        untouched_outside(local0, tags, r0, m, rm, done),
        ok ==> settled(local0, tags, r0, m, rm, done),
    ensures
        step_state(local0, tags, r0, m, rm, urls, 0, c, done, ok),
{
    lemma_class_list_members(urls, local0, tags, c);
    assert forall|u: Seq<char>| !#[trigger] done.insert(c).contains(class_at(local0, tags, u)) implies item_at(m, u)
        == item_at(local0.items(), u) && item_at(rm, u) == item_at(r0, u) by {
        assert(!done.contains(class_at(local0, tags, u)));
    }
    assert forall|q: int| 0 <= q < urls.len() implies item_at(m, #[trigger] urls[q]@) == item_at(local0.items(), urls[q]@)
        && item_at(rm, urls[q]@) == item_at(r0, urls[q]@) by {
        assert(class_at(local0, tags, urls[q]@) == c);
        assert(!done.contains(class_at(local0, tags, urls[q]@)));
    }
}

/// The classes of a listing against the server items it was taken from: a URL the server
/// lists is held there, and one it does not list is not.
proof fn lemma_class_facts(local0: CachedCalendar, tags: Seq<(String, VersionTag)>, r0: Map<Seq<char>, ItemView>)
    requires
        lists_tags_of(tags, r0),
        synced_items(r0),
    ensures
        forall|u: Seq<char>|
            #[trigger] class_at(local0, tags, u) == ChangeClass::RemoteDeletion || class_at(local0, tags, u)
                == ChangeClass::LocalAddition ==> !r0.contains_key(u) && local0.items().contains_key(u),
        forall|u: Seq<char>|
            #[trigger] class_at(local0, tags, u) == ChangeClass::RemoteAddition ==> r0.contains_key(u)
                && !local0.items().contains_key(u),
        forall|u: Seq<char>|
            #[trigger] class_at(local0, tags, u) == ChangeClass::RemoteChange || class_at(local0, tags, u)
                == ChangeClass::LocalChange || class_at(local0, tags, u) == ChangeClass::LocalDeletion
                ==> r0.contains_key(u) && local0.items().contains_key(u),
{
    lemma_tag_at_listing(tags, r0);
}

/// The shared requirements of the steps.
pub open spec fn step_pre<R: DavSource>(
    local0: CachedCalendar,
    tags: Seq<(String, VersionTag)>,
    remote0: R,
    cal: Seq<char>,
    local: CachedCalendar,
    remote: R,
) -> bool {
    &&& local.wf()
    &&& local.mock() is None
    &&& remote.inv()
    &&& model_ok(remote)
    &&& remote_frame(remote0, remote, cal)
    &&& lists_tags_of(tags, remote0.items_of(cal))
    &&& synced_items(remote0.items_of(cal))
}

/// Step 1: push the local deletions to the server; clear each tombstone once the server has
/// deleted the item, and leave it for the next sync otherwise.
fn push_local_deletions<R: DavSource>(
    local: &mut CachedCalendar,
    remote: &mut R,
    cal_url: &str,
    cal_name: &String,
    urls: &Vec<String>,
    Ghost(local0): Ghost<CachedCalendar>,
    Ghost(tags): Ghost<Seq<(String, VersionTag)>>,
    Ghost(remote0): Ghost<R>,
    Ghost(done): Ghost<Set<ChangeClass>>,
    Ghost(ok): Ghost<bool>,
    progress: &mut SyncProgress,
)
    requires
        step_pre(local0, tags, remote0, cal_url@, *old(local), *old(remote)),
        step_state(local0, tags, remote0.items_of(cal_url@), old(local).items(), old(remote).items_of(cal_url@), urls@, 0, ChangeClass::LocalDeletion, done, ok),
    ensures
        extends(*old(progress), *final(progress)),
        step_pre(local0, tags, remote0, cal_url@, *final(local), *final(remote)),
        final(local).info() == old(local).info(),
        final(progress).n_errors() >= old(progress).n_errors(),
        step_state(local0, tags, remote0.items_of(cal_url@), final(local).items(), final(remote).items_of(cal_url@), urls@, urls@.len() as int, ChangeClass::LocalDeletion, done, ok && clean(*old(progress), *final(progress))),
        frame_outside(local0, tags, old(local).items(), final(local).items(), old(remote).items_of(cal_url@), final(remote).items_of(cal_url@), ChangeClass::LocalDeletion),
        urls@.len() == 0 ==> final(progress).n_errors() == old(progress).n_errors(),
{
    let ghost c = ChangeClass::LocalDeletion;
    let ghost r0 = remote0.items_of(cal_url@);
    let ghost m_in = local.items();
    let ghost rm_in = remote.items_of(cal_url@);
    proof {
        lemma_class_list_members(urls@, local0, tags, c);
        lemma_class_facts(local0, tags, r0);
    }
    let mut i: usize = 0;
    while i < urls.len()
        invariant
            extends(*old(progress), *progress),
            step_pre(local0, tags, remote0, cal_url@, *local, *remote),
            local.info() == old(local).info(),
            c == ChangeClass::LocalDeletion,
            r0 == remote0.items_of(cal_url@),
            forall|k: int| 0 <= k < urls@.len() ==> class_at(local0, tags, #[trigger] urls@[k]@) == c,
            forall|u: Seq<char>| #[trigger] class_at(local0, tags, u) == ChangeClass::LocalDeletion ==> r0.contains_key(u) && local0.items().contains_key(u),
            progress.n_errors() >= old(progress).n_errors(),
            urls@.len() == 0 ==> progress.n_errors() == old(progress).n_errors(),
            i <= urls@.len(),
            step_state(local0, tags, r0, local.items(), remote.items_of(cal_url@), urls@, i as int, c, done, ok && clean(*old(progress), *progress)),
            frame_outside(local0, tags, m_in, local.items(), rm_in, remote.items_of(cal_url@), c),
        decreases urls@.len() - i,
    {
        let url = urls[i].as_str();
        let ghost u = urls@[i as int]@;
        let ghost m0 = local.items();
        let ghost rm0 = remote.items_of(cal_url@);
        let ghost p0 = *progress;
        let ghost remote_before = *remote;
        assert(class_at(local0, tags, u) == c);
        report_item(progress, cal_name, item_name(local, url));
        match remote.delete_item(cal_url, url) {
            Err(_) => {
                progress.warn(message("Unable to delete remote item ", url).as_str());
            },
            Ok(()) => {
                if local.immediately_delete_item(url).is_err() {
                    progress.error(message("Unable to permanently delete local item ", url).as_str());
                }
            },
        }
        proof {
            let m1 = local.items();
            let rm1 = remote.items_of(cal_url@);
            assert(in_range(urls@, i as int, i + 1, u));
            assert forall|w: Seq<char>| !in_range(urls@, i as int, i + 1, w) implies #[trigger] item_at(m1, w) == item_at(m0, w)
                && item_at(rm1, w) == item_at(rm0, w) by {
                assert(urls@[i as int]@ == u);
                if w == u {
                    assert(in_range(urls@, i as int, i + 1, w));
                }
            }
            assert forall|q: int| i <= q < i + 1 implies #[trigger] allowed_outcome(
                c,
                item_at(local0.items(), urls@[q]@),
                item_at(m1, urls@[q]@),
                item_at(r0, urls@[q]@),
                item_at(rm1, urls@[q]@),
            ) by {}
            lemma_step_bookkeeping(local0, tags, r0, m0, m1, rm0, rm1, urls@, i as int, i + 1, c, done);
            if ok && clean(*old(progress), *progress) {
                assert(clean(*old(progress), p0));
                assert(item_at(m1, u) is None && item_at(rm1, u) is None);
                assert forall|q: int| 0 <= q < i + 1 implies full_outcome(
                    c,
                    item_at(local0.items(), #[trigger] urls@[q]@),
                    item_at(m1, urls@[q]@),
                    item_at(r0, urls@[q]@),
                    item_at(rm1, urls@[q]@),
                ) by {}
            }
        }
        i = i + 1;
    }
    proof {
        lemma_step_done(local0, tags, r0, local.items(), remote.items_of(cal_url@), urls@, c, done, ok && clean(*old(progress), *progress));
    }
}

/// Step 2: apply the remote deletions locally. This step needs no call to the server, and
/// never fails: every URL of the class loses its local copy.
fn apply_remote_deletions<R: DavSource>(
    local: &mut CachedCalendar,
    cal_name: &String,
    urls: &Vec<String>,
    Ghost(local0): Ghost<CachedCalendar>,
    Ghost(tags): Ghost<Seq<(String, VersionTag)>>,
    Ghost(remote0): Ghost<R>,
    Ghost(remote): Ghost<R>,
    Ghost(cal): Ghost<Seq<char>>,
    Ghost(done): Ghost<Set<ChangeClass>>,
    Ghost(ok): Ghost<bool>,
    progress: &mut SyncProgress,
)
    requires
        step_pre(local0, tags, remote0, cal, *old(local), remote),
        step_state(local0, tags, remote0.items_of(cal), old(local).items(), remote.items_of(cal), urls@, 0, ChangeClass::RemoteDeletion, done, ok),
    ensures
        extends(*old(progress), *final(progress)),
        step_pre(local0, tags, remote0, cal, *final(local), remote),
        final(local).info() == old(local).info(),
        final(progress).n_errors() == old(progress).n_errors(),
        step_state(local0, tags, remote0.items_of(cal), final(local).items(), remote.items_of(cal), urls@, urls@.len() as int, ChangeClass::RemoteDeletion, done, ok),
        forall|q: int| 0 <= q < urls@.len() ==> item_at(final(local).items(), #[trigger] urls@[q]@) is None,
        frame_outside(local0, tags, old(local).items(), final(local).items(), remote.items_of(cal), remote.items_of(cal), ChangeClass::RemoteDeletion),
{
    let ghost c = ChangeClass::RemoteDeletion;
    let ghost r0 = remote0.items_of(cal);
    let ghost rm = remote.items_of(cal);
    let ghost m_in = local.items();
    proof {
        lemma_class_list_members(urls@, local0, tags, c);
        lemma_class_facts(local0, tags, r0);
    }
    let mut i: usize = 0;
    while i < urls.len()
        invariant
            extends(*old(progress), *progress),
            step_pre(local0, tags, remote0, cal, *local, remote),
            local.info() == old(local).info(),
            c == ChangeClass::RemoteDeletion,
            r0 == remote0.items_of(cal),
            rm == remote.items_of(cal),
            forall|k: int| 0 <= k < urls@.len() ==> class_at(local0, tags, #[trigger] urls@[k]@) == c,
            forall|u: Seq<char>| #[trigger] class_at(local0, tags, u) == ChangeClass::RemoteDeletion ==> !r0.contains_key(u) && local0.items().contains_key(u),
            progress.n_errors() == old(progress).n_errors(),
            i <= urls@.len(),
            step_state(local0, tags, r0, local.items(), rm, urls@, i as int, c, done, ok),
            forall|q: int| 0 <= q < i ==> item_at(local.items(), #[trigger] urls@[q]@) is None,
            frame_outside(local0, tags, m_in, local.items(), rm, rm, c),
        decreases urls@.len() - i,
    {
        let url = urls[i].as_str();
        let ghost u = urls@[i as int]@;
        let ghost m0 = local.items();
        assert(class_at(local0, tags, u) == c);
        assert(item_at(m0, u) == item_at(local0.items(), u));
        report_item(progress, cal_name, item_name(local, url));
        if local.immediately_delete_item(url).is_err() {
            progress.warn(message("Unable to delete local item ", url).as_str());
        }
        proof {
            let m1 = local.items();
            assert(in_range(urls@, i as int, i + 1, u));
            assert forall|w: Seq<char>| !in_range(urls@, i as int, i + 1, w) implies #[trigger] item_at(m1, w) == item_at(m0, w)
                && item_at(rm, w) == item_at(rm, w) by {
                if w == u {
                    assert(in_range(urls@, i as int, i + 1, w));
                }
            }
            assert forall|q: int| i <= q < i + 1 implies #[trigger] allowed_outcome(
                c,
                item_at(local0.items(), urls@[q]@),
                item_at(m1, urls@[q]@),
                item_at(r0, urls@[q]@),
                item_at(rm, urls@[q]@),
            ) by {}
            lemma_step_bookkeeping(local0, tags, r0, m0, m1, rm, rm, urls@, i as int, i + 1, c, done);
            assert(item_at(m1, u) is None);
            assert forall|q: int| 0 <= q < i + 1 implies item_at(m1, #[trigger] urls@[q]@) is None by {
                if q < i {
                    assert(item_at(m1, urls@[q]@) == item_at(m0, urls@[q]@));
                }
            }
            if ok {
                assert forall|q: int| 0 <= q < i + 1 implies full_outcome(
                    c,
                    item_at(local0.items(), #[trigger] urls@[q]@),
                    item_at(m1, urls@[q]@),
                    item_at(r0, urls@[q]@),
                    item_at(rm, urls@[q]@),
                ) by {
                    if q < i {
                        assert(item_at(m1, urls@[q]@) == item_at(m0, urls@[q]@));
                    }
                }
            }
        }
        i = i + 1;
    }
    proof {
        lemma_step_done(local0, tags, r0, local.items(), rm, urls@, c, done, ok);
    }
}

/// Store locally a batch of items fetched from the server: with `adding`, each item whose URL
/// is not held yet is added; otherwise each item whose URL is held replaces the local one. An
/// entry that is `None` (the server no longer holds the item), or that cannot be stored,
/// leaves its URL as it is and is reported as an error.
pub fn apply_fetched(
    adding: bool,
    local: &mut CachedCalendar,
    batch: &Vec<String>,
    fetched: &Vec<Option<Item>>,
    progress: &mut SyncProgress,
)
    requires
        old(local).wf(),
        old(local).mock() is None,
        strings_distinct(batch@),
        fetched@.len() == batch@.len(),
        forall|i: int|
            0 <= i < fetched@.len() ==> (#[trigger] fetched@[i] matches Some(it) ==> it@.url() == batch@[i]@
                && it@.sync_status() is Synced),
    ensures
        extends(*old(progress), *final(progress)),
        final(local).wf(),
        final(local).info() == old(local).info(),
        final(local).mock() is None,
        forall|w: Seq<char>| !seq_has(batch@, w) ==> #[trigger] item_at(final(local).items(), w) == item_at(old(local).items(), w),
        forall|i: int|
            0 <= i < batch@.len() ==> #[trigger] item_at(final(local).items(), batch@[i]@) == match fetched@[i] {
                Some(it) => if adding != old(local).items().contains_key(batch@[i]@) {
                    Some(it@)
                } else {
                    item_at(old(local).items(), batch@[i]@)
                },
                None => item_at(old(local).items(), batch@[i]@),
            },
        final(progress).n_errors() >= old(progress).n_errors(),
        (forall|i: int|
            0 <= i < batch@.len() ==> #[trigger] fetched@[i] is Some && adding != old(local).items().contains_key(batch@[i]@))
            ==> final(progress).n_errors() == old(progress).n_errors(),
        !(forall|i: int|
            0 <= i < batch@.len() ==> #[trigger] fetched@[i] is Some && adding != old(local).items().contains_key(batch@[i]@))
            ==> clean(*old(progress), *final(progress)) == false,
{
    let ghost m_in = local.items();
    let mut j: usize = 0;
    while j < fetched.len()
        invariant
            extends(*old(progress), *progress),
            local.wf(),
            local.info() == old(local).info(),
            local.mock() is None,
            m_in == old(local).items(),
            strings_distinct(batch@),
            fetched@.len() == batch@.len(),
            forall|i: int|
                0 <= i < fetched@.len() ==> (#[trigger] fetched@[i] matches Some(it) ==> it@.url() == batch@[i]@
                    && it@.sync_status() is Synced),
            j <= fetched@.len(),
            forall|w: Seq<char>| !in_range(batch@, 0, j as int, w) ==> #[trigger] item_at(local.items(), w) == item_at(m_in, w),
            forall|i: int|
                0 <= i < j ==> #[trigger] item_at(local.items(), batch@[i]@) == match fetched@[i] {
                    Some(it) => if adding != m_in.contains_key(batch@[i]@) {
                        Some(it@)
                    } else {
                        item_at(m_in, batch@[i]@)
                    },
                    None => item_at(m_in, batch@[i]@),
                },
            progress.n_errors() >= old(progress).n_errors(),
            (forall|i: int| 0 <= i < j ==> #[trigger] fetched@[i] is Some && adding != m_in.contains_key(batch@[i]@))
                ==> progress.n_errors() == old(progress).n_errors(),
            !(forall|i: int| 0 <= i < j ==> #[trigger] fetched@[i] is Some && adding != m_in.contains_key(batch@[i]@))
                ==> !clean(*old(progress), *progress),
        decreases fetched@.len() - j,
    {
        let ghost m0 = local.items();
        let ghost u = batch@[j as int]@;
        let ghost p0 = *progress;
        assert(!in_range(batch@, 0, j as int, u)) by {
            if in_range(batch@, 0, j as int, u) {
                let q = choose|q: int| 0 <= q < j && #[trigger] batch@[q]@ == u;
                assert(batch@[q]@ != batch@[j as int]@);
            }
        }
        assert(item_at(m0, u) == item_at(m_in, u));
        match &fetched[j] {
            None => {
                progress.error("An item of the batch has vanished from the server");
                assert(local.items() == m0);
            },
            Some(new_item) => {
                let res = if adding {
                    local.add_item(new_item.clone())
                } else {
                    local.update_item(new_item.clone())
                };
                proof {
                    lemma_with_own_status(new_item@);
                    assert(new_item@.url() == u);
                    assert forall|w: Seq<char>| w != u implies #[trigger] item_at(local.items(), w) == item_at(m0, w) by {}
                }
                if res.is_err() {
                    progress.error(message("Unable to store locally item ", new_item.url()).as_str());
                }
            },
        }
        proof {
            let m1 = local.items();
            assert forall|w: Seq<char>| !in_range(batch@, 0, j + 1, w) implies #[trigger] item_at(m1, w) == item_at(m_in, w) by {
                assert(batch@[j as int]@ == u);
                assert(w != u ==> item_at(m1, w) == item_at(m0, w));
                if w == u {
                    assert(in_range(batch@, 0, j + 1, w));
                }
                assert(!in_range(batch@, 0, j as int, w)) by {
                    if in_range(batch@, 0, j as int, w) {
                        let q = choose|q: int| 0 <= q < j && #[trigger] batch@[q]@ == w;
                        assert(in_range(batch@, 0, j + 1, w));
                    }
                }
            }
            assert forall|i: int| 0 <= i < j + 1 implies #[trigger] item_at(m1, batch@[i]@) == match fetched@[i] {
                Some(it) => if adding != m_in.contains_key(batch@[i]@) {
                    Some(it@)
                } else {
                    item_at(m_in, batch@[i]@)
                },
                None => item_at(m_in, batch@[i]@),
            } by {
                if i < j {
                    assert(batch@[i]@ != u);
                }
            }
            if forall|i: int| 0 <= i < j + 1 ==> #[trigger] fetched@[i] is Some && adding != m_in.contains_key(batch@[i]@) {
                assert forall|i: int| 0 <= i < j implies #[trigger] fetched@[i] is Some && adding != m_in.contains_key(batch@[i]@) by {
                    assert(fetched@[i] is Some && adding != m_in.contains_key(batch@[i]@));
                }
            } else {
                let k = choose|k: int| 0 <= k < j + 1 && !(#[trigger] fetched@[k] is Some && adding != m_in.contains_key(batch@[k]@));
                if k < j {
                    assert(!(forall|i: int| 0 <= i < j ==> #[trigger] fetched@[i] is Some && adding != m_in.contains_key(batch@[i]@)));
                }
            }
        }
        j = j + 1;
    }
    proof {
        assert forall|w: Seq<char>| !seq_has(batch@, w) implies #[trigger] item_at(local.items(), w) == item_at(old(local).items(), w) by {
            if in_range(batch@, 0, j as int, w) {
                let q = choose|q: int| 0 <= q < j && #[trigger] batch@[q]@ == w;
                assert(seq_has(batch@, w));
            }
        }
    }
}

/// The batch of URLs that starts at `start`: the next [`DOWNLOAD_BATCH_SIZE`] URLs, or those
/// left. Successive batches from 0 ask for each URL once.
pub fn next_batch(urls: &Vec<String>, start: usize) -> (r: Vec<String>)
    requires
        start < urls@.len(),
    ensures
        r@.len() == if urls@.len() - start < DOWNLOAD_BATCH_SIZE {
            urls@.len() - start
        } else {
            DOWNLOAD_BATCH_SIZE as int
        },
        forall|b: int| 0 <= b < r@.len() ==> #[trigger] r@[b]@ == urls@[start + b]@,
{
    let mut batch: Vec<String> = Vec::new();
    let mut k: usize = start;
    while k < urls.len() && k - start < DOWNLOAD_BATCH_SIZE
        invariant
            start <= k <= urls@.len(),
            start < urls@.len(),
            batch@.len() == k - start,
            k - start <= DOWNLOAD_BATCH_SIZE,
            forall|b: int| 0 <= b < batch@.len() ==> #[trigger] batch@[b]@ == urls@[start + b]@,
        decreases urls@.len() - k,
    {
        batch.push(urls[k].clone());
        k = k + 1;
    }
    batch
}

/// Steps 3 and 4: fetch the remote additions (`adding`) or the remote changes in batches of
/// [`DOWNLOAD_BATCH_SIZE`], and store each item fetched locally (see [`apply_fetched`]).
fn fetch_and_apply<R: DavSource>(
    adding: bool,
    local: &mut CachedCalendar,
    remote: &mut R,
    cal_url: &str,
    cal_name: &String,
    urls: &Vec<String>,
    Ghost(local0): Ghost<CachedCalendar>,
    Ghost(tags): Ghost<Seq<(String, VersionTag)>>,
    Ghost(remote0): Ghost<R>,
    Ghost(done): Ghost<Set<ChangeClass>>,
    Ghost(ok): Ghost<bool>,
    progress: &mut SyncProgress,
)
    requires
        step_pre(local0, tags, remote0, cal_url@, *old(local), *old(remote)),
        step_state(local0, tags, remote0.items_of(cal_url@), old(local).items(), old(remote).items_of(cal_url@), urls@, 0, if adding { ChangeClass::RemoteAddition } else { ChangeClass::RemoteChange }, done, ok),
    ensures
        extends(*old(progress), *final(progress)),
        step_pre(local0, tags, remote0, cal_url@, *final(local), *final(remote)),
        final(local).info() == old(local).info(),
        final(progress).n_errors() >= old(progress).n_errors(),
        final(remote).items_of(cal_url@) == old(remote).items_of(cal_url@),
        step_state(local0, tags, remote0.items_of(cal_url@), final(local).items(), final(remote).items_of(cal_url@), urls@, urls@.len() as int, if adding { ChangeClass::RemoteAddition } else { ChangeClass::RemoteChange }, done, ok && clean(*old(progress), *final(progress))),
        frame_outside(local0, tags, old(local).items(), final(local).items(), old(remote).items_of(cal_url@), final(remote).items_of(cal_url@), if adding { ChangeClass::RemoteAddition } else { ChangeClass::RemoteChange }),
        urls@.len() == 0 ==> final(progress).n_errors() == old(progress).n_errors(),
{
    let ghost c = if adding {
        ChangeClass::RemoteAddition
    } else {
        ChangeClass::RemoteChange
    };
    let ghost r0 = remote0.items_of(cal_url@);
    let ghost m_in = local.items();
    let ghost rm = remote.items_of(cal_url@);
    proof {
        lemma_class_list_members(urls@, local0, tags, c);
        lemma_class_facts(local0, tags, r0);
    }
    let mut start: usize = 0;
    while start < urls.len()
        invariant
            extends(*old(progress), *progress),
            step_pre(local0, tags, remote0, cal_url@, *local, *remote),
            local.info() == old(local).info(),
            c == if adding { ChangeClass::RemoteAddition } else { ChangeClass::RemoteChange },
            r0 == remote0.items_of(cal_url@),
            rm == remote.items_of(cal_url@),
            rm == old(remote).items_of(cal_url@),
            forall|k: int| 0 <= k < urls@.len() ==> class_at(local0, tags, #[trigger] urls@[k]@) == c,
            forall|u: Seq<char>| #[trigger] class_at(local0, tags, u) == ChangeClass::RemoteAddition ==> r0.contains_key(u) && !local0.items().contains_key(u),
            forall|u: Seq<char>| #[trigger] class_at(local0, tags, u) == ChangeClass::RemoteChange ==> r0.contains_key(u) && local0.items().contains_key(u),
            progress.n_errors() >= old(progress).n_errors(),
            urls@.len() == 0 ==> progress.n_errors() == old(progress).n_errors(),
            start <= urls@.len(),
            step_state(local0, tags, r0, local.items(), rm, urls@, start as int, c, done, ok && clean(*old(progress), *progress)),
            frame_outside(local0, tags, m_in, local.items(), rm, rm, c),
        decreases urls@.len() - start,
    {
        let batch = next_batch(urls, start);
        let k: usize = start + batch.len();
        let ghost m0 = local.items();
        let ghost p0 = *progress;
        proof {
            assert(strings_distinct(batch@)) by {
                assert forall|a: int, b: int| 0 <= a < batch@.len() && 0 <= b < batch@.len() && a != b implies #[trigger] batch@[a]@
                    != #[trigger] batch@[b]@ by {
                    assert(urls@[start + a]@ != urls@[start + b]@);
                }
            }
        }
        match remote.get_items_by_url(cal_url, &batch) {
            Err(_) => {
                progress.warn("Unable to get a batch of items; skipping them");
                proof {
                    lemma_step_bookkeeping(local0, tags, r0, m0, m0, rm, rm, urls@, start as int, k as int, c, done);
                }
            },
            Ok(fetched) => {
                proof {
                    assert forall|i: int| 0 <= i < fetched@.len() implies (#[trigger] fetched@[i] matches Some(it)
                        ==> it@.url() == batch@[i]@ && it@.sync_status() is Synced) by {
                        if fetched@[i] is Some {
                            assert(rm.contains_key(batch@[i]@));
                            assert(synced_items(remote.items_of(cal_url@)));
                        }
                    }
                }
                apply_fetched(adding, local, &batch, &fetched, progress);
                proof {
                    let m1 = local.items();
                    assert forall|w: Seq<char>| !in_range(urls@, start as int, k as int, w) implies #[trigger] item_at(m1, w) == item_at(m0, w)
                        && item_at(rm, w) == item_at(rm, w) by {
                        if seq_has(batch@, w) {
                            let b = choose|b: int| 0 <= b < batch@.len() && #[trigger] batch@[b]@ == w;
                            assert(urls@[start + b]@ == w);
                            assert(in_range(urls@, start as int, k as int, w));
                        }
                    }
                    assert forall|q: int| start <= q < k implies #[trigger] allowed_outcome(
                        c,
                        item_at(local0.items(), urls@[q]@),
                        item_at(m1, urls@[q]@),
                        item_at(r0, urls@[q]@),
                        item_at(rm, urls@[q]@),
                    ) && (fetched@[q - start] is Some && adding != m0.contains_key(urls@[q]@) ==> full_outcome(
                        c,
                        item_at(local0.items(), urls@[q]@),
                        item_at(m1, urls@[q]@),
                        item_at(r0, urls@[q]@),
                        item_at(rm, urls@[q]@),
                    )) by {
                        let b = q - start;
                        assert(batch@[b]@ == urls@[q]@);
                        assert(item_at(m1, batch@[b]@) == match fetched@[b] {
                            Some(it) => if adding != m0.contains_key(batch@[b]@) {
                                Some(it@)
                            } else {
                                item_at(m0, batch@[b]@)
                            },
                            None => item_at(m0, batch@[b]@),
                        });
                        assert(class_at(local0, tags, urls@[q]@) == c);
                    }
                    lemma_step_bookkeeping(local0, tags, r0, m0, m1, rm, rm, urls@, start as int, k as int, c, done);
                    if ok && clean(*old(progress), *progress) {
                        assert(clean(*old(progress), p0));
                        assert forall|i: int| 0 <= i < batch@.len() implies #[trigger] fetched@[i] is Some && adding != m0.contains_key(batch@[i]@) by {
                            let q = start + i;
                            assert(batch@[i]@ == urls@[q]@);
                            assert(class_at(local0, tags, urls@[q]@) == c);
                            assert(rm.contains_key(batch@[i]@));
                        }
                        assert forall|q: int| 0 <= q < k implies full_outcome(
                            c,
                            item_at(local0.items(), #[trigger] urls@[q]@),
                            item_at(m1, urls@[q]@),
                            item_at(r0, urls@[q]@),
                            item_at(rm, urls@[q]@),
                        ) by {
                            if q >= start {
                                assert(fetched@[q - start] is Some);
                                assert(batch@[q - start]@ == urls@[q]@);
                            }
                        }
                    }
                }
                let details = item_name(local, batch[0].as_str());
                progress.increment_counter(batch.len());
                let done_count = progress.counter();
                progress.feedback(
                    SyncEvent::InProgress { calendar: cal_name.clone(), items_done_already: done_count, details },
                );
            },
        }
        start = k;
    }
    proof {
        lemma_step_done(local0, tags, r0, local.items(), rm, urls@, c, done, ok && clean(*old(progress), *progress));
    }
}

/// Take the server's answer to an upload: on `Ok(s)`, the local item at `url` takes exactly
/// the status `s`; on `Err`, it is left as it is and the error is reported.
pub fn apply_push_answer(
    local: &mut CachedCalendar,
    url: &str,
    answer: Result<SyncStatus, ErrorKind>,
    progress: &mut SyncProgress,
)
    requires
        old(local).wf(),
    ensures
        extends(*old(progress), *final(progress)),
        final(local).wf(),
        final(local).info() == old(local).info(),
        final(local).mock() == old(local).mock(),
        final(progress).n_errors() >= old(progress).n_errors(),
        answer matches Ok(s) ==> (old(local).items().contains_key(url@) ==> final(local).items() == old(local).items().insert(
            url@,
            old(local).items()[url@].with_sync_status(s@),
        ) && final(progress).n_errors() == old(progress).n_errors()),
        !(answer is Ok && old(local).items().contains_key(url@)) ==> final(local).items() == old(local).items()
            && !clean(*old(progress), *final(progress)),
{
    match answer {
        Err(_) => {
            progress.error(message("Unable to upload item ", url).as_str());
        },
        Ok(new_status) => {
            if local.set_item_sync_status(url, new_status).is_err() {
                progress.error(message("An uploaded item is locally missing: ", url).as_str());
            }
        },
    }
}

/// Steps 5 and 6: push the local additions (`adding`) or the local changes to the server;
/// once the server has stored an item, take the status it answered (see
/// [`apply_push_answer`]).
fn push_local_items<R: DavSource>(
    adding: bool,
    local: &mut CachedCalendar,
    remote: &mut R,
    cal_url: &str,
    cal_name: &String,
    urls: &Vec<String>,
    Ghost(local0): Ghost<CachedCalendar>,
    Ghost(tags): Ghost<Seq<(String, VersionTag)>>,
    Ghost(remote0): Ghost<R>,
    Ghost(done): Ghost<Set<ChangeClass>>,
    Ghost(ok): Ghost<bool>,
    progress: &mut SyncProgress,
)
    requires
        step_pre(local0, tags, remote0, cal_url@, *old(local), *old(remote)),
        step_state(local0, tags, remote0.items_of(cal_url@), old(local).items(), old(remote).items_of(cal_url@), urls@, 0, if adding { ChangeClass::LocalAddition } else { ChangeClass::LocalChange }, done, ok),
    ensures
        extends(*old(progress), *final(progress)),
        step_pre(local0, tags, remote0, cal_url@, *final(local), *final(remote)),
        final(local).info() == old(local).info(),
        final(progress).n_errors() >= old(progress).n_errors(),
        step_state(local0, tags, remote0.items_of(cal_url@), final(local).items(), final(remote).items_of(cal_url@), urls@, urls@.len() as int, if adding { ChangeClass::LocalAddition } else { ChangeClass::LocalChange }, done, ok && clean(*old(progress), *final(progress))),
        frame_outside(local0, tags, old(local).items(), final(local).items(), old(remote).items_of(cal_url@), final(remote).items_of(cal_url@), if adding { ChangeClass::LocalAddition } else { ChangeClass::LocalChange }),
        urls@.len() == 0 ==> final(progress).n_errors() == old(progress).n_errors(),
{
    let ghost c = if adding {
        ChangeClass::LocalAddition
    } else {
        ChangeClass::LocalChange
    };
    let ghost r0 = remote0.items_of(cal_url@);
    let ghost m_in = local.items();
    let ghost rm_in = remote.items_of(cal_url@);
    proof {
        lemma_class_list_members(urls@, local0, tags, c);
        lemma_class_facts(local0, tags, r0);
    }
    let mut i: usize = 0;
    while i < urls.len()
        invariant
            extends(*old(progress), *progress),
            step_pre(local0, tags, remote0, cal_url@, *local, *remote),
            local.info() == old(local).info(),
            c == if adding { ChangeClass::LocalAddition } else { ChangeClass::LocalChange },
            r0 == remote0.items_of(cal_url@),
            forall|k: int| 0 <= k < urls@.len() ==> class_at(local0, tags, #[trigger] urls@[k]@) == c,
            forall|u: Seq<char>| #[trigger] class_at(local0, tags, u) == ChangeClass::LocalAddition ==> !r0.contains_key(u) && local0.items().contains_key(u),
            forall|u: Seq<char>| #[trigger] class_at(local0, tags, u) == ChangeClass::LocalChange ==> r0.contains_key(u) && local0.items().contains_key(u),
            progress.n_errors() >= old(progress).n_errors(),
            urls@.len() == 0 ==> progress.n_errors() == old(progress).n_errors(),
            i <= urls@.len(),
            step_state(local0, tags, r0, local.items(), remote.items_of(cal_url@), urls@, i as int, c, done, ok && clean(*old(progress), *progress)),
            frame_outside(local0, tags, m_in, local.items(), rm_in, remote.items_of(cal_url@), c),
        decreases urls@.len() - i,
    {
        let url = urls[i].as_str();
        let ghost u = urls@[i as int]@;
        let ghost m0 = local.items();
        let ghost rm0 = remote.items_of(cal_url@);
        let ghost p0 = *progress;
        assert(class_at(local0, tags, u) == c);
        assert(item_at(m0, u) == item_at(local0.items(), u));
        report_item(progress, cal_name, item_name(local, url));
        let item = match local.get_item_by_url(url) {
            None => {
                // Not reached: the item of a local addition or change is held until it is
                // uploaded.
                progress.error(message("An item to upload is locally missing: ", url).as_str());
                i = i + 1;
                continue;
            },
            Some(item) => item.clone(),
        };
        let ghost y = item@;
        assert(y.url() == u) by {
            local.lemma_keys_are_urls();
        }
        let answer = if adding {
            remote.add_item(cal_url, item)
        } else {
            remote.update_item(cal_url, item)
        };
        let ghost ans = answer;
        apply_push_answer(local, url, answer, progress);
        proof {
            let m1 = local.items();
            let rm1 = remote.items_of(cal_url@);
            assert(in_range(urls@, i as int, i + 1, u));
            assert forall|w: Seq<char>| !in_range(urls@, i as int, i + 1, w) implies #[trigger] item_at(m1, w) == item_at(m0, w)
                && item_at(rm1, w) == item_at(rm0, w) by {
                if w == u {
                    assert(in_range(urls@, i as int, i + 1, w));
                }
            }
            if ans is Ok {
                let s = ans->Ok_0;
                lemma_status_twice(y, s@, s@);
                assert(item_at(rm1, u) == Some(y.with_sync_status(s@)));
                assert(item_at(m1, u) == Some(y.with_sync_status(s@)));
            }
            assert forall|q: int| i <= q < i + 1 implies #[trigger] allowed_outcome(
                c,
                item_at(local0.items(), urls@[q]@),
                item_at(m1, urls@[q]@),
                item_at(r0, urls@[q]@),
                item_at(rm1, urls@[q]@),
            ) by {}
            lemma_step_bookkeeping(local0, tags, r0, m0, m1, rm0, rm1, urls@, i as int, i + 1, c, done);
            if ok && clean(*old(progress), *progress) {
                assert(clean(*old(progress), p0));
                assert forall|q: int| 0 <= q < i + 1 implies full_outcome(
                    c,
                    item_at(local0.items(), #[trigger] urls@[q]@),
                    item_at(m1, urls@[q]@),
                    item_at(r0, urls@[q]@),
                    item_at(rm1, urls@[q]@),
                ) by {}
            }
        }
        i = i + 1;
    }
    proof {
        lemma_step_done(local0, tags, r0, local.items(), remote.items_of(cal_url@), urls@, c, done, ok && clean(*old(progress), *progress));
    }
}

/// Apply the change sets of a calendar pair, in the order that keeps a crash or a failure
/// safe to resume from: local deletions pushed, remote deletions applied, remote additions and
/// changes fetched and applied, local additions and changes pushed. Failures are reported to
/// `progress` and leave the URL as it was for the next sync.
///
/// `tags` is the server's listing of the calendar at `cal_url`, taken from its current items.
pub fn reconcile<R: DavSource>(
    local: &mut CachedCalendar,
    remote: &mut R,
    cal_url: &str,
    tags: &Vec<(String, VersionTag)>,
    progress: &mut SyncProgress,
)
    requires
        old(local).wf(),
        old(local).mock() is None,
        old(remote).inv(),
        model_ok(*old(remote)),
        lists_tags_of(tags@, old(remote).items_of(cal_url@)),
    ensures
        extends(*old(progress), *final(progress)),
        final(local).wf(),
        final(local).mock() is None,
        final(local).info() == old(local).info(),
        final(remote).inv(),
        model_ok(*final(remote)),
        remote_frame(*old(remote), *final(remote), cal_url@),
        final(progress).n_errors() >= old(progress).n_errors(),
        allowed_everywhere(*old(local), tags@, old(remote).items_of(cal_url@), final(local).items(), final(remote).items_of(cal_url@)),
        forall|u: Seq<char>| #[trigger] class_at(*old(local), tags@, u) == ChangeClass::RemoteDeletion ==> !final(local).items().contains_key(u),
        clean(*old(progress), *final(progress)) ==> completed_everywhere(*old(local), tags@, old(remote).items_of(cal_url@), final(local).items(), final(remote).items_of(cal_url@))
            && forall|u: Seq<char>| #[trigger] class_at(*old(local), tags@, u) != ChangeClass::UrlReuse,
        (forall|u: Seq<char>| #[trigger] class_at(*old(local), tags@, u) == ChangeClass::NoOp || class_at(*old(local), tags@, u) == ChangeClass::RemoteDeletion)
            ==> final(progress).n_errors() == old(progress).n_errors() && completed_everywhere(
                *old(local),
                tags@,
                old(remote).items_of(cal_url@),
                final(local).items(),
                final(remote).items_of(cal_url@),
            ),
{
    let ghost local0 = *local;
    let ghost remote0 = *remote;
    let ghost r0 = remote0.items_of(cal_url@);
    let ghost t = tags@;
    let cal_name = local.name().to_owned();
    let cs: ChangeSets = classify(local, tags);
    let ghost d0 = Set::<ChangeClass>::empty();
    let ghost d1 = d0.insert(ChangeClass::LocalDeletion);
    let ghost d2 = d1.insert(ChangeClass::RemoteDeletion);
    let ghost d3 = d2.insert(ChangeClass::RemoteAddition);
    let ghost d4 = d3.insert(ChangeClass::RemoteChange);
    let ghost d5 = d4.insert(ChangeClass::LocalAddition);
    let ghost d6 = d5.insert(ChangeClass::LocalChange);
    let ghost all_quiet = forall|u: Seq<char>| #[trigger] class_at(local0, t, u) == ChangeClass::NoOp || class_at(local0, t, u) == ChangeClass::RemoteDeletion;
    proof {
        assert(synced_items(r0));
        assert(allowed_everywhere(local0, t, r0, local0.items(), r0));
        if all_quiet {
            assert(cs.local_deletions@.len() == 0) by {
                if cs.local_deletions@.len() > 0 {
                    assert(seq_has(cs.local_deletions@, cs.local_deletions@[0]@));
                    assert(class_at(local0, t, cs.local_deletions@[0]@) == ChangeClass::LocalDeletion);
                }
            }
            assert(cs.remote_additions@.len() == 0) by {
                if cs.remote_additions@.len() > 0 {
                    assert(seq_has(cs.remote_additions@, cs.remote_additions@[0]@));
                    assert(class_at(local0, t, cs.remote_additions@[0]@) == ChangeClass::RemoteAddition);
                }
            }
            assert(cs.remote_changes@.len() == 0) by {
                if cs.remote_changes@.len() > 0 {
                    assert(seq_has(cs.remote_changes@, cs.remote_changes@[0]@));
                    assert(class_at(local0, t, cs.remote_changes@[0]@) == ChangeClass::RemoteChange);
                }
            }
            assert(cs.local_additions@.len() == 0) by {
                if cs.local_additions@.len() > 0 {
                    assert(seq_has(cs.local_additions@, cs.local_additions@[0]@));
                    assert(class_at(local0, t, cs.local_additions@[0]@) == ChangeClass::LocalAddition);
                }
            }
            assert(cs.local_changes@.len() == 0) by {
                if cs.local_changes@.len() > 0 {
                    assert(seq_has(cs.local_changes@, cs.local_changes@[0]@));
                    assert(class_at(local0, t, cs.local_changes@[0]@) == ChangeClass::LocalChange);
                }
            }
            assert(cs.url_reuses@.len() == 0) by {
                if cs.url_reuses@.len() > 0 {
                    assert(seq_has(cs.url_reuses@, cs.url_reuses@[0]@));
                    assert(class_at(local0, t, cs.url_reuses@[0]@) == ChangeClass::UrlReuse);
                }
            }
        }
    }
    let mut r: usize = 0;
    while r < cs.url_reuses.len()
        invariant
            extends(*old(progress), *progress),
            r <= cs.url_reuses@.len(),
            progress.n_errors() >= old(progress).n_errors(),
            r > 0 ==> !clean(*old(progress), *progress),
            r == 0 ==> progress.n_errors() == old(progress).n_errors(),
        decreases cs.url_reuses@.len() - r,
    {
        progress.error(message("URL reuse between remote and local sources; ignoring ", cs.url_reuses[r].as_str()).as_str());
        r = r + 1;
    }
    let ghost p1 = *progress;
    push_local_deletions(local, remote, cal_url, &cal_name, &cs.local_deletions, Ghost(local0), Ghost(t), Ghost(remote0), Ghost(d0), Ghost(clean(*old(progress), *progress)), progress);
    let ghost p2 = *progress;
    let ghost m2 = local.items();
    let ghost rm2 = remote.items_of(cal_url@);
    proof {
        assert(clean(*old(progress), *progress) ==> clean(p1, *progress));
        lemma_step_start(local0, t, r0, m2, rm2, cs.remote_deletions@, ChangeClass::RemoteDeletion, d1, clean(*old(progress), *progress));
    }
    apply_remote_deletions::<R>(local, &cal_name, &cs.remote_deletions, Ghost(local0), Ghost(t), Ghost(remote0), Ghost(*remote), Ghost(cal_url@), Ghost(d1), Ghost(clean(*old(progress), *progress)), progress);
    let ghost m3 = local.items();
    proof {
        assert forall|u: Seq<char>| #[trigger] class_at(local0, t, u) == ChangeClass::RemoteDeletion implies !m3.contains_key(u) by {
            assert(seq_has(cs.remote_deletions@, u));
            let q = choose|q: int| 0 <= q < cs.remote_deletions@.len() && #[trigger] cs.remote_deletions@[q]@ == u;
            assert(item_at(m3, cs.remote_deletions@[q]@) is None);
        }
    }
    let ghost p3 = *progress;
    proof {
        assert(clean(*old(progress), *progress) ==> clean(p1, *progress));
        lemma_step_start(local0, t, r0, local.items(), remote.items_of(cal_url@), cs.remote_additions@, ChangeClass::RemoteAddition, d2, clean(*old(progress), *progress));
    }
    fetch_and_apply(true, local, remote, cal_url, &cal_name, &cs.remote_additions, Ghost(local0), Ghost(t), Ghost(remote0), Ghost(d2), Ghost(clean(*old(progress), *progress)), progress);
    let ghost m4 = local.items();
    let ghost rm4 = remote.items_of(cal_url@);
    proof {
        assert(clean(*old(progress), *progress) ==> clean(p1, *progress));
        lemma_step_start(local0, t, r0, local.items(), remote.items_of(cal_url@), cs.remote_changes@, ChangeClass::RemoteChange, d3, clean(*old(progress), *progress));
    }
    fetch_and_apply(false, local, remote, cal_url, &cal_name, &cs.remote_changes, Ghost(local0), Ghost(t), Ghost(remote0), Ghost(d3), Ghost(clean(*old(progress), *progress)), progress);
    let ghost m5 = local.items();
    let ghost rm5 = remote.items_of(cal_url@);
    proof {
        assert(clean(*old(progress), *progress) ==> clean(p1, *progress));
        lemma_step_start(local0, t, r0, local.items(), remote.items_of(cal_url@), cs.local_additions@, ChangeClass::LocalAddition, d4, clean(*old(progress), *progress));
    }
    push_local_items(true, local, remote, cal_url, &cal_name, &cs.local_additions, Ghost(local0), Ghost(t), Ghost(remote0), Ghost(d4), Ghost(clean(*old(progress), *progress)), progress);
    let ghost m6 = local.items();
    let ghost rm6 = remote.items_of(cal_url@);
    proof {
        assert(clean(*old(progress), *progress) ==> clean(p1, *progress));
        lemma_step_start(local0, t, r0, local.items(), remote.items_of(cal_url@), cs.local_changes@, ChangeClass::LocalChange, d5, clean(*old(progress), *progress));
    }
    push_local_items(false, local, remote, cal_url, &cal_name, &cs.local_changes, Ghost(local0), Ghost(t), Ghost(remote0), Ghost(d5), Ghost(clean(*old(progress), *progress)), progress);
    proof {
        let m = local.items();
        let rmf = remote.items_of(cal_url@);
        assert forall|u: Seq<char>| #[trigger] class_at(local0, t, u) == ChangeClass::RemoteDeletion implies !m.contains_key(u) by {
            assert(!m3.contains_key(u));
            assert(item_at(m4, u) == item_at(m3, u));
            assert(item_at(m5, u) == item_at(m4, u));
            assert(item_at(m6, u) == item_at(m5, u));
            assert(item_at(m, u) == item_at(m6, u));
        }
        if clean(*old(progress), *progress) {
            assert forall|u: Seq<char>| #[trigger] full_outcome(
                class_at(local0, t, u),
                item_at(local0.items(), u),
                item_at(m, u),
                item_at(r0, u),
                item_at(rmf, u),
            ) by {
                if !d6.contains(class_at(local0, t, u)) {
                    assert(item_at(m, u) == item_at(local0.items(), u));
                } else {
                    assert(settled(local0, t, r0, m, rmf, d6));
                }
            }
            assert forall|u: Seq<char>| #[trigger] class_at(local0, t, u) != ChangeClass::UrlReuse by {
                if class_at(local0, t, u) == ChangeClass::UrlReuse {
                    let k = choose|k: int| 0 <= k < cs.url_reuses@.len() && #[trigger] cs.url_reuses@[k]@ == u;
                }
            }
        }
        if all_quiet {
            lemma_class_facts(local0, t, r0);
            assert forall|u: Seq<char>| #[trigger] full_outcome(
                class_at(local0, t, u),
                item_at(local0.items(), u),
                item_at(m, u),
                item_at(r0, u),
                item_at(rmf, u),
            ) by {
                if class_at(local0, t, u) == ChangeClass::RemoteDeletion {
                    assert(item_at(rmf, u) == item_at(rm6, u));
                    assert(item_at(rm6, u) == item_at(rm5, u));
                    assert(item_at(rm5, u) == item_at(rm4, u));
                    assert(item_at(rm4, u) == item_at(rm2, u));
                    assert(item_at(rm2, u) == item_at(r0, u));
                } else {
                    assert(!d6.contains(class_at(local0, t, u)));
                    assert(item_at(m, u) == item_at(local0.items(), u));
                }
            }
        }
    }
}

/// Reconcile a local calendar with its remote counterpart: list the server's versions, then
/// [`reconcile`]. When the listing fails, nothing is changed and the error is returned.
pub fn sync_calendar_pair<R: DavSource>(
    local: &mut CachedCalendar,
    remote: &mut R,
    cal_url: &str,
    progress: &mut SyncProgress,
) -> (r: Result<(), ErrorKind>)
    requires
        old(local).wf(),
        old(local).mock() is None,
        old(remote).inv(),
        model_ok(*old(remote)),
    ensures
        extends(*old(progress), *final(progress)),
        final(local).wf(),
        final(local).mock() is None,
        final(local).info() == old(local).info(),
        final(remote).inv(),
        model_ok(*final(remote)),
        remote_frame(*old(remote), *final(remote), cal_url@),
        final(progress).n_errors() >= old(progress).n_errors(),
        r is Err ==> final(local).items() == old(local).items() && final(remote).items_of(cal_url@) == old(remote).items_of(cal_url@),
        r is Ok ==> exists|tags: Seq<(String, VersionTag)>|
            #[trigger] lists_tags_of(tags, old(remote).items_of(cal_url@)) && allowed_everywhere(
                *old(local),
                tags,
                old(remote).items_of(cal_url@),
                final(local).items(),
                final(remote).items_of(cal_url@),
            ) && (clean(*old(progress), *final(progress)) ==> completed_everywhere(
                *old(local),
                tags,
                old(remote).items_of(cal_url@),
                final(local).items(),
                final(remote).items_of(cal_url@),
            ) && forall|u: Seq<char>| #[trigger] class_at(*old(local), tags, u) != ChangeClass::UrlReuse),
{
    progress.reset_counter();
    let cal_name = local.name().to_owned();
    progress.feedback(SyncEvent::InProgress { calendar: cal_name, items_done_already: 0, details: String::from_str("started") });
    let tags = match remote.get_item_version_tags(cal_url) {
        Err(e) => return Err(e),
        Ok(t) => t,
    };
    reconcile(local, remote, cal_url, &tags, progress);
    Ok(())
}

} // verus!
