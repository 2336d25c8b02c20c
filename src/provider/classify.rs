//! Phase A of the reconciliation of a calendar pair: every item URL falls in at most one of
//! six change sets, decided from the local sync status and the remote version tag alone.

use vstd::prelude::*;

use crate::calendar::cached_calendar::{tag_urls_distinct, CachedCalendar};
use crate::item::{SyncStatus, SyncStatusView, VersionTag};

verus! {

/// What the reconciliation does with one URL.
#[derive(Clone, Copy, Debug, PartialEq, Eq, Structural)]
pub enum ChangeClass {
    /// Both sides agree, or the URL is on neither side.
    NoOp,
    /// On the server only: fetch it and add it locally.
    RemoteAddition,
    /// Gone from the server: remove the local copy.
    RemoteDeletion,
    /// Changed on the server (and the server wins any conflict): fetch it and replace the
    /// local copy.
    RemoteChange,
    /// Created locally: upload it.
    LocalAddition,
    /// Deleted locally while the server kept the version it had: delete it on the server.
    LocalDeletion,
    /// Modified locally while the server kept the version it had: upload it.
    LocalChange,
    /// Created locally at a URL that the server already holds: skipped, and logged as an error.
    UrlReuse,
}

/// The decision table, from the local status (`None`: no local item) and the remote tag
/// (`None`: not on the server).
pub open spec fn class_of(local: Option<SyncStatusView>, remote: Option<Seq<char>>) -> ChangeClass {
    match (local, remote) {
        (None, None) => ChangeClass::NoOp,
        (None, Some(_)) => ChangeClass::RemoteAddition,
        (Some(SyncStatusView::NotSynced), Some(_)) => ChangeClass::UrlReuse,
        (Some(SyncStatusView::NotSynced), None) => ChangeClass::LocalAddition,
        (Some(SyncStatusView::Synced(v)), Some(t)) => if t == v {
            ChangeClass::NoOp
        } else {
            ChangeClass::RemoteChange
        },
        (Some(SyncStatusView::LocallyModified(v)), Some(t)) => if t == v {
            ChangeClass::LocalChange
        } else {
            ChangeClass::RemoteChange
        },
        (Some(SyncStatusView::LocallyDeleted(v)), Some(t)) => if t == v {
            ChangeClass::LocalDeletion
        } else {
            ChangeClass::RemoteChange
        },
        (Some(_), None) => ChangeClass::RemoteDeletion,
    }
}

/// The tag that a server listing gives for a URL, if it lists the URL.
pub open spec fn tag_at(v: Seq<(String, VersionTag)>, u: Seq<char>) -> Option<Seq<char>> {
    if exists|i: int| 0 <= i < v.len() && v[i].0@ == u {
        Some(v[choose|i: int| 0 <= i < v.len() && v[i].0@ == u].1@)
    } else {
        None
    }
}

/// The local status at a URL, if there is a local item there.
pub open spec fn status_at(local: CachedCalendar, u: Seq<char>) -> Option<SyncStatusView> {
    if local.items().contains_key(u) {
        Some(local.items()[u].sync_status())
    } else {
        None
    }
}

/// The class of a URL, given a local calendar and a server listing.
pub open spec fn class_at(
    local: CachedCalendar,
    remote: Seq<(String, VersionTag)>,
    u: Seq<char>,
) -> ChangeClass {
    class_of(status_at(local, u), tag_at(remote, u))
}

/// Whether a list of strings holds this text.
pub open spec fn seq_has(s: Seq<String>, u: Seq<char>) -> bool {
    exists|i: int| 0 <= i < s.len() && #[trigger] s[i]@ == u
}

/// Whether a list of strings holds each text once.
pub open spec fn strings_distinct(s: Seq<String>) -> bool {
    forall|i: int, j: int|
        0 <= i < s.len() && 0 <= j < s.len() && i != j ==> #[trigger] s[i]@ != #[trigger] s[j]@
}

/// The URLs of one class, each once.
pub open spec fn is_class_list(
    s: Seq<String>,
    local: CachedCalendar,
    remote: Seq<(String, VersionTag)>,
    c: ChangeClass,
) -> bool {
    &&& strings_distinct(s)
    &&& forall|u: Seq<char>| seq_has(s, u) <==> #[trigger] class_at(local, remote, u) == c
}

/// The six change sets of a calendar pair, and the URLs skipped for reuse.
#[derive(Debug)]
pub struct ChangeSets {
    pub remote_additions: Vec<String>,
    pub remote_deletions: Vec<String>,
    pub remote_changes: Vec<String>,
    pub local_additions: Vec<String>,
    pub local_deletions: Vec<String>,
    pub local_changes: Vec<String>,
    pub url_reuses: Vec<String>,
}

impl ChangeSets {
    /// Each list holds exactly the URLs of its class.
    pub open spec fn classifies(
        &self,
        local: CachedCalendar,
        remote: Seq<(String, VersionTag)>,
    ) -> bool {
        &&& is_class_list(self.remote_additions@, local, remote, ChangeClass::RemoteAddition)
        &&& is_class_list(self.remote_deletions@, local, remote, ChangeClass::RemoteDeletion)
        &&& is_class_list(self.remote_changes@, local, remote, ChangeClass::RemoteChange)
        &&& is_class_list(self.local_additions@, local, remote, ChangeClass::LocalAddition)
        &&& is_class_list(self.local_deletions@, local, remote, ChangeClass::LocalDeletion)
        &&& is_class_list(self.local_changes@, local, remote, ChangeClass::LocalChange)
        &&& is_class_list(self.url_reuses@, local, remote, ChangeClass::UrlReuse)
    }

    /// Whether nothing is left to do.
    pub open spec fn all_empty(&self) -> bool {
        &&& self.remote_additions@.len() == 0
        &&& self.remote_deletions@.len() == 0
        &&& self.remote_changes@.len() == 0
        &&& self.local_additions@.len() == 0
        &&& self.local_deletions@.len() == 0
        &&& self.local_changes@.len() == 0
        &&& self.url_reuses@.len() == 0
    }
}

/// The decision table on one URL.
pub fn classify_one(local: Option<&SyncStatus>, remote: Option<&VersionTag>) -> (r: ChangeClass)
    ensures
        r == class_of(
            match local {
                Some(s) => Some(s@),
                None => None,
            },
            match remote {
                Some(t) => Some(t@),
                None => None,
            },
        ),
{
    match (local, remote) {
        (None, None) => ChangeClass::NoOp,
        (None, Some(_)) => ChangeClass::RemoteAddition,
        (Some(SyncStatus::NotSynced), Some(_)) => ChangeClass::UrlReuse,
        (Some(SyncStatus::NotSynced), None) => ChangeClass::LocalAddition,
        (Some(SyncStatus::Synced(v)), Some(t)) => if *t == *v {
            ChangeClass::NoOp
        } else {
            ChangeClass::RemoteChange
        },
        (Some(SyncStatus::LocallyModified(v)), Some(t)) => if *t == *v {
            ChangeClass::LocalChange
        } else {
            ChangeClass::RemoteChange
        },
        (Some(SyncStatus::LocallyDeleted(v)), Some(t)) => if *t == *v {
            ChangeClass::LocalDeletion
        } else {
            ChangeClass::RemoteChange
        },
        (Some(_), None) => ChangeClass::RemoteDeletion,
    }
}

/// Where a URL stands in a server listing, if it is there.
fn find_tag(remote: &Vec<(String, VersionTag)>, url: &String) -> (r: Option<usize>)
    requires
        tag_urls_distinct(remote@),
    ensures
        r matches Some(i) ==> i < remote@.len() && remote@[i as int].0@ == url@ && tag_at(
            remote@,
            url@,
        ) == Some(remote@[i as int].1@),
        r is None ==> tag_at(remote@, url@) is None,
{
    let mut i: usize = 0;
    while i < remote.len()
        invariant
            tag_urls_distinct(remote@),
            i <= remote@.len(),
            forall|j: int| 0 <= j < i ==> #[trigger] remote@[j].0@ != url@,
        decreases remote@.len() - i,
    {
        if remote[i].0 == *url {
            proof {
                assert(remote@[i as int].0@ == url@);
                let k = choose|k: int| 0 <= k < remote@.len() && remote@[k].0@ == url@;
                assert(remote@[k].0@ == remote@[i as int].0@);
            }
            return Some(i);
        }
        i = i + 1;
    }
    None
}

/// The URLs of class `c`, each once.
fn urls_of_class(local: &CachedCalendar, remote: &Vec<(String, VersionTag)>, c: ChangeClass) -> (r:
    Vec<String>)
    requires
        local.wf(),
        tag_urls_distinct(remote@),
        c != ChangeClass::NoOp,
    ensures
        is_class_list(r@, *local, remote@, c),
{
    let mut out: Vec<String> = Vec::new();
    // The URLs on the server only.
    let mut i: usize = 0;
    while i < remote.len()
        invariant
            local.wf(),
            tag_urls_distinct(remote@),
            c != ChangeClass::NoOp,
            i <= remote@.len(),
            strings_distinct(out@),
            forall|u: Seq<char>|
                #![trigger seq_has(out@, u)]
                seq_has(out@, u) <==> (c == ChangeClass::RemoteAddition && !local.items().contains_key(u)
                    && exists|k: int| 0 <= k < i && remote@[k].0@ == u),
        decreases remote@.len() - i,
    {
        let ghost out0 = out@;
        if c == ChangeClass::RemoteAddition && local.get_item_by_url(remote[i].0.as_str()).is_none() {
            out.push(remote[i].0.clone());
            proof {
                let u = remote@[i as int].0@;
                assert(out@[out0.len() as int]@ == u);
                assert forall|a: int, b: int|
                    0 <= a < out@.len() && 0 <= b < out@.len() && a != b implies #[trigger] out@[a]@
                    != #[trigger] out@[b]@ by {
                    if a < out0.len() && b == out0.len() {
                        assert(seq_has(out0, out0[a]@));
                        let k = choose|k: int| 0 <= k < i && remote@[k].0@ == out0[a]@;
                        assert(remote@[k].0@ != remote@[i as int].0@);
                    }
                    if b < out0.len() && a == out0.len() {
                        assert(seq_has(out0, out0[b]@));
                        let k = choose|k: int| 0 <= k < i && remote@[k].0@ == out0[b]@;
                        assert(remote@[k].0@ != remote@[i as int].0@);
                    }
                }
                assert forall|w: Seq<char>| #![trigger seq_has(out@, w)] seq_has(out@, w) <==> (c
                    == ChangeClass::RemoteAddition && !local.items().contains_key(w) && exists|
                    k: int,
                | 0 <= k < i + 1 && remote@[k].0@ == w) by {
                    if seq_has(out@, w) {
                        let a = choose|a: int| 0 <= a < out@.len() && out@[a]@ == w;
                        if a < out0.len() {
                            assert(seq_has(out0, w));
                        }
                    }
                    if c == ChangeClass::RemoteAddition && !local.items().contains_key(w) && exists|
                        k: int,
                    | 0 <= k < i + 1 && remote@[k].0@ == w {
                        let k = choose|k: int| 0 <= k < i + 1 && remote@[k].0@ == w;
                        if k < i {
                            assert(seq_has(out0, w));
                            let a = choose|a: int| 0 <= a < out0.len() && out0[a]@ == w;
                            assert(out@[a]@ == w);
                        } else {
                            assert(out@[out0.len() as int]@ == w);
                        }
                    }
                }
            }
        } else {
            proof {
                assert forall|w: Seq<char>| #![trigger seq_has(out@, w)] seq_has(out@, w) <==> (c
                    == ChangeClass::RemoteAddition && !local.items().contains_key(w) && exists|
                    k: int,
                | 0 <= k < i + 1 && remote@[k].0@ == w) by {
                    if c == ChangeClass::RemoteAddition && !local.items().contains_key(w) && exists|
                        k: int,
                    | 0 <= k < i + 1 && remote@[k].0@ == w {
                        let k = choose|k: int| 0 <= k < i + 1 && remote@[k].0@ == w;
                        assert(k < i);
                    }
                }
            }
        }
        i = i + 1;
    }
    // The URLs held locally.
    let items = local.get_items();
    let mut j: usize = 0;
    while j < items.len()
        invariant
            local.wf(),
            tag_urls_distinct(remote@),
            c != ChangeClass::NoOp,
            j <= items@.len(),
            items@.len() == local.items().len(),
            forall|a: int| 0 <= a < items@.len() ==> local.items().contains_key(#[trigger] items@[a]@.url())
                && local.items()[items@[a]@.url()] == items@[a]@,
            forall|a: int, b: int|
                0 <= a < items@.len() && 0 <= b < items@.len() && a != b ==> #[trigger] items@[a]@.url()
                    != #[trigger] items@[b]@.url(),
            strings_distinct(out@),
            forall|u: Seq<char>|
                #![trigger seq_has(out@, u)]
                seq_has(out@, u) <==> ((c == ChangeClass::RemoteAddition && !local.items().contains_key(u)
                    && exists|k: int| 0 <= k < remote@.len() && remote@[k].0@ == u) || exists|k: int|
                    0 <= k < j && items@[k]@.url() == u && class_at(*local, remote@, u) == c),
        decreases items@.len() - j,
    {
        let ghost out0 = out@;
        let ghost u = items@[j as int]@.url();
        let url = items[j].url_string();
        let tag = match find_tag(remote, url) {
            Some(k) => Some(&remote[k].1),
            None => None,
        };
        let k = classify_one(Some(items[j].sync_status()), tag);
        assert(k == class_at(*local, remote@, u));
        if k == c {
            out.push(url.clone());
            proof {
                assert(out@[out0.len() as int]@ == u);
                assert forall|a: int, b: int|
                    0 <= a < out@.len() && 0 <= b < out@.len() && a != b implies #[trigger] out@[a]@
                    != #[trigger] out@[b]@ by {
                    if a < out0.len() && b == out0.len() {
                        assert(seq_has(out0, out0[a]@));
                        if exists|k: int| 0 <= k < j && items@[k]@.url() == out0[a]@ {
                            let k = choose|k: int| 0 <= k < j && items@[k]@.url() == out0[a]@;
                            assert(items@[k]@.url() != items@[j as int]@.url());
                        }
                    }
                    if b < out0.len() && a == out0.len() {
                        assert(seq_has(out0, out0[b]@));
                        if exists|k: int| 0 <= k < j && items@[k]@.url() == out0[b]@ {
                            let k = choose|k: int| 0 <= k < j && items@[k]@.url() == out0[b]@;
                            assert(items@[k]@.url() != items@[j as int]@.url());
                        }
                    }
                }
                assert forall|w: Seq<char>| #![trigger seq_has(out@, w)] seq_has(out@, w) <==> ((c
                    == ChangeClass::RemoteAddition && !local.items().contains_key(w) && exists|
                    k: int,
                | 0 <= k < remote@.len() && remote@[k].0@ == w) || exists|k: int|
                    0 <= k < j + 1 && items@[k]@.url() == w && class_at(*local, remote@, w) == c) by {
                    if seq_has(out@, w) {
                        let a = choose|a: int| 0 <= a < out@.len() && out@[a]@ == w;
                        if a < out0.len() {
                            assert(seq_has(out0, w));
                        } else {
                            assert(items@[j as int]@.url() == w);
                        }
                    }
                    if exists|k: int| 0 <= k < j + 1 && items@[k]@.url() == w && class_at(*local, remote@, w) == c {
                        let k = choose|k: int| 0 <= k < j + 1 && items@[k]@.url() == w && class_at(*local, remote@, w) == c;
                        if k < j {
                            assert(seq_has(out0, w));
                            let a = choose|a: int| 0 <= a < out0.len() && out0[a]@ == w;
                            assert(out@[a]@ == w);
                        } else {
                            assert(out@[out0.len() as int]@ == w);
                        }
                    }
                    if c == ChangeClass::RemoteAddition && !local.items().contains_key(w) && exists|
                        k: int,
                    | 0 <= k < remote@.len() && remote@[k].0@ == w {
                        assert(seq_has(out0, w));
                        let a = choose|a: int| 0 <= a < out0.len() && out0[a]@ == w;
                        assert(out@[a]@ == w);
                    }
                }
            }
        } else {
            proof {
                assert forall|w: Seq<char>| #![trigger seq_has(out@, w)] seq_has(out@, w) <==> ((c
                    == ChangeClass::RemoteAddition && !local.items().contains_key(w) && exists|
                    k: int,
                | 0 <= k < remote@.len() && remote@[k].0@ == w) || exists|k: int|
                    0 <= k < j + 1 && items@[k]@.url() == w && class_at(*local, remote@, w) == c) by {
                    if exists|k: int| 0 <= k < j + 1 && items@[k]@.url() == w && class_at(*local, remote@, w) == c {
                        let k = choose|k: int| 0 <= k < j + 1 && items@[k]@.url() == w && class_at(*local, remote@, w) == c;
                        assert(k < j);
                    }
                }
            }
        }
        j = j + 1;
    }
    proof {
        assert forall|u: Seq<char>| seq_has(out@, u) <==> #[trigger] class_at(*local, remote@, u) == c by {
            if local.items().contains_key(u) {
                let a = choose|a: int| 0 <= a < items@.len() && items@[a]@.url() == u;
            } else {
                if tag_at(remote@, u) is Some {
                    let k = choose|k: int| 0 <= k < remote@.len() && remote@[k].0@ == u;
                }
            }
        }
    }
    out
}

/// The server wins every conflict: an item edited or deleted locally since version `v`,
/// while the server moved to another version, is a remote change. Its local copy is then
/// replaced by the server's version, and nothing of the local edit is pushed.
pub proof fn lemma_remote_wins(local: SyncStatusView, remote_tag: Seq<char>)
    requires
        local is LocallyModified || local is LocallyDeleted,
        local.tag() != Some(remote_tag),
    ensures
        class_of(Some(local), Some(remote_tag)) == ChangeClass::RemoteChange,
{
}

/// A pair is converged when the local side holds exactly the URLs that the server lists, each
/// `Synced` at the version the server lists for it.
pub open spec fn converged(local: CachedCalendar, remote: Seq<(String, VersionTag)>) -> bool {
    &&& forall|u: Seq<char>| #[trigger]
        local.items().contains_key(u) ==> (tag_at(remote, u) matches Some(t)
            && local.items()[u].sync_status() == SyncStatusView::Synced(t))
    &&& forall|u: Seq<char>| #[trigger] tag_at(remote, u) is Some ==> local.items().contains_key(u)
}

/// Every URL of a converged pair needs nothing.
pub proof fn lemma_converged_is_no_op(local: CachedCalendar, remote: Seq<(String, VersionTag)>)
    requires
        converged(local, remote),
    ensures
        forall|u: Seq<char>| #[trigger] class_at(local, remote, u) == ChangeClass::NoOp,
{
    assert forall|u: Seq<char>| #[trigger] class_at(local, remote, u) == ChangeClass::NoOp by {
        if local.items().contains_key(u) {
        } else if tag_at(remote, u) is Some {
        }
    }
}

/// Syncing a converged pair again has nothing to do: all its change sets are empty, so a
/// second sync right after a successful one changes nothing.
pub proof fn lemma_converged_pair_has_nothing_to_do(
    local: CachedCalendar,
    remote: Seq<(String, VersionTag)>,
    cs: ChangeSets,
)
    requires
        cs.classifies(local, remote),
        converged(local, remote),
    ensures
        cs.all_empty(),
{
    lemma_converged_is_no_op(local, remote);
    if cs.remote_additions@.len() > 0 {
        assert(seq_has(cs.remote_additions@, cs.remote_additions@[0]@));
        assert(class_at(local, remote, cs.remote_additions@[0]@) == ChangeClass::NoOp);
    }
    if cs.remote_deletions@.len() > 0 {
        assert(seq_has(cs.remote_deletions@, cs.remote_deletions@[0]@));
        assert(class_at(local, remote, cs.remote_deletions@[0]@) == ChangeClass::NoOp);
    }
    if cs.remote_changes@.len() > 0 {
        assert(seq_has(cs.remote_changes@, cs.remote_changes@[0]@));
        assert(class_at(local, remote, cs.remote_changes@[0]@) == ChangeClass::NoOp);
    }
    if cs.local_additions@.len() > 0 {
        assert(seq_has(cs.local_additions@, cs.local_additions@[0]@));
        assert(class_at(local, remote, cs.local_additions@[0]@) == ChangeClass::NoOp);
    }
    if cs.local_deletions@.len() > 0 {
        assert(seq_has(cs.local_deletions@, cs.local_deletions@[0]@));
        assert(class_at(local, remote, cs.local_deletions@[0]@) == ChangeClass::NoOp);
    }
    if cs.local_changes@.len() > 0 {
        assert(seq_has(cs.local_changes@, cs.local_changes@[0]@));
        assert(class_at(local, remote, cs.local_changes@[0]@) == ChangeClass::NoOp);
    }
    if cs.url_reuses@.len() > 0 {
        assert(seq_has(cs.url_reuses@, cs.url_reuses@[0]@));
        assert(class_at(local, remote, cs.url_reuses@[0]@) == ChangeClass::NoOp);
    }
}

/// Sort every URL of a calendar pair into its change set.
pub fn classify(local: &CachedCalendar, remote: &Vec<(String, VersionTag)>) -> (r: ChangeSets)
    requires
        local.wf(),
        tag_urls_distinct(remote@),
    ensures
        r.classifies(*local, remote@),
{
    ChangeSets {
        remote_additions: urls_of_class(local, remote, ChangeClass::RemoteAddition),
        remote_deletions: urls_of_class(local, remote, ChangeClass::RemoteDeletion),
        remote_changes: urls_of_class(local, remote, ChangeClass::RemoteChange),
        local_additions: urls_of_class(local, remote, ChangeClass::LocalAddition),
        local_deletions: urls_of_class(local, remote, ChangeClass::LocalDeletion),
        local_changes: urls_of_class(local, remote, ChangeClass::LocalChange),
        url_reuses: urls_of_class(local, remote, ChangeClass::UrlReuse),
    }
}

} // verus!
