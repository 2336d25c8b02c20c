use std::collections::BTreeMap;

use kitchen_fridge::cache::Cache;
use kitchen_fridge::calendar::{Color, SupportedComponents};
use kitchen_fridge::item::{Item, SyncStatus, VersionTag};
use kitchen_fridge::mock_behaviour::MockBehaviour;
use kitchen_fridge::provider::Provider;
use kitchen_fridge::task::{CompletionStatus, Task};
use kitchen_fridge::time::DateTime;
use kitchen_fridge::traits::DavSource;

const CAL: &str = "https://host/cal/C/";

fn url(letter: &str) -> String {
    format!("{}{}", CAL, letter)
}

fn task(letter: &str, name: &str, completed: bool, status: SyncStatus) -> Item {
    let completion = if completed { CompletionStatus::Completed(None) } else { CompletionStatus::Uncompleted };
    Item::Task(Task::new_with_parameters(
        name.to_string(),
        format!("uid-{}", letter),
        url(letter),
        completion,
        status,
        None,
        DateTime { timestamp: 1_600_000_000 },
        String::from("-//test//EN"),
        Vec::new(),
    ))
}

fn synced(tag: &str) -> SyncStatus {
    SyncStatus::Synced(VersionTag::from(tag.to_string()))
}

/// A local cache and a mocked server, each with the calendar `CAL`.
fn empty_pair() -> (Cache, Cache) {
    let mut local = Cache::new();
    let mut remote = Cache::new();
    let comps = SupportedComponents::from_bits(SupportedComponents::TODO);
    local.create_calendar(CAL.to_string(), "C".to_string(), comps, None).unwrap();
    remote.create_calendar(CAL.to_string(), "C".to_string(), comps, None).unwrap();
    (local, remote)
}

fn item(cache: &Cache, letter: &str) -> Option<Item> {
    cache.get_calendar(CAL).unwrap().get_item_by_url(&url(letter)).cloned()
}

/// URL -> (name, completed, status) of the items of `CAL`.
fn contents(cache: &Cache) -> BTreeMap<String, (String, bool, SyncStatus)> {
    let mut out = BTreeMap::new();
    for it in cache.get_calendar(CAL).unwrap().get_items() {
        out.insert(it.url().to_string(), (it.name().to_string(), it.unwrap_task().completed(), it.sync_status().clone()));
    }
    out
}

fn edit_local(cache: &mut Cache, letter: &str, f: impl FnOnce(&mut Task)) {
    let mut it = item(cache, letter).unwrap();
    f(it.unwrap_task_mut());
    cache.update_item_in(CAL, it).unwrap();
}

/// The basic scenario: both sides synced at `v0` with A..H, then edits on both sides.
fn basic_scenario() -> (Cache, Cache) {
    let (mut local, mut remote) = empty_pair();
    for (l, n, done) in [("A", "A", false), ("B", "B", false), ("C", "C", false), ("D", "D", false), ("E", "E", false), ("F", "F", false), ("G", "G", false), ("H", "H", false)] {
        local.add_item_in(CAL, task(l, n, done, synced("v0"))).unwrap();
        remote.add_item_in(CAL, task(l, n, done, synced("v0"))).unwrap();
    }
    // Local: delete C, rename D, complete H, add P.
    local.mark_for_deletion_in(CAL, &url("C")).unwrap();
    edit_local(&mut local, "D", |t| t.set_name("D'".to_string()));
    edit_local(&mut local, "H", |t| t.set_completion_status(CompletionStatus::Completed(None)));
    local.add_item_in(CAL, task("P", "P", false, SyncStatus::NotSynced)).unwrap();
    // Remote: delete B, rename E, complete G, add Q.
    remote.immediately_delete_item_in(CAL, &url("B")).unwrap();
    edit_local(&mut remote, "E", |t| t.mock_remote_calendar_set_name("E'".to_string()));
    edit_local(&mut remote, "G", |t| t.mock_remote_calendar_set_completion_status(CompletionStatus::Completed(None)));
    remote.add_item_in(CAL, task("Q", "Q", false, synced("q0"))).unwrap();
    (local, remote)
}

/// Both sides hold the same URLs with the same names and completion, and each local item is
/// `Synced` at the tag the server holds.
fn assert_converged(local: &Cache, remote: &Cache) {
    let l = contents(local);
    let r = contents(remote);
    assert_eq!(l.keys().collect::<Vec<_>>(), r.keys().collect::<Vec<_>>());
    for (u, (name, done, status)) in &l {
        let (rname, rdone, rstatus) = &r[u];
        assert_eq!(name, rname);
        assert_eq!(done, rdone);
        assert!(matches!(status, SyncStatus::Synced(_)), "{} is not synced", u);
        assert_eq!(status, rstatus);
    }
}

fn expected_basic() -> BTreeMap<String, (String, bool)> {
    let mut m = BTreeMap::new();
    for (l, n, done) in [("A", "A", false), ("D", "D'", false), ("E", "E'", false), ("F", "F", false), ("G", "G", true), ("H", "H", true), ("P", "P", false), ("Q", "Q", false)] {
        m.insert(url(l), (n.to_string(), done));
    }
    m
}

fn names_and_completion(cache: &Cache) -> BTreeMap<String, (String, bool)> {
    contents(cache).into_iter().map(|(u, (n, d, _))| (u, (n, d))).collect()
}

fn run_with_errors(behaviour: MockBehaviour, max_attempts: u32) {
    let (local, mut remote) = basic_scenario();
    assert!(!local.has_same_observable_content_as(&remote));
    remote.set_mock_behaviour(Some(behaviour));
    let mut provider = Provider::new(remote, local);
    let mut attempts = 0;
    while !provider.sync() {
        attempts += 1;
        assert!(attempts < max_attempts, "the sync never succeeded");
    }
    assert_converged(provider.local(), provider.remote());
    assert_eq!(names_and_completion(provider.local()), expected_basic());
}

#[test]
fn test_regular_sync() {
    let (local, mut remote) = basic_scenario();
    remote.set_mock_behaviour(Some(MockBehaviour::new()));
    let mut provider = Provider::new(remote, local);
    assert!(provider.sync());
    assert_converged(provider.local(), provider.remote());
    assert_eq!(names_and_completion(provider.local()), expected_basic());
    assert_eq!(names_and_completion(provider.remote()), expected_basic());
    assert!(provider.local().has_same_observable_content_as(provider.remote()));
}

#[test]
fn second_sync_changes_nothing() {
    let (local, mut remote) = basic_scenario();
    remote.set_mock_behaviour(Some(MockBehaviour::new()));
    let mut provider = Provider::new(remote, local);
    assert!(provider.sync());
    let l1 = contents(provider.local());
    let r1 = contents(provider.remote());
    assert!(provider.sync());
    assert_eq!(contents(provider.local()), l1);
    assert_eq!(contents(provider.remote()), r1);
}

#[test]
fn conflict_remote_wins() {
    let (mut local, mut remote) = empty_pair();
    local.add_item_in(CAL, task("F", "F", false, synced("v0"))).unwrap();
    remote.add_item_in(CAL, task("F", "F", false, synced("v0"))).unwrap();
    edit_local(&mut local, "F", |t| t.set_name("F-local".to_string()));
    edit_local(&mut remote, "F", |t| t.mock_remote_calendar_set_name("F-remote".to_string()));
    remote.set_mock_behaviour(Some(MockBehaviour::new()));
    let mut provider = Provider::new(remote, local);
    assert!(provider.sync());
    assert_converged(provider.local(), provider.remote());
    assert_eq!(item(provider.local(), "F").unwrap().name(), "F-remote");
    assert_eq!(item(provider.remote(), "F").unwrap().name(), "F-remote");
}

#[test]
fn local_delete_against_remote_edit() {
    let (mut local, mut remote) = empty_pair();
    local.add_item_in(CAL, task("I", "I", false, synced("v0"))).unwrap();
    remote.add_item_in(CAL, task("I", "I", false, synced("v0"))).unwrap();
    local.mark_for_deletion_in(CAL, &url("I")).unwrap();
    edit_local(&mut remote, "I", |t| t.mock_remote_calendar_set_name("I-remote".to_string()));
    remote.set_mock_behaviour(Some(MockBehaviour::new()));
    let mut provider = Provider::new(remote, local);
    assert!(provider.sync());
    assert_converged(provider.local(), provider.remote());
    let it = item(provider.local(), "I").unwrap();
    assert_eq!(it.name(), "I-remote");
    assert!(matches!(it.sync_status(), SyncStatus::Synced(_)));
}

#[test]
fn test_sync_transient_task() {
    let (mut local, mut remote) = empty_pair();
    local.add_item_in(CAL, task("T", "T", false, SyncStatus::NotSynced)).unwrap();
    edit_local(&mut local, "T", |t| t.set_name("T2".to_string()));
    local.mark_for_deletion_in(CAL, &url("T")).unwrap();
    remote.set_mock_behaviour(Some(MockBehaviour::new()));
    let mut provider = Provider::new(remote, local);
    assert!(provider.sync());
    assert!(item(provider.local(), "T").is_none());
    assert!(item(provider.remote(), "T").is_none());
}

#[test]
fn test_sync_empty_initial_local() {
    let (local, mut remote) = empty_pair();
    remote.add_item_in(CAL, task("X", "X", false, synced("x0"))).unwrap();
    remote.add_item_in(CAL, task("Y", "Y", true, synced("y0"))).unwrap();
    remote.set_mock_behaviour(Some(MockBehaviour::new()));
    let mut provider = Provider::new(remote, local);
    assert!(provider.sync());
    assert_converged(provider.local(), provider.remote());
    assert_eq!(contents(provider.local()).len(), 2);
    assert_eq!(item(provider.local(), "Y").unwrap().sync_status(), &synced("y0"));
}

#[test]
fn test_sync_empty_initial_server() {
    let (mut local, mut remote) = empty_pair();
    local.add_item_in(CAL, task("X", "X", false, SyncStatus::NotSynced)).unwrap();
    local.add_item_in(CAL, task("Y", "Y", false, SyncStatus::NotSynced)).unwrap();
    remote.set_mock_behaviour(Some(MockBehaviour::new()));
    let mut provider = Provider::new(remote, local);
    assert!(provider.sync());
    assert_converged(provider.local(), provider.remote());
    assert_eq!(contents(provider.remote()).len(), 2);
}

#[test]
fn calendars_are_created_on_both_sides() {
    let mut local = Cache::new();
    let mut remote = Cache::new();
    let todo = SupportedComponents::from_bits(SupportedComponents::TODO);
    let both = SupportedComponents::from_bits(SupportedComponents::TODO | SupportedComponents::EVENT);
    let red = Color { r: 255, g: 0, b: 0, a: 255 };
    local.create_calendar("https://host/cal/L/".to_string(), "Local only".to_string(), todo, Some(red)).unwrap();
    remote.create_calendar("https://host/cal/R/".to_string(), "Remote only".to_string(), both, None).unwrap();
    remote.set_mock_behaviour(Some(MockBehaviour::new()));
    let mut provider = Provider::new(remote, local);
    assert!(provider.sync());
    let l = provider.local().get_calendar("https://host/cal/R/").unwrap();
    assert_eq!(l.name(), "Remote only");
    assert_eq!(l.supported_components(), both);
    assert!(l.color().is_none());
    let r = provider.remote().get_calendar("https://host/cal/L/").unwrap();
    assert_eq!(r.name(), "Local only");
    assert_eq!(r.supported_components(), todo);
    assert_eq!(r.color(), Some(&red));
}

#[test]
fn url_reuse_is_skipped_and_reported() {
    let (mut local, mut remote) = empty_pair();
    local.add_item_in(CAL, task("Z", "local Z", false, SyncStatus::NotSynced)).unwrap();
    remote.add_item_in(CAL, task("Z", "remote Z", false, synced("z0"))).unwrap();
    remote.set_mock_behaviour(Some(MockBehaviour::new()));
    let mut provider = Provider::new(remote, local);
    assert!(!provider.sync());
    assert_eq!(item(provider.local(), "Z").unwrap().name(), "local Z");
    assert_eq!(item(provider.remote(), "Z").unwrap().name(), "remote Z");
}

#[test]
fn a_failed_listing_changes_nothing() {
    let (local, mut remote) = basic_scenario();
    // The pair is tried twice in one sync: once from the remote calendars, once from the local
    // ones.
    remote.set_mock_behaviour(Some(MockBehaviour { get_item_version_tags_behaviour: (0, 2), ..MockBehaviour::default() }));
    let before = contents(&local);
    let mut provider = Provider::new(remote, local);
    assert!(!provider.sync());
    assert_eq!(contents(provider.local()), before);
}

#[test]
fn remote_listing_through_the_source_trait() {
    let (_, mut remote) = basic_scenario();
    let tags = DavSource::get_item_version_tags(&mut remote, CAL).unwrap();
    assert_eq!(tags.len(), 8);
    let fetched = DavSource::get_items_by_url(&mut remote, CAL, &vec![url("A"), url("B"), url("Q")]).unwrap();
    assert_eq!(fetched.len(), 3);
    assert_eq!(fetched[0].as_ref().unwrap().name(), "A");
    assert!(fetched[1].is_none());
    assert_eq!(fetched[2].as_ref().unwrap().name(), "Q");
}

#[test]
fn test_errors_in_regular_sync1() {
    run_with_errors(MockBehaviour::fail_now(10), 100);
}

#[test]
fn test_errors_in_regular_sync2() {
    run_with_errors(MockBehaviour { get_calendars_behaviour: (0, 1), create_calendar_behaviour: (2, 2), ..MockBehaviour::default() }, 100);
}

#[test]
fn test_errors_in_regular_sync3() {
    run_with_errors(MockBehaviour { get_calendars_behaviour: (1, 6), create_calendar_behaviour: (0, 1), ..MockBehaviour::default() }, 100);
}

#[test]
fn test_errors_in_regular_sync4() {
    run_with_errors(MockBehaviour { add_item_behaviour: (1, 3), ..MockBehaviour::default() }, 100);
}

#[test]
fn test_errors_in_regular_sync5() {
    run_with_errors(MockBehaviour { get_item_version_tags_behaviour: (0, 1), ..MockBehaviour::default() }, 100);
}

#[test]
fn test_errors_in_regular_sync6() {
    run_with_errors(MockBehaviour { get_item_by_id_behaviour: (3, 2), ..MockBehaviour::default() }, 100);
}

#[test]
fn test_errors_in_regular_sync7() {
    run_with_errors(MockBehaviour { delete_item_behaviour: (0, 2), ..MockBehaviour::default() }, 100);
}

#[test]
fn test_errors_in_regular_sync8() {
    run_with_errors(MockBehaviour { add_item_behaviour: (2, 3), get_item_by_id_behaviour: (1, 4), ..MockBehaviour::default() }, 100);
}

#[test]
fn test_errors_in_regular_sync9() {
    run_with_errors(MockBehaviour { get_calendars_behaviour: (0, 8), delete_item_behaviour: (1, 1), ..MockBehaviour::default() }, 100);
}

#[test]
fn test_errors_in_regular_sync10() {
    run_with_errors(
        MockBehaviour {
            get_calendars_behaviour: (0, 8),
            delete_item_behaviour: (1, 1),
            create_calendar_behaviour: (1, 4),
            get_item_version_tags_behaviour: (3, 1),
            ..MockBehaviour::default()
        },
        100,
    );
}

#[test]
fn test_errors_in_regular_sync11() {
    run_with_errors(
        MockBehaviour {
            get_calendars_behaviour: (0, 8),
            delete_item_behaviour: (1, 1),
            create_calendar_behaviour: (1, 4),
            get_item_version_tags_behaviour: (3, 1),
            get_item_by_id_behaviour: (0, 41),
            ..MockBehaviour::default()
        },
        100,
    );
}

#[test]
fn test_errors_in_regular_sync12() {
    run_with_errors(MockBehaviour { update_item_behaviour: (0, 3), ..MockBehaviour::default() }, 100);
}
