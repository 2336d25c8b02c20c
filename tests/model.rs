use kitchen_fridge::calendar::cached_calendar::CachedCalendar;
use kitchen_fridge::calendar::SupportedComponents;
use kitchen_fridge::error::ErrorKind;
use kitchen_fridge::item::{Item, SyncStatus, VersionTag};
use kitchen_fridge::mock_behaviour::MockBehaviour;
use kitchen_fridge::provider::classify::{classify, classify_one, ChangeClass};
use kitchen_fridge::task::{CompletionStatus, Task};
use kitchen_fridge::time::DateTime;
use kitchen_fridge::utils::keys_are_the_same;

fn tag(s: &str) -> VersionTag {
    VersionTag::from(s.to_string())
}

fn task(u: &str, status: SyncStatus) -> Item {
    Item::Task(Task::new_with_parameters(
        u.to_string(),
        u.to_string(),
        u.to_string(),
        CompletionStatus::Uncompleted,
        status,
        None,
        DateTime { timestamp: 0 },
        String::from("-//t//EN"),
        Vec::new(),
    ))
}

fn calendar() -> CachedCalendar {
    CachedCalendar::new("c".to_string(), "http://c/".to_string(), SupportedComponents::from_bits(2), None)
}

#[test]
fn sync_status_variants_and_edits() {
    let mut t = match task("http://c/a", SyncStatus::Synced(tag("1"))) {
        Item::Task(t) => t,
        _ => unreachable!(),
    };
    t.set_name("renamed".to_string());
    assert_eq!(t.sync_status(), &SyncStatus::LocallyModified(tag("1")));
    t.set_name("again".to_string());
    assert_eq!(t.sync_status(), &SyncStatus::LocallyModified(tag("1")));
    assert_eq!(t.name(), "again");
    t.mock_remote_calendar_set_name("server".to_string());
    assert!(matches!(t.sync_status(), SyncStatus::Synced(_)));
}

#[test]
fn decision_table() {
    let v = tag("v");
    let w = tag("w");
    let ns = SyncStatus::NotSynced;
    let s = SyncStatus::Synced(tag("v"));
    let m = SyncStatus::LocallyModified(tag("v"));
    let d = SyncStatus::LocallyDeleted(tag("v"));
    assert_eq!(classify_one(None, Some(&v)), ChangeClass::RemoteAddition);
    assert_eq!(classify_one(Some(&ns), Some(&v)), ChangeClass::UrlReuse);
    assert_eq!(classify_one(Some(&ns), None), ChangeClass::LocalAddition);
    assert_eq!(classify_one(Some(&s), Some(&v)), ChangeClass::NoOp);
    assert_eq!(classify_one(Some(&s), Some(&w)), ChangeClass::RemoteChange);
    assert_eq!(classify_one(Some(&s), None), ChangeClass::RemoteDeletion);
    assert_eq!(classify_one(Some(&m), Some(&v)), ChangeClass::LocalChange);
    assert_eq!(classify_one(Some(&m), Some(&w)), ChangeClass::RemoteChange);
    assert_eq!(classify_one(Some(&m), None), ChangeClass::RemoteDeletion);
    assert_eq!(classify_one(Some(&d), Some(&v)), ChangeClass::LocalDeletion);
    assert_eq!(classify_one(Some(&d), Some(&w)), ChangeClass::RemoteChange);
    assert_eq!(classify_one(Some(&d), None), ChangeClass::RemoteDeletion);
}

#[test]
fn classify_a_calendar() {
    let mut c = calendar();
    c.add_item(task("http://c/synced", SyncStatus::Synced(tag("1")))).unwrap();
    c.add_item(task("http://c/new", SyncStatus::NotSynced)).unwrap();
    c.add_item(task("http://c/gone", SyncStatus::Synced(tag("1")))).unwrap();
    c.add_item(task("http://c/edited", SyncStatus::LocallyModified(tag("1")))).unwrap();
    let remote = vec![
        ("http://c/synced".to_string(), tag("1")),
        ("http://c/edited".to_string(), tag("1")),
        ("http://c/fresh".to_string(), tag("9")),
    ];
    let cs = classify(&c, &remote);
    assert_eq!(cs.remote_additions, vec!["http://c/fresh".to_string()]);
    assert_eq!(cs.local_additions, vec!["http://c/new".to_string()]);
    assert_eq!(cs.remote_deletions, vec!["http://c/gone".to_string()]);
    assert_eq!(cs.local_changes, vec!["http://c/edited".to_string()]);
    assert!(cs.remote_changes.is_empty() && cs.local_deletions.is_empty() && cs.url_reuses.is_empty());
}

#[test]
fn calendar_item_operations() {
    let mut c = calendar();
    assert_eq!(c.add_item(task("http://c/a", SyncStatus::NotSynced)), Ok(SyncStatus::NotSynced));
    assert_eq!(c.add_item(task("http://c/a", SyncStatus::NotSynced)), Err(ErrorKind::Duplicate));
    assert_eq!(c.update_item(task("http://c/b", SyncStatus::NotSynced)), Err(ErrorKind::NotFound));
    assert_eq!(c.mark_for_deletion("http://c/a"), Ok(()));
    assert!(c.get_item_by_url("http://c/a").is_none());
    c.add_item(task("http://c/s", SyncStatus::LocallyModified(tag("3")))).unwrap();
    c.mark_for_deletion("http://c/s").unwrap();
    assert_eq!(c.get_item_by_url("http://c/s").unwrap().sync_status(), &SyncStatus::LocallyDeleted(tag("3")));
    assert_eq!(c.mark_for_deletion("http://c/zz"), Err(ErrorKind::NotFound));
    assert_eq!(c.immediately_delete_item("http://c/s"), Ok(()));
    assert_eq!(c.immediately_delete_item("http://c/s"), Err(ErrorKind::NotFound));
    assert!(c.get_item_urls().is_empty());
}

#[test]
fn mocked_calendar_forces_synced() {
    let mut c = calendar();
    c.set_mock_behaviour(Some(MockBehaviour::new()));
    let status = c.add_item(task("http://c/a", SyncStatus::NotSynced)).unwrap();
    assert!(matches!(status, SyncStatus::Synced(_)));
    let kept = c.add_item(task("http://c/b", SyncStatus::Synced(tag("7")))).unwrap();
    assert_eq!(kept, SyncStatus::Synced(tag("7")));
    c.set_mock_behaviour(Some(MockBehaviour::fail_now(1)));
    assert_eq!(c.get_item_version_tags().err(), Some(ErrorKind::MockedFailure));
    assert_eq!(c.get_item_version_tags().unwrap().len(), 2);
}

#[test]
fn same_observable_content() {
    let mut a = calendar();
    let mut b = calendar();
    a.add_item(task("http://c/a", SyncStatus::Synced(tag("1")))).unwrap();
    b.add_item(task("http://c/a", SyncStatus::Synced(tag("2")))).unwrap();
    assert!(a.has_same_observable_content_as(&b));
    b.add_item(task("http://c/b", SyncStatus::NotSynced)).unwrap();
    assert!(!a.has_same_observable_content_as(&b));
}

#[test]
fn keys_comparison() {
    let a = vec!["x".to_string(), "y".to_string()];
    let b = vec!["y".to_string(), "x".to_string()];
    let c = vec!["y".to_string()];
    assert!(keys_are_the_same(&a, &b));
    assert!(!keys_are_the_same(&a, &c));
}

#[test]
fn supported_components_flags() {
    let mut s = SupportedComponents::empty();
    assert!(!s.supports_todo());
    s.insert(SupportedComponents::TODO);
    assert!(s.supports_todo());
    assert!(!s.supports_events());
    assert_eq!(s.bits, 2);
}

#[test]
fn new_task_gets_a_url_under_its_calendar() {
    let t = Task::new("n".to_string(), false, "http://my.calend.ar/id/").unwrap();
    assert!(t.url().starts_with("http://my.calend.ar/id/"));
    assert!(t.url().len() > "http://my.calend.ar/id/".len());
    assert_eq!(t.sync_status(), &SyncStatus::NotSynced);
    assert!(Task::new("n".to_string(), false, "not a url").is_none());
}
