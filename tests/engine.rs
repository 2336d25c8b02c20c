use kitchen_fridge::cache::Cache;
use kitchen_fridge::calendar::{calendar_body, is_listed_calendar, SupportedComponents};
use kitchen_fridge::item::{Item, SyncStatus, VersionTag};
use kitchen_fridge::mock_behaviour::MockBehaviour;
use kitchen_fridge::provider::sync_pair::DOWNLOAD_BATCH_SIZE;
use kitchen_fridge::provider::sync_progress::{SyncEvent, SyncProgress};
use kitchen_fridge::provider::Provider;
use kitchen_fridge::task::{CompletionStatus, Task};
use kitchen_fridge::time::DateTime;

const CAL: &str = "https://host/cal/big/";

fn task(n: usize, status: SyncStatus) -> Item {
    Item::Task(Task::new_with_parameters(
        format!("task {}", n),
        format!("uid-{}", n),
        format!("{}{}", CAL, n),
        CompletionStatus::Uncompleted,
        status,
        None,
        DateTime { timestamp: 1_600_000_000 },
        String::from("-//test//EN"),
        Vec::new(),
    ))
}

fn pair() -> (Cache, Cache) {
    let mut local = Cache::new();
    let mut remote = Cache::new();
    let comps = SupportedComponents::from_bits(SupportedComponents::TODO);
    local.create_calendar(CAL.to_string(), "big".to_string(), comps, None).unwrap();
    remote.create_calendar(CAL.to_string(), "big".to_string(), comps, None).unwrap();
    (local, remote)
}

#[test]
fn additions_beyond_one_batch() {
    let (local, mut remote) = pair();
    let n = 2 * DOWNLOAD_BATCH_SIZE + 5;
    for i in 0..n {
        remote.add_item_in(CAL, task(i, SyncStatus::Synced(VersionTag::from(format!("t{}", i))))).unwrap();
    }
    remote.set_mock_behaviour(Some(MockBehaviour::new()));
    let mut provider = Provider::new(remote, local);
    let mut progress = SyncProgress::new();
    assert!(provider.sync_with_progress(&mut progress));
    let cal = provider.local().get_calendar(CAL).unwrap();
    assert_eq!(cal.get_items().len(), n);
    assert_eq!(cal.get_item_by_url(&format!("{}{}", CAL, n - 1)).unwrap().sync_status(), &SyncStatus::Synced(VersionTag::from(format!("t{}", n - 1))));
    assert!(matches!(progress.latest_event(), SyncEvent::Finished { success: true }));
    assert!(progress.is_success());
}

#[test]
fn progress_counts_and_reports() {
    let mut p = SyncProgress::new();
    assert!(p.is_success());
    assert!(matches!(p.latest_event(), SyncEvent::NotStarted));
    p.increment_counter(3);
    p.increment_counter(2);
    assert_eq!(p.counter(), 5);
    p.reset_counter();
    assert_eq!(p.counter(), 0);
    p.warn("careful");
    assert!(!p.is_success());
    p.feedback(SyncEvent::Started);
    assert!(matches!(p.latest_event(), SyncEvent::Started));
    assert!(matches!(SyncEvent::default(), SyncEvent::NotStarted));
}

#[test]
fn failed_listing_of_calendars_is_reported() {
    let (local, mut remote) = pair();
    remote.set_mock_behaviour(Some(MockBehaviour { get_calendars_behaviour: (0, 1), ..MockBehaviour::default() }));
    let mut provider = Provider::new(remote, local);
    let mut progress = SyncProgress::new();
    assert!(!provider.sync_with_progress(&mut progress));
    assert!(matches!(progress.latest_event(), SyncEvent::Finished { success: false }));
    assert!(provider.sync());
}

#[test]
fn calendar_creation_body() {
    let both = SupportedComponents::from_bits(SupportedComponents::EVENT | SupportedComponents::TODO);
    assert_eq!(
        both.to_xml_string(),
        r#"<C:supported-calendar-component-set><C:comp name="VEVENT"/><C:comp name="VTODO"/></C:supported-calendar-component-set>"#
    );
    let body = calendar_body("Groceries".to_string(), SupportedComponents::from_bits(SupportedComponents::TODO));
    assert!(body.contains("<D:displayname>Groceries</D:displayname>"));
    assert!(body.contains(r#"<C:comp name="VTODO"/>"#));
    assert!(!body.contains("VEVENT"));
    assert!(body.starts_with("<?xml"));
}

#[test]
fn component_names_and_listing_filter() {
    let names = vec![Some("VTODO".to_string()), None, Some("VJOURNAL".to_string())];
    let comps = SupportedComponents::from_component_names(&names);
    assert_eq!(comps.bits, SupportedComponents::TODO);
    assert!(is_listed_calendar(true, comps));
    assert!(!is_listed_calendar(false, comps));
    assert!(!is_listed_calendar(true, SupportedComponents::from_component_names(&vec![Some("VJOURNAL".to_string())])));
    let both = SupportedComponents::from_component_names(&vec![Some("VEVENT".to_string()), Some("VTODO".to_string())]);
    assert_eq!(both.bits, 3);
}

use kitchen_fridge::calendar::cached_calendar::CachedCalendar;
use kitchen_fridge::calendar::CalendarInfo;
use kitchen_fridge::error::ErrorKind;
use kitchen_fridge::provider::plan_calendars;
use kitchen_fridge::provider::sync_pair::{apply_fetched, apply_push_answer, next_batch};

fn small_calendar() -> CachedCalendar {
    CachedCalendar::new("c".to_string(), CAL.to_string(), SupportedComponents::from_bits(2), None)
}

#[test]
fn fetched_items_are_stored_as_fetched() {
    let mut cal = small_calendar();
    cal.add_item(task(1, SyncStatus::Synced(VersionTag::from("old".to_string())))).unwrap();
    let batch = vec![format!("{}1", CAL), format!("{}2", CAL)];
    let fetched = vec![
        Some(task(1, SyncStatus::Synced(VersionTag::from("new".to_string())))),
        Some(task(2, SyncStatus::Synced(VersionTag::from("t2".to_string())))),
    ];
    let mut progress = SyncProgress::new();
    // Adding: only the URL that is not held yet is stored.
    apply_fetched(true, &mut cal, &batch, &fetched, &mut progress);
    assert_eq!(cal.get_item_by_url(&batch[0]).unwrap().sync_status(), &SyncStatus::Synced(VersionTag::from("old".to_string())));
    assert_eq!(cal.get_item_by_url(&batch[1]).unwrap().sync_status(), &SyncStatus::Synced(VersionTag::from("t2".to_string())));
    assert!(!progress.is_success());
    // Changing: both are replaced by what was fetched.
    let mut progress = SyncProgress::new();
    apply_fetched(false, &mut cal, &batch, &fetched, &mut progress);
    assert_eq!(cal.get_item_by_url(&batch[0]).unwrap().sync_status(), &SyncStatus::Synced(VersionTag::from("new".to_string())));
    assert!(progress.is_success());
    // A miss leaves the URL as it is and is an error.
    let mut progress = SyncProgress::new();
    apply_fetched(false, &mut cal, &batch, &vec![None, None], &mut progress);
    assert_eq!(cal.get_items().len(), 2);
    assert!(!progress.is_success());
}

#[test]
fn push_answer_sets_exactly_the_answered_status() {
    let mut cal = small_calendar();
    cal.add_item(task(1, SyncStatus::NotSynced)).unwrap();
    let url = format!("{}1", CAL);
    let mut progress = SyncProgress::new();
    apply_push_answer(&mut cal, &url, Ok(SyncStatus::Synced(VersionTag::from("s".to_string()))), &mut progress);
    assert_eq!(cal.get_item_by_url(&url).unwrap().sync_status(), &SyncStatus::Synced(VersionTag::from("s".to_string())));
    assert!(progress.is_success());
    apply_push_answer(&mut cal, &url, Err(ErrorKind::PreconditionFailure), &mut progress);
    assert_eq!(cal.get_item_by_url(&url).unwrap().sync_status(), &SyncStatus::Synced(VersionTag::from("s".to_string())));
    assert!(!progress.is_success());
}

fn info(url: &str, name: &str) -> CalendarInfo {
    CalendarInfo { url: url.to_string(), name: name.to_string(), supported_components: SupportedComponents::from_bits(2), color: None }
}

#[test]
fn calendar_plan() {
    let listing = vec![info("https://h/a/", "A"), info("https://h/b/", "B")];
    let local = vec![info("https://h/b/", "B local"), info("https://h/c/", "C")];
    let plan = plan_calendars(&listing, &local);
    assert_eq!(plan.create_locally.len(), 1);
    assert_eq!(plan.create_locally[0].url, "https://h/a/");
    assert_eq!(plan.create_locally[0].name, "A");
    assert_eq!(plan.create_remotely.len(), 1);
    assert_eq!(plan.create_remotely[0].url, "https://h/c/");
    let mut pairs = plan.pairs.clone();
    pairs.sort();
    assert_eq!(pairs, vec!["https://h/a/".to_string(), "https://h/b/".to_string(), "https://h/c/".to_string()]);
}

#[test]
fn batches_cover_each_url_once() {
    let urls: Vec<String> = (0..(DOWNLOAD_BATCH_SIZE + 7)).map(|i| format!("u{}", i)).collect();
    let first = next_batch(&urls, 0);
    assert_eq!(first.len(), DOWNLOAD_BATCH_SIZE);
    assert_eq!(first[0], "u0");
    let second = next_batch(&urls, first.len());
    assert_eq!(second.len(), 7);
    assert_eq!(second[6], format!("u{}", DOWNLOAD_BATCH_SIZE + 6));
}
