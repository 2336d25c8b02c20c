use chrono::TimeZone;

use kitchen_fridge::config::{ORG_NAME, PRODUCT_NAME};
use kitchen_fridge::error::ErrorKind;
use kitchen_fridge::ical::{build_from, default_prod_id, parse};
use kitchen_fridge::item::{Item, SyncStatus, VersionTag};
use kitchen_fridge::property::Property;
use kitchen_fridge::task::{CompletionStatus, Task};
use kitchen_fridge::time::{format_date_time, DateTime};

const EXAMPLE_ICAL: &str = r#"BEGIN:VCALENDAR
VERSION:2.0
PRODID:-//Nextcloud Tasks v0.13.6
BEGIN:VTODO
UID:0633de27-8c32-42be-bcb8-63bc879c6185@some-domain.com
CREATED:20210321T001600
LAST-MODIFIED:20210321T001600
DTSTAMP:20210321T001600
SUMMARY:Do not forget to do this
END:VTODO
END:VCALENDAR
"#;

const EXAMPLE_ICAL_COMPLETED: &str = r#"BEGIN:VCALENDAR
VERSION:2.0
PRODID:-//Nextcloud Tasks v0.13.6
BEGIN:VTODO
UID:19960401T080045Z-4000F192713-0052@example.com
CREATED:20210321T001600
LAST-MODIFIED:20210402T081557
DTSTAMP:20210402T081557
SUMMARY:Clean up your room or Mom will be angry
PERCENT-COMPLETE:100
COMPLETED:20210402T081557
STATUS:COMPLETED
END:VTODO
END:VCALENDAR
"#;

const EXAMPLE_ICAL_COMPLETED_WITHOUT_A_COMPLETION_DATE: &str = r#"BEGIN:VCALENDAR
VERSION:2.0
PRODID:-//Nextcloud Tasks v0.13.6
BEGIN:VTODO
UID:19960401T080045Z-4000F192713-0052@example.com
CREATED:20210321T001600
LAST-MODIFIED:20210402T081557
DTSTAMP:20210402T081557
SUMMARY:Clean up your room or Mom will be angry
STATUS:COMPLETED
END:VTODO
END:VCALENDAR
"#;

const EXAMPLE_MULTIPLE_ICAL: &str = r#"BEGIN:VCALENDAR
VERSION:2.0
PRODID:-//Nextcloud Tasks v0.13.6
BEGIN:VTODO
UID:0633de27-8c32-42be-bcb8-63bc879c6185
CREATED:20210321T001600
LAST-MODIFIED:20210321T001600
DTSTAMP:20210321T001600
SUMMARY:Call Mom
END:VTODO
END:VCALENDAR
BEGIN:VCALENDAR
BEGIN:VTODO
UID:0633de27-8c32-42be-bcb8-63bc879c6185
CREATED:20210321T001600
LAST-MODIFIED:20210321T001600
DTSTAMP:20210321T001600
SUMMARY:Buy a gift for Mom
END:VTODO
END:VCALENDAR
"#;

fn timestamp(y: i32, mo: u32, d: u32, h: u32, mi: u32, s: u32) -> i64 {
    chrono::Utc.with_ymd_and_hms(y, mo, d, h, mi, s).unwrap().timestamp()
}

#[test]
fn test_ical_parsing() {
    let version_tag = VersionTag::from(String::from("test-tag"));
    let sync_status = SyncStatus::Synced(version_tag);
    let item_url = String::from("http://some.id/for/testing");

    let item = parse(EXAMPLE_ICAL, item_url.clone(), sync_status.clone()).unwrap();
    let task = item.unwrap_task();

    assert_eq!(task.name(), "Do not forget to do this");
    assert_eq!(task.url(), item_url.as_str());
    assert_eq!(task.uid(), "0633de27-8c32-42be-bcb8-63bc879c6185@some-domain.com");
    assert_eq!(task.completed(), false);
    assert_eq!(task.completion_status(), &CompletionStatus::Uncompleted);
    assert_eq!(task.sync_status(), &sync_status);
    assert_eq!(task.last_modified().timestamp, timestamp(2021, 03, 21, 0, 16, 0));
}

#[test]
fn test_completed_ical_parsing() {
    let version_tag = VersionTag::from(String::from("test-tag"));
    let sync_status = SyncStatus::Synced(version_tag);
    let item_url = String::from("http://some.id/for/testing");

    let item = parse(EXAMPLE_ICAL_COMPLETED, item_url.clone(), sync_status.clone()).unwrap();
    let task = item.unwrap_task();

    assert_eq!(task.completed(), true);
    assert_eq!(
        task.completion_status(),
        &CompletionStatus::Completed(Some(DateTime { timestamp: timestamp(2021, 04, 02, 8, 15, 57) }))
    );
}

#[test]
fn test_completed_without_date_ical_parsing() {
    let version_tag = VersionTag::from(String::from("test-tag"));
    let sync_status = SyncStatus::Synced(version_tag);
    let item_url = String::from("http://some.id/for/testing");

    let item = parse(EXAMPLE_ICAL_COMPLETED_WITHOUT_A_COMPLETION_DATE, item_url.clone(), sync_status.clone()).unwrap();
    let task = item.unwrap_task();

    assert_eq!(task.completed(), true);
    assert_eq!(task.completion_status(), &CompletionStatus::Completed(None));
}

#[test]
fn test_multiple_items_in_ical() {
    let version_tag = VersionTag::from(String::from("test-tag"));
    let sync_status = SyncStatus::Synced(version_tag);
    let item_url = String::from("http://some.id/for/testing");

    let item = parse(EXAMPLE_MULTIPLE_ICAL, item_url.clone(), sync_status.clone());
    assert!(item.is_err());
}

fn build_task(completed: bool) -> (String, String, String) {
    let cal_url = "http://my.calend.ar/id";
    let now = DateTime { timestamp: chrono::Utc::now().timestamp() };
    let s_now = format_date_time(now).unwrap();

    let task = Item::Task(Task::new(String::from("This is a task with ÜTF-8 characters"), completed, cal_url).unwrap());

    let ical = build_from(&task).unwrap();
    (s_now, task.uid().to_string(), ical)
}

#[test]
fn test_ical_from_completed_task() {
    let (s_now, uid, ical) = build_task(true);

    let expected_ical = format!(
        "BEGIN:VCALENDAR\r\n\
        VERSION:2.0\r\n\
        PRODID:-//{}//{}//EN\r\n\
        BEGIN:VTODO\r\n\
        UID:{}\r\n\
        DTSTAMP:{}\r\n\
        CREATED:{}\r\n\
        LAST-MODIFIED:{}\r\n\
        SUMMARY:This is a task with ÜTF-8 characters\r\n\
        PERCENT-COMPLETE:100\r\n\
        COMPLETED:{}\r\n\
        STATUS:COMPLETED\r\n\
        END:VTODO\r\n\
        END:VCALENDAR\r\n",
        ORG_NAME, PRODUCT_NAME, uid, s_now, s_now, s_now, s_now
    );

    assert_eq!(ical, expected_ical);
}

#[test]
fn test_ical_from_uncompleted_task() {
    let (s_now, uid, ical) = build_task(false);

    let expected_ical = format!(
        "BEGIN:VCALENDAR\r\n\
        VERSION:2.0\r\n\
        PRODID:-//{}//{}//EN\r\n\
        BEGIN:VTODO\r\n\
        UID:{}\r\n\
        DTSTAMP:{}\r\n\
        CREATED:{}\r\n\
        LAST-MODIFIED:{}\r\n\
        SUMMARY:This is a task with ÜTF-8 characters\r\n\
        STATUS:NEEDS-ACTION\r\n\
        END:VTODO\r\n\
        END:VCALENDAR\r\n",
        ORG_NAME, PRODUCT_NAME, uid, s_now, s_now, s_now
    );

    assert_eq!(ical, expected_ical);
}

const ICAL_WITH_UNKNOWN_FIELDS: &str = "BEGIN:VCALENDAR\r\n\
VERSION:2.0\r\n\
PRODID:-//Todo Maker//EN\r\n\
BEGIN:VTODO\r\n\
UID:abc-123\r\n\
DTSTAMP:20210321T001600\r\n\
LAST-MODIFIED:20210321T001600\r\n\
SUMMARY:Water the plants\r\n\
STATUS:NEEDS-ACTION\r\n\
PRIORITY:5\r\n\
X-CUSTOM;LANG=fr:valeur\r\n\
CATEGORIES:home\r\n\
END:VTODO\r\n\
END:VCALENDAR\r\n";

fn lines(s: &str) -> std::collections::HashSet<String> {
    s.split("\r\n").map(|l| l.to_string()).collect()
}

#[test]
fn test_ical_round_trip_serde() {
    let deserialized = parse(ICAL_WITH_UNKNOWN_FIELDS, String::from("http://item.id"), SyncStatus::NotSynced).unwrap();
    let serialized = build_from(&deserialized).unwrap();
    assert_eq!(lines(ICAL_WITH_UNKNOWN_FIELDS), lines(&serialized));
}

#[test]
fn unknown_properties_are_kept_in_order() {
    let item = parse(ICAL_WITH_UNKNOWN_FIELDS, String::from("http://item.id"), SyncStatus::NotSynced).unwrap();
    let extras: Vec<&str> = item.unwrap_task().extra_parameters().iter().map(|p: &Property| p.name.as_str()).collect();
    assert_eq!(extras, vec!["PRIORITY", "X-CUSTOM", "CATEGORIES"]);
    let custom = &item.unwrap_task().extra_parameters()[1];
    assert_eq!(custom.value.as_deref(), Some("valeur"));
    assert!(custom.params.is_some());
}

#[test]
fn missing_summary_is_a_missing_field() {
    let text = "BEGIN:VCALENDAR\r\nVERSION:2.0\r\nBEGIN:VTODO\r\nUID:x\r\nDTSTAMP:20210321T001600\r\nEND:VTODO\r\nEND:VCALENDAR\r\n";
    assert_eq!(parse(text, String::from("http://i"), SyncStatus::NotSynced).err(), Some(ErrorKind::MissingField));
}

#[test]
fn missing_uid_and_missing_stamp_are_missing_fields() {
    let no_uid = "BEGIN:VCALENDAR\r\nVERSION:2.0\r\nBEGIN:VTODO\r\nSUMMARY:s\r\nDTSTAMP:20210321T001600\r\nEND:VTODO\r\nEND:VCALENDAR\r\n";
    let no_stamp = "BEGIN:VCALENDAR\r\nVERSION:2.0\r\nBEGIN:VTODO\r\nSUMMARY:s\r\nUID:x\r\nEND:VTODO\r\nEND:VCALENDAR\r\n";
    assert_eq!(parse(no_uid, String::from("http://i"), SyncStatus::NotSynced).err(), Some(ErrorKind::MissingField));
    assert_eq!(parse(no_stamp, String::from("http://i"), SyncStatus::NotSynced).err(), Some(ErrorKind::MissingField));
}

#[test]
fn two_todos_are_malformed_and_empty_text_too() {
    let two = "BEGIN:VCALENDAR\r\nBEGIN:VTODO\r\nUID:a\r\nEND:VTODO\r\nBEGIN:VTODO\r\nUID:b\r\nEND:VTODO\r\nEND:VCALENDAR\r\n";
    assert_eq!(parse(two, String::from("http://i"), SyncStatus::NotSynced).err(), Some(ErrorKind::MalformedInput));
    assert_eq!(parse("", String::from("http://i"), SyncStatus::NotSynced).err(), Some(ErrorKind::MalformedInput));
}

#[test]
fn completed_stamp_without_completed_status_is_uncompleted() {
    let text = "BEGIN:VCALENDAR\r\nBEGIN:VTODO\r\nUID:a\r\nSUMMARY:s\r\nDTSTAMP:20210321T001600Z\r\nCOMPLETED:20210321T001600\r\nEND:VTODO\r\nEND:VCALENDAR\r\n";
    let item = parse(text, String::from("http://i"), SyncStatus::NotSynced).unwrap();
    assert_eq!(item.unwrap_task().completion_status(), &CompletionStatus::Uncompleted);
    assert_eq!(item.unwrap_task().last_modified().timestamp, timestamp(2021, 3, 21, 0, 16, 0));
}

#[test]
fn missing_prod_id_takes_the_default() {
    let text = "BEGIN:VCALENDAR\r\nBEGIN:VTODO\r\nUID:a\r\nSUMMARY:s\r\nDTSTAMP:20210321T001600\r\nEND:VTODO\r\nEND:VCALENDAR\r\n";
    let item = parse(text, String::from("http://i"), SyncStatus::NotSynced).unwrap();
    assert_eq!(item.ical_prod_id(), default_prod_id().as_str());
    assert_eq!(default_prod_id(), "-//My organization//KitchenFridge//EN");
}

#[test]
fn date_formats() {
    assert_eq!(kitchen_fridge::time::parse_date_time("20210402T081557Z"), Some(DateTime { timestamp: timestamp(2021, 4, 2, 8, 15, 57) }));
    assert_eq!(kitchen_fridge::time::parse_date_time("20210402T081557"), Some(DateTime { timestamp: timestamp(2021, 4, 2, 8, 15, 57) }));
    assert_eq!(kitchen_fridge::time::parse_date_time("2021-04-02"), None);
    assert_eq!(format_date_time(DateTime { timestamp: timestamp(2021, 4, 2, 8, 15, 57) }).unwrap(), "20210402T081557");
}

#[test]
fn parameter_values_are_joined() {
    let v = vec![String::from("A"), String::from("B"), String::from("C")];
    assert_eq!(kitchen_fridge::ical::builder::join_values(&v), "A;B;C");
    assert_eq!(kitchen_fridge::ical::builder::join_values(&vec![]), "");
}

const ICAL_EVENT: &str = "BEGIN:VCALENDAR\r\n\
VERSION:2.0\r\n\
PRODID:-//Event Maker//EN\r\n\
BEGIN:VEVENT\r\n\
UID:ev-1\r\n\
DTSTAMP:20210321T001600Z\r\n\
DTSTART;TZID=Europe/Paris:20210322T100000\r\n\
SUMMARY:Meeting\r\n\
LOCATION:Room 4\r\n\
END:VEVENT\r\n\
END:VCALENDAR\r\n";

#[test]
fn events_round_trip() {
    let item = parse(ICAL_EVENT, String::from("http://e"), SyncStatus::NotSynced).unwrap();
    assert!(item.is_event());
    assert_eq!(item.name(), "Meeting");
    assert_eq!(item.uid(), "ev-1");
    let written = build_from(&item).unwrap();
    assert_eq!(lines(ICAL_EVENT), lines(&written));
}

#[test]
fn dtstamp_is_required_even_with_last_modified() {
    let text = "BEGIN:VCALENDAR\r\nBEGIN:VTODO\r\nUID:a\r\nSUMMARY:s\r\nLAST-MODIFIED:20210321T001600\r\nEND:VTODO\r\nEND:VCALENDAR\r\n";
    assert_eq!(parse(text, String::from("http://i"), SyncStatus::NotSynced).err(), Some(ErrorKind::MissingField));
}
