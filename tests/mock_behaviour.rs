use kitchen_fridge::mock_behaviour::MockBehaviour;

#[test]
fn test_mock_behaviour() {
    let mut ok = MockBehaviour::new();
    assert!(ok.can_get_calendars().is_ok());
    assert!(ok.can_get_calendars().is_ok());
    assert!(ok.can_get_calendars().is_ok());
    assert!(ok.can_get_calendars().is_ok());
    assert!(ok.can_get_calendars().is_ok());
    assert!(ok.can_get_calendars().is_ok());
    assert!(ok.can_get_calendars().is_ok());

    let mut now = MockBehaviour::fail_now(2);
    assert!(now.can_get_calendars().is_err());
    assert!(now.can_create_calendar().is_err());
    assert!(now.can_create_calendar().is_err());
    assert!(now.can_get_calendars().is_err());
    assert!(now.can_get_calendars().is_ok());
    assert!(now.can_get_calendars().is_ok());
    assert!(now.can_create_calendar().is_ok());

    let mut custom = MockBehaviour {
        get_calendars_behaviour: (0, 1),
        create_calendar_behaviour: (1, 3),
        ..MockBehaviour::default()
    };
    assert!(custom.can_get_calendars().is_err());
    assert!(custom.can_get_calendars().is_ok());
    assert!(custom.can_get_calendars().is_ok());
    assert!(custom.can_get_calendars().is_ok());
    assert!(custom.can_get_calendars().is_ok());
    assert!(custom.can_get_calendars().is_ok());
    assert!(custom.can_get_calendars().is_ok());
    assert!(custom.can_create_calendar().is_ok());
    assert!(custom.can_create_calendar().is_err());
    assert!(custom.can_create_calendar().is_err());
    assert!(custom.can_create_calendar().is_err());
    assert!(custom.can_create_calendar().is_ok());
    assert!(custom.can_create_calendar().is_ok());
}

#[test]
fn suspended_behaviour_allows_everything_and_keeps_counters() {
    let mut b = MockBehaviour::fail_now(1);
    b.suspend();
    assert!(b.can_add_item().is_ok());
    assert!(b.can_delete_item().is_ok());
    b.resume();
    assert!(b.can_add_item().is_err());
    assert!(b.can_add_item().is_ok());
}

#[test]
fn copy_from_takes_the_calendar_counters() {
    let mut b = MockBehaviour::new();
    let other = MockBehaviour::fail_now(3);
    b.copy_from(&other);
    assert_eq!(b.get_calendars_behaviour, (0, 3));
    assert_eq!(b.create_calendar_behaviour, (0, 3));
    assert_eq!(b.add_item_behaviour, (0, 0));
}

#[test]
fn decrement_uses_successes_then_failures() {
    let mut c = (1u32, 1u32);
    assert!(kitchen_fridge::mock_behaviour::decrement(&mut c).is_ok());
    assert_eq!(c, (0, 1));
    assert_eq!(
        kitchen_fridge::mock_behaviour::decrement(&mut c),
        Err(kitchen_fridge::error::ErrorKind::MockedFailure)
    );
    assert_eq!(c, (0, 0));
    assert!(kitchen_fridge::mock_behaviour::decrement(&mut c).is_ok());
    assert_eq!(c, (0, 0));
}
