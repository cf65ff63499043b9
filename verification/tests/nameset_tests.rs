use extrae_rs::{NameSet, RegisterError};

#[test]
fn register_event_names() {
    let mut name_set = NameSet::new();

    // Insert contiguous
    let mut val = name_set.register_event_name("Event1", Some("File1"), None, Some(1));
    assert_eq!(val, 1);

    val = name_set.register_event_name("Event2", Some("File2"), None, Some(2));
    assert_eq!(val, 2);

    val = name_set.register_event_name("Event3", Some("File3"), Some(0), Some(3));
    assert_eq!(val, 3);

    // Insert with some offset
    val = name_set.register_event_name("Event8.1", Some("File3"), Some(0), Some(8));
    assert_eq!(val, 8);

    // Test the searcher
    val = name_set.register_event_name("Event8.2", Some("File3"), Some(0), Some(8));
    assert_eq!(val, 9);

    // Test the searcher again
    val = name_set.register_event_name("Event8.3", Some("File3"), Some(0), Some(8));
    assert_eq!(val, 10);

    // Test the next in an interleaved hole
    val = name_set.register_event_name("Event1.1", Some("File1"), None, Some(1));
    assert_eq!(val, 4);

    // Test the next in an interleaved hole again
    val = name_set.register_event_name("Event1.1", Some("File1"), Some(0), Some(2));
    assert_eq!(val, 5);

    assert!(name_set.get_event_value_info(1, None).is_some_and(|info| info.name == "Event1"));
    assert!(name_set.get_event_value_info(2, None).is_some_and(|info| info.name == "Event2"));
    assert!(name_set.get_event_value_info(3, None).is_some_and(|info| info.name == "Event3"));

    assert!(name_set.get_event_value_info(8, None).is_some_and(|info| info.name == "Event8.1"));
    assert!(name_set.get_event_value_info(9, None).is_some_and(|info| info.name == "Event8.2"));
    assert!(name_set.get_event_value_info(10, None).is_some_and(|info| info.name == "Event8.3"));

    assert!(name_set.get_event_value_info(4, None).is_some_and(|info| info.name == "Event1.1"));
    assert!(name_set.get_event_value_info(5, None).is_some_and(|info| info.name == "Event1.1"));
}

#[test]
fn register_event_value_name() {
    let mut name_set = NameSet::new();

    // Insert contiguous
    assert_eq!(name_set.register_event_name("Event1", Some("File1"), Some(0), Some(1)), 1);

    let mut val = name_set.register_event_value_name("Value1", Some("File1"), Some(0), 1, Some(1));
    assert_eq!(val, Ok(1));

    val = name_set.register_event_value_name("Value2", Some("File1"), None, 1, Some(2));
    assert_eq!(val, Ok(2));

    val = name_set.register_event_value_name("Value3", Some("File1"), None, 1, Some(3));
    assert_eq!(val, Ok(3));

    assert!(name_set.get_event_value_info(1, Some(1)).is_some_and(|info| info.name == "Value1"));
    assert!(name_set.get_event_value_info(1, Some(2)).is_some_and(|info| info.name == "Value2"));
    assert!(name_set.get_event_value_info(1, Some(3)).is_some_and(|info| info.name == "Value3"));
}

#[test]
fn create_pcf() {
    let mut name_set = NameSet::new();

    // Insert contiguous
    assert_eq!(name_set.register_event_name("Event1", Some("File1"), None, Some(1)), 1);
    assert_eq!(name_set.register_event_name("Event2", Some("File2"), None, Some(2)), 2);
    assert_eq!(name_set.register_event_name("Event3", Some("File3"), None, Some(3)), 3);
    assert_eq!(name_set.register_event_name("Event8.1", Some("File3"), Some(0), Some(8)), 8);
    assert_eq!(name_set.register_event_name("Event8.2", Some("File3"), Some(0), Some(8)), 9);
    assert_eq!(name_set.register_event_name("Event8.3", Some("File3"), Some(0), Some(8)), 10);
    assert_eq!(name_set.register_event_name("Event1.1", Some("File1"), Some(0), Some(1)), 4);

    assert_eq!(name_set.register_event_value_name("Value1", Some("File1"), None, 1, Some(1)), Ok(1));
    assert_eq!(name_set.register_event_value_name("Value2", Some("File1"), None, 1, Some(2)), Ok(2));
    assert_eq!(name_set.register_event_value_name("Value3", Some("File1"), None, 1, Some(3)), Ok(3));

    let pcf = name_set.create_pcf();
    assert!(pcf.starts_with("# File1:0\nEVENT_TYPE\n0 1 Event1\nVALUES\n"));
    assert!(pcf.contains("1 Event1:Value1\n"));
    assert!(pcf.contains("EVENT_TYPE\n0 10 Event8.3\n"));
}

#[test]
fn value_name_allocation() {
    let mut name_set = NameSet::new();
    assert_eq!(name_set.register_event_name("Event1", Some("File1"), None, Some(1)), 1);
    assert_eq!(name_set.register_event_value_name("V1", None, None, 1, Some(1)), Ok(1));
    assert_eq!(name_set.register_event_value_name("V2", None, None, 1, Some(2)), Ok(2));
    assert_eq!(name_set.register_event_value_name("V3", None, None, 1, Some(3)), Ok(3));
    assert_eq!(name_set.register_event_value_name("V4", None, None, 1, None), Ok(4));
}

#[test]
fn value_name_requires_event() {
    let mut name_set = NameSet::new();
    assert_eq!(
        name_set.register_event_value_name("Value1", None, None, 42, Some(1)),
        Err(RegisterError::UnknownEvent)
    );
}

#[test]
fn value_name_taken_is_refused() {
    let mut name_set = NameSet::new();
    assert_eq!(name_set.register_event_name("Event1", None, None, Some(1)), 1);
    assert_eq!(name_set.register_event_value_name("V1", None, None, 1, Some(5)), Ok(5));
    assert_eq!(
        name_set.register_event_value_name("V2", None, None, 1, Some(5)),
        Err(RegisterError::ValueTaken)
    );
}

#[test]
fn empty_name_is_synthesized() {
    let mut name_set = NameSet::new();
    let id = name_set.register_event_name("", Some("lib.rs"), Some(42), Some(7));
    assert_eq!(id, 7);
    assert!(name_set.get_event_value_info(7, None).is_some_and(|info| info.name == "lib.rs:42"));
}

#[test]
fn anonymous_ids_start_above_user_range() {
    let mut name_set = NameSet::new();
    let a = name_set.register_event_name("A", None, None, None);
    let b = name_set.register_event_name("B", None, None, None);
    assert_eq!(a, 32768);
    assert_eq!(b, 32769);
}
