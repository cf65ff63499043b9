use extrae_rs::event::{EventEntry, EventHeader, EventInfo};
use extrae_rs::Guard;

#[test]
fn eventinfo_construct() {
    assert_eq!(EventInfo { id: 2, value: 3 }, EventInfo::from((2, 3)));
    assert_eq!(EventInfo { id: 2, value: 3 }, (2, 3).into());
}

#[test]
fn eventinfo_order() {
    let event_entry1 = EventEntry::new(3, 4);
    let event_entry2 = EventEntry::new(1, 2);

    assert!(event_entry1 < event_entry2);

    let event_clone = event_entry1.clone();
    assert_eq!(event_entry1, event_clone);
}

#[test]
fn event_header_rebases_to_origin() {
    let h = EventHeader::now(u64::MAX);
    assert_eq!(h.time, 0);
}

#[test]
fn guard_emissions() {
    let (guard, enter) = Guard::new(7, 3);
    assert_eq!(enter, (7, 3));
    assert_eq!(guard.update(9), (7, 9));
    assert_eq!(guard.leave(), (7, 0));
}
