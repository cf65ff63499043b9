use extrae_rs::bufferset::row_content;
use extrae_rs::global_info::is_valid_counter;
use extrae_rs::numfmt::u64_to_dec;
use extrae_rs::{ExtraeSubscriber, GlobalInfo, RegisterError, SubscriberContainer};

#[test]
fn decimal_formatting() {
    assert_eq!(u64_to_dec(0), "0");
    assert_eq!(u64_to_dec(7), "7");
    assert_eq!(u64_to_dec(12345), "12345");
    assert_eq!(u64_to_dec(u64::MAX), "18446744073709551615");
}

#[test]
fn row_text_is_exact() {
    let text = row_content("box", 2, 1);
    assert_eq!(
        text,
        "LEVEL CPU SIZE 2\n1.box\n2.box\n\nLEVEL NODE SIZE 1\nbox\n\nLEVEL THREAD SIZE 1\nTHREAD 1.1.1\n"
    );
}

#[test]
fn counter_names_are_filtered() {
    assert!(is_valid_counter("cycles"));
    assert!(is_valid_counter("page-faults-maj"));
    assert!(!is_valid_counter("bogus"));
    assert!(!is_valid_counter(""));
}

#[test]
fn coordinator_bootstrap() {
    let counters = vec![String::from("cycles"), String::from("bogus"), String::from("instructions")];
    let info = GlobalInfo::new(String::from("TRACEDIR_1"), 1000, 0, &counters, true);
    assert_eq!(info.thread_event_id, 32768);
    assert!(!info.finalized);
    assert!(info.automerge);
    // the unknown name is dropped, the known ones keep their ids
    assert_eq!(info.events_info.len(), 2);
    assert_eq!(info.events_info[0].0, "cycles");
    assert_eq!(info.events_info[1].0, "instructions");
    // the well-known event is in the dictionary
    assert!(info
        .get_event_value_info(32768, None)
        .is_some_and(|i| i.name == "ThreadRunning"));
    // and shows up in the naming dictionary text
    let pcf = info.name_set.create_pcf();
    assert!(pcf.contains("0 32768 ThreadRunning\n"));
}

#[test]
fn finalize_fires_once_for_main() {
    let counters: Vec<String> = Vec::new();
    let mut info = GlobalInfo::new(String::from("TRACEDIR_2"), 1000, 0, &counters, true);

    let worker = info.init_buffer(11, "worker");
    let main_buffer = info.init_buffer(22, "main");
    assert_eq!(info.buffer_set.threads_running, 2);

    // a worker retiring never finalizes
    assert!(!info.finalize_buffer(&worker));
    assert!(!info.finalized);

    // the main thread retiring does, exactly once, with nothing running
    assert!(info.finalize_buffer(&main_buffer));
    assert!(info.finalized);
    assert_eq!(info.buffer_set.threads_running, 0);

    // a later retirement cannot fire it again
    let late = info.init_buffer(22, "main");
    assert!(!info.finalize_buffer(&late));
}

#[test]
fn buffer_ordinals_are_stable_across_recycling() {
    let counters: Vec<String> = Vec::new();
    let mut info = GlobalInfo::new(String::from("TRACEDIR_3"), 1000, 0, &counters, false);
    let b1 = info.init_buffer(500, "a");
    assert_eq!(b1.id(), 1);
    assert!(!info.finalize_buffer(&b1));
    // the same thread key reappears: the ordinal is reused
    let b2 = info.init_buffer(500, "b");
    assert_eq!(b2.id(), 1);
    assert!(!info.finalize_buffer(&b2));
    // a new key gets the next ordinal
    let b3 = info.init_buffer(900, "c");
    assert_eq!(b3.id(), 2);
    assert!(!info.finalize_buffer(&b3));
    assert_eq!(info.buffer_set.threads_counter, 2);
    // with everyone retired the topology can be written
    let row = info.buffer_set.create_row();
    if let Some(text) = row {
        assert!(text.contains("LEVEL THREAD SIZE 2\n"));
    }
}

#[test]
fn subscriber_container_memoizes() {
    let mut c: SubscriberContainer<u32> = SubscriberContainer::new();
    let v = c.get_or_insert_with("alpha", || 5);
    assert_eq!(v, 5);
    // the stored value wins over a fresh default
    let v2 = c.get_or_insert_with("alpha", || 9);
    assert_eq!(v2, 5);
    assert_eq!(c.get("alpha"), Some(5));
    assert_eq!(c.get("beta"), None);
}

#[test]
fn subscriber_span_and_event_values() {
    let counters: Vec<String> = Vec::new();
    let mut info = GlobalInfo::new(String::from("TRACEDIR_4"), 1000, 0, &counters, true);
    let mut sub = ExtraeSubscriber::new(&mut info);

    let id1 = sub.span_id(&mut info, "request", Some("srv"), Some(10));
    let id2 = sub.span_id(&mut info, "request", None, None);
    assert_eq!(id1, id2);
    assert!(id1 > 32768);

    let v1 = sub.event_value(&mut info, "tick", "tick happened", None, None, Some(4));
    assert_eq!(v1, Ok(4));
    let v2 = sub.event_value(&mut info, "tick", "tick happened", None, None, None);
    assert_eq!(v2, Ok(4));
    // registering the same value again under another key is refused
    let v3 = sub.event_value(&mut info, "tock", "tock happened", None, None, Some(4));
    assert_eq!(v3, Err(RegisterError::ValueTaken));
}
