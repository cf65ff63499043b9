use extrae_rs::bufferinfo::{BufferInfo, TraceHeader};
use extrae_rs::event::{EventEntry, EventHeader, EventInfo};
use extrae_rs::{MergeError, Merger};

fn entry(time: u64, core: u16, id: u16, value: u32) -> EventEntry {
    EventEntry { hdr: EventHeader { time, core }, info: EventInfo { id, value } }
}

fn file(ordinal: u32, tid: u64, start: u64, entries: Vec<EventEntry>) -> BufferInfo {
    let total = entries.len() as u32;
    BufferInfo {
        header: TraceHeader { id: ordinal, tid, start_gtime: start, total_flushed: total },
        entries,
    }
}

#[test]
fn merge_of_no_files_reports_no_events() {
    let files: Vec<BufferInfo> = Vec::new();
    match Merger::new(&files) {
        Err(MergeError::NoEvents) => {},
        _ => panic!("a trace with no files must be refused"),
    }
}

#[test]
fn merge_of_empty_files_reports_no_events() {
    let files = vec![file(1, 10, 100, Vec::new()), file(2, 20, 100, Vec::new())];
    match Merger::new(&files) {
        Err(MergeError::NoEvents) => {},
        _ => panic!("a trace with no records must be refused"),
    }
}

#[test]
fn merge_refuses_mismatched_starts() {
    let files = vec![
        file(1, 10, 100, vec![entry(1, 0, 1, 1)]),
        file(2, 20, 200, vec![entry(2, 0, 2, 1)]),
    ];
    match Merger::new(&files) {
        Err(MergeError::StartMismatch) => {},
        _ => panic!("files that disagree about the start must be refused"),
    }
}

#[test]
fn merge_single_file_is_sorted_and_complete() {
    // six user events plus the thread enter/leave pair
    let records = vec![
        entry(1, 0, 32768, 1),
        entry(2, 0, 1, 1),
        entry(3, 0, 2, 7),
        entry(4, 0, 3, 8),
        entry(5, 0, 4, 9),
        entry(6, 0, 5, 10),
        entry(7, 0, 6, 11),
        entry(8, 0, 32768, 0),
    ];
    let files = vec![file(1, 10, 100, records)];
    let merger = Merger::new(&files).unwrap();
    let total: usize = merger.events.iter().map(|e| e.events.len()).sum();
    assert_eq!(total, 8);
    for pair in merger.events.windows(2) {
        assert!(pair[0].time <= pair[1].time);
    }
    assert_eq!(merger.threads, vec![1]);
    assert_eq!(merger.start_global_time, 100);
}

#[test]
fn merge_groups_within_one_file_only() {
    // thread A emits id 10 twice at one instant; thread B emits id 11 at
    // the same instant and later: the identical headers from different
    // files must not share a line
    let a = file(1, 10, 100, vec![entry(5, 0, 10, 1), entry(5, 0, 10, 0)]);
    let b = file(2, 20, 100, vec![entry(5, 0, 11, 1), entry(6, 0, 11, 0)]);
    let files = vec![a, b];
    let merger = Merger::new(&files).unwrap();

    let total: usize = merger.events.iter().map(|e| e.events.len()).sum();
    assert_eq!(total, 4);
    for ev in merger.events.iter() {
        let has10 = ev.events.iter().any(|i| i.id == 10);
        let has11 = ev.events.iter().any(|i| i.id == 11);
        assert!(!(has10 && has11));
    }
    // the two same-header records of thread A share one line
    let grouped = merger
        .events
        .iter()
        .find(|e| e.tid == 1 && e.time == 5)
        .expect("thread A's line exists");
    assert_eq!(grouped.events.len(), 2);
    assert_eq!(grouped.events[0], EventInfo { id: 10, value: 1 });
    assert_eq!(grouped.events[1], EventInfo { id: 10, value: 0 });
    for pair in merger.events.windows(2) {
        assert!(pair[0].time <= pair[1].time);
    }
    assert_eq!(merger.threads, vec![1, 2]);
}

#[test]
fn merge_keeps_per_file_order() {
    let a = file(1, 10, 100, vec![entry(1, 0, 1, 1), entry(3, 0, 1, 2), entry(9, 0, 1, 3)]);
    let b = file(2, 20, 100, vec![entry(2, 1, 2, 1), entry(8, 1, 2, 2)]);
    let files = vec![a, b];
    let merger = Merger::new(&files).unwrap();
    let mut seen_a: Vec<u32> = Vec::new();
    let mut seen_b: Vec<u32> = Vec::new();
    for ev in merger.events.iter() {
        for info in ev.events.iter() {
            if ev.tid == 1 {
                seen_a.push(info.value);
            } else {
                assert_eq!(ev.tid, 2);
                seen_b.push(info.value);
            }
        }
    }
    assert_eq!(seen_a, vec![1, 2, 3]);
    assert_eq!(seen_b, vec![1, 2]);
    assert_eq!(merger.cores, vec![0, 1]);
}

#[test]
fn prv_text_lists_every_line() {
    let a = file(1, 10, 1000000, vec![entry(5, 0, 10, 1), entry(5, 0, 10, 0)]);
    let b = file(2, 20, 1000000, vec![entry(6, 2, 11, 1)]);
    let files = vec![a, b];
    let merger = Merger::new(&files).unwrap();
    let text = merger.create_prv().expect("the date formats");
    let lines: Vec<&str> = text.lines().collect();
    assert!(lines[0].starts_with("#Paraver ("));
    // duration 1 ns, largest core 2, two threads
    assert!(lines[0].ends_with("):1_ns:1(2):1:1(2:1)"));
    assert_eq!(lines[1], "2:0:1:1:1:5:10:1:10:0");
    assert_eq!(lines[2], "2:2:1:1:2:6:11:1");
    assert_eq!(lines.len(), 3);
}

#[test]
fn merge_breaks_ties_by_file_position() {
    // equal timestamps across files: the earlier file in the input set wins,
    // whatever its ordinal
    let a = file(2, 10, 100, vec![entry(5, 0, 10, 1)]);
    let b = file(1, 20, 100, vec![entry(5, 0, 11, 1)]);
    let files = vec![a, b];
    let merger = Merger::new(&files).unwrap();
    assert_eq!(merger.events.len(), 2);
    assert_eq!(merger.events[0].events[0].id, 10);
    assert_eq!(merger.events[1].events[0].id, 11);
}
