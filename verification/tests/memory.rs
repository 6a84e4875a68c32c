use ferrite::logbuf::{filter_directive, rank_of, LogBuffer, CAPACITY};
use ferrite::memstats::{heap_live_bytes, heap_peak_bytes, smaps_rollup, Gauge, HeapCount};

#[test]
fn gauge_counts_guards_across_all_drop_paths() {
    let mut g = Gauge::new();
    assert_eq!(g.get(), 0);
    let a = g.guard();
    let b = g.guard();
    assert_eq!(g.get(), 2);
    g.release(a);
    assert_eq!(g.get(), 1);
    g.release(b);
    assert_eq!(g.get(), 0);
    assert_eq!(Gauge::default().get(), 0);
}

#[test]
fn heap_counter_tracks_a_real_allocation() {
    let mut heap = HeapCount::new();
    heap.add(4096);
    let before = heap_live_bytes(&heap);
    let v = vec![0u8; 1 << 20];
    heap.add(v.capacity());
    let during = heap_live_bytes(&heap);
    heap.sub(v.capacity());
    assert!(during >= before + (1 << 20));
    assert!(
        heap_peak_bytes(&heap) >= during,
        "peak must cover the high-water mark"
    );
    assert_eq!(heap_live_bytes(&heap), before);
}

#[test]
fn resizing_counts_both_sizes() {
    let mut heap = HeapCount::new();
    heap.add(100);
    heap.resize(100, 40);
    assert_eq!((heap_live_bytes(&heap), heap_peak_bytes(&heap)), (40, 100));
    heap.resize(40, 140);
    assert_eq!((heap_live_bytes(&heap), heap_peak_bytes(&heap)), (140, 140));
}

#[test]
fn resident_memory_is_reported_in_bytes() {
    let text = "5581 [rollup]\nRss:               16384 kB\nPss: 1 kB\nAnonymous:          9000 kB\n";
    let r = smaps_rollup(text).unwrap();
    assert_eq!(r.rss_bytes, 16384 * 1024);
    assert_eq!(r.anonymous_bytes, 9000 * 1024);
    assert!(smaps_rollup("Rss: 1 kB\n").is_none());
    assert!(smaps_rollup("Rss: x kB\nAnonymous: 1 kB\n").is_none());
    assert!(smaps_rollup("Rss:\nAnonymous: 1 kB\n").is_none());
}

#[test]
fn ring_caps_filters_and_cursors() {
    let mut buf = LogBuffer::new();
    buf.push("INFO", "ferrite::a".to_string(), "hello".to_string(), 1);
    buf.push("WARN", "ferrite::b".to_string(), "careful".to_string(), 2);
    buf.push("ERROR", "ferrite::c".to_string(), "boom".to_string(), 3);

    let all = buf.recent(0, 0, 100);
    assert_eq!(all.len(), 3);
    assert_eq!(all[0].message, "hello");
    assert_eq!(all[2].message, "boom");

    let warn = buf.recent(0, rank_of("warn"), 100);
    assert_eq!(warn.len(), 2);
    assert!(warn.iter().all(|e| e.level != "INFO"));

    let after = buf.recent(all[0].id, 0, 100);
    assert_eq!(after.len(), 2);
    assert!(after.iter().all(|e| e.id > all[0].id));

    let last = buf.recent(0, 0, 1);
    assert_eq!(last.len(), 1);
    assert_eq!(last[0].message, "boom");
}

#[test]
fn the_oldest_record_makes_room() {
    let mut buf = LogBuffer::new();
    for i in 0..(CAPACITY + 5) {
        buf.push("DEBUG", "t".to_string(), format!("m{i}"), i as i64);
    }
    let all = buf.recent(0, 0, usize::MAX);
    assert_eq!(all.len(), CAPACITY);
    assert_eq!(all[0].message, "m5");
    assert_eq!(all[0].id, 6);
}

#[test]
fn levels_have_ranks() {
    assert_eq!(rank_of("error"), 4);
    assert_eq!(rank_of("Warn"), 3);
    assert_eq!(rank_of("INFO"), 2);
    assert_eq!(rank_of("debug"), 1);
    assert_eq!(rank_of("trace"), 0);
    assert_eq!(rank_of("?"), 0);
    assert_eq!(filter_directive(true), "ferrite=debug");
    assert_eq!(filter_directive(false), "ferrite=info");
}
