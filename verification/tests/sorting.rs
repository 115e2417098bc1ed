use chrono::DateTime;
use youtube_manager::{sort_items, Item, Timestamp};

fn ts(s: &str) -> Timestamp {
    let d = DateTime::parse_from_rfc3339(s).unwrap();
    Timestamp { secs: d.timestamp(), nanos: d.timestamp_subsec_nanos() }
}

fn new_item(n: u32) -> Item {
    assert!(n <= 9);
    Item {
        video_id: format!("v{}", n),
        playlist_item_id: format!("pii{}", n),
        title: format!("video {}", n),
        ..Default::default()
    }
}

fn new_scheduled_item(n: u32) -> Item {
    let mut i = new_item(n);
    i.scheduled_start_time = Some(ts(&format!("2021-09-30T10:55:0{}+01:00", n)));
    i
}

fn new_streamed_item(n: u32) -> Item {
    let mut i = new_scheduled_item(n);
    i.actual_start_time = Some(ts(&format!("2021-09-30T10:56:0{}+01:00", n)));
    i
}

fn assert_video_ids(v: Vec<Item>, expected: Vec<&str>) {
    assert_eq!(v.len(), expected.len());
    for (n, i) in v.iter().enumerate() {
        assert_eq!(i.video_id, expected.get(n).unwrap().to_owned());
    }
}

#[test]
fn sort_items_empty() {
    let mut v = vec![];
    sort_items(&mut v);
    assert_eq!(v, vec![]);
}

#[test]
fn sort_items_unstreamed_scheduled() {
    let mut v = vec![new_scheduled_item(1), new_scheduled_item(2)];
    sort_items(&mut v);
    assert_video_ids(v, vec!["v2", "v1"]);

    v = vec![new_scheduled_item(2), new_scheduled_item(1)];
    sort_items(&mut v);
    assert_video_ids(v, vec!["v2", "v1"]);
}

#[test]
fn sort_items_scheduled_before_unstreamed_unscheduled() {
    let mut v = vec![new_item(1), new_scheduled_item(2)];
    sort_items(&mut v);
    assert_video_ids(v, vec!["v2", "v1"]);

    v = vec![new_scheduled_item(1), new_item(2)];
    sort_items(&mut v);
    assert_video_ids(v, vec!["v1", "v2"]);
}

#[test]
fn sort_items_streamed() {
    let mut v = vec![new_streamed_item(1), new_streamed_item(2)];
    sort_items(&mut v);
    assert_video_ids(v, vec!["v2", "v1"]);

    v = vec![new_streamed_item(2), new_streamed_item(1)];
    sort_items(&mut v);
    assert_video_ids(v, vec!["v2", "v1"]);
}

#[test]
fn sort_items_streamed_before_scheduled() {
    let mut v = vec![new_scheduled_item(2), new_streamed_item(1)];
    sort_items(&mut v);
    assert_video_ids(v, vec!["v1", "v2"]);

    v = vec![new_streamed_item(1), new_scheduled_item(2)];
    sort_items(&mut v);
    assert_video_ids(v, vec!["v1", "v2"]);
}

#[test]
fn sort_items_streamed_before_unstreamed_scheduled() {
    let mut v = vec![new_item(2), new_streamed_item(1)];
    sort_items(&mut v);
    assert_video_ids(v, vec!["v1", "v2"]);

    v = vec![new_streamed_item(1), new_item(2)];
    sort_items(&mut v);
    assert_video_ids(v, vec!["v1", "v2"]);
}

#[test]
fn sort_items_unstreamed_unscheduled() {
    let mut v = vec![new_item(1), new_item(2)];
    sort_items(&mut v);
    assert_video_ids(v, vec!["v1", "v2"]);
}

#[test]
fn sort_items_mixed_tiers() {
    let mut v = vec![new_item(1), new_scheduled_item(2), new_streamed_item(3), new_streamed_item(4)];
    sort_items(&mut v);
    assert_video_ids(v, vec!["v4", "v3", "v2", "v1"]);
}

#[test]
fn sort_items_idempotent() {
    let mut v = vec![new_item(1), new_scheduled_item(2), new_streamed_item(3), new_streamed_item(4)];
    sort_items(&mut v);
    let once = v.clone();
    sort_items(&mut v);
    assert_eq!(v, once);
}

#[test]
fn sort_items_singleton() {
    let mut v = vec![new_streamed_item(3)];
    sort_items(&mut v);
    assert_video_ids(v, vec!["v3"]);
}

#[test]
fn sort_items_equal_stream_times_stable() {
    // Two entries streamed at the very same instant keep their fetched order.
    let mut a = new_item(1);
    a.actual_start_time = Some(ts("2021-09-30T10:56:01+01:00"));
    let mut b = new_item(2);
    b.actual_start_time = Some(ts("2021-09-30T10:56:01+01:00"));
    let mut v = vec![a, b];
    sort_items(&mut v);
    assert_video_ids(v, vec!["v1", "v2"]);
}

#[test]
fn sort_items_equal_offsets_tie() {
    // The same instant written with two different UTC offsets: neither entry
    // must precede the other, so the stable sort keeps the fetched order.
    let mut a = new_item(1);
    a.scheduled_start_time = Some(ts("2021-09-30T10:55:02+01:00"));
    let mut b = new_item(2);
    b.scheduled_start_time = Some(ts("2021-09-30T09:55:02Z"));
    let mut v = vec![a, b];
    sort_items(&mut v);
    assert_video_ids(v, vec!["v1", "v2"]);
}
