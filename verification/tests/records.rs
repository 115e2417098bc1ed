use chrono::DateTime;
use youtube_manager::{item_from_raw, item_before, Item, RawEntry, RecordError};

fn raw(video_id: &str) -> RawEntry {
    RawEntry {
        video_id: Some(video_id.to_owned()),
        playlist_item_id: Some(format!("pii-{}", video_id)),
        title: Some(format!("video {}", video_id)),
        scheduled_start_time: None,
        actual_start_time: None,
        blocked_regions: None,
    }
}

#[test]
fn record_builds_item_with_parsed_times() {
    let mut r = raw("v1");
    r.scheduled_start_time = Some("2021-09-30T10:55:02+01:00".to_owned());
    r.actual_start_time = Some("2021-09-30T10:56:02+01:00".to_owned());
    let it = item_from_raw(r).unwrap();
    assert_eq!(it.video_id, "v1");
    assert_eq!(it.playlist_item_id, "pii-v1");
    assert_eq!(it.title, "video v1");
    assert!(!it.blocked);

    let sched = DateTime::parse_from_rfc3339("2021-09-30T10:55:02+01:00").unwrap();
    let actual = DateTime::parse_from_rfc3339("2021-09-30T10:56:02+01:00").unwrap();
    let s = it.scheduled_start_time.unwrap();
    assert_eq!(s.secs, sched.timestamp());
    assert_eq!(s.nanos, sched.timestamp_subsec_nanos());
    let a = it.actual_start_time.unwrap();
    assert_eq!(a.secs, actual.timestamp());
    assert_eq!(a.nanos, actual.timestamp_subsec_nanos());
    // The offset is folded into the instant, not dropped: 10:56:02+01:00 is
    // 09:56:02 UTC.
    assert_eq!(a.secs % 60, 2);
    assert_eq!((a.secs / 60) % 60, 56);
    assert_eq!((a.secs / 3600) % 24, 9);
}

#[test]
fn record_missing_video_id() {
    let mut r = raw("v1");
    r.video_id = None;
    assert_eq!(item_from_raw(r).unwrap_err(), RecordError::MissingVideoId);
}

#[test]
fn record_missing_playlist_item_id() {
    let mut r = raw("v1");
    r.playlist_item_id = None;
    assert_eq!(item_from_raw(r).unwrap_err(), RecordError::MissingPlaylistItemId);
}

#[test]
fn record_missing_title() {
    let mut r = raw("v1");
    r.title = None;
    assert_eq!(item_from_raw(r).unwrap_err(), RecordError::MissingTitle);
}

#[test]
fn record_malformed_scheduled_time_is_fatal() {
    let mut r = raw("v1");
    r.scheduled_start_time = Some("2021-09-30 10:55:02".to_owned());
    assert_eq!(item_from_raw(r).unwrap_err(), RecordError::InvalidScheduledStartTime);
}

#[test]
fn record_malformed_actual_time_is_fatal() {
    let mut r = raw("v1");
    r.scheduled_start_time = Some("2021-09-30T10:55:02+01:00".to_owned());
    r.actual_start_time = Some("not a timestamp".to_owned());
    assert_eq!(item_from_raw(r).unwrap_err(), RecordError::InvalidActualStartTime);
}

#[test]
fn record_missing_id_reported_before_bad_time() {
    let mut r = raw("v1");
    r.video_id = None;
    r.actual_start_time = Some("not a timestamp".to_owned());
    assert_eq!(item_from_raw(r).unwrap_err(), RecordError::MissingVideoId);
}

#[test]
fn record_blocked_from_region_list() {
    let mut r = raw("v1");
    r.blocked_regions = Some(vec!["DE".to_owned(), "FR".to_owned()]);
    assert!(item_from_raw(r).unwrap().blocked);

    let mut r = raw("v2");
    r.blocked_regions = Some(Vec::new());
    assert!(!item_from_raw(r).unwrap().blocked);

    let r = raw("v3");
    assert!(!item_from_raw(r).unwrap().blocked);
}

#[test]
fn record_times_order_chronologically() {
    // Parsed instants must order the way the written timestamps do; handing
    // back anything but the real parse would break this.
    let mut r1 = raw("v1");
    r1.actual_start_time = Some("2021-09-30T10:56:01+01:00".to_owned());
    let mut r2 = raw("v2");
    r2.actual_start_time = Some("2021-09-30T10:56:02+01:00".to_owned());
    let i1 = item_from_raw(r1).unwrap();
    let i2 = item_from_raw(r2).unwrap();
    assert!(item_before(&i2, &i1));
    assert!(!item_before(&i1, &i2));
}

#[test]
fn item_invalid_flag() {
    let no_times = Item {
        video_id: "v1".to_owned(),
        ..Default::default()
    };
    assert!(no_times.is_invalid());
    let mut with_schedule = no_times.clone();
    with_schedule.scheduled_start_time =
        item_from_raw({
            let mut r = raw("v1");
            r.scheduled_start_time = Some("2021-09-30T10:55:02+01:00".to_owned());
            r
        })
        .unwrap()
        .scheduled_start_time;
    assert!(!with_schedule.is_invalid());
}
