use vstd::prelude::*;
use crate::item::{Item, Timestamp};

verus! {

/// One playlist entry as the remote source hands it over, before any
/// validation: every field the listing may omit is optional, and the
/// timestamps are still RFC 3339 strings.
pub struct RawEntry {
    pub video_id: Option<String>,
    pub playlist_item_id: Option<String>,
    pub title: Option<String>,
    pub scheduled_start_time: Option<String>,
    pub actual_start_time: Option<String>,
    pub blocked_regions: Option<Vec<String>>,
}

/// Why a raw entry cannot become an `Item`: a required identifier or title is
/// missing, or a timestamp string is not valid RFC 3339. Both are fatal; a
/// malformed timestamp is never treated as merely absent.
#[derive(Clone, Copy, PartialEq, Eq, Structural, Debug)]
pub enum RecordError {
    MissingVideoId,
    MissingPlaylistItemId,
    MissingTitle,
    InvalidScheduledStartTime,
    InvalidActualStartTime,
}

/// The instant an RFC 3339 timestamp string denotes, if it is valid: seconds
/// since the Unix epoch and nanoseconds within that second.
pub uninterp spec fn rfc3339_instant(s: Seq<char>) -> Option<(i64, u32)>;

/// Relies on chrono's `DateTime::parse_from_rfc3339`, a strict parser whose
/// result depends on the input characters alone, together with `timestamp`
/// (non-leap seconds since the Unix epoch) and `timestamp_subsec_nanos`
/// (nanoseconds within that second) to read the parsed instant back as plain
/// integers.
#[verifier::external_body]
fn parse_rfc3339(s: &str) -> (r: Option<Timestamp>)
    ensures
        r matches Some(t) ==> rfc3339_instant(s@) == Some((t.secs, t.nanos)),
        r is None ==> rfc3339_instant(s@) is None,
{
    match chrono::DateTime::parse_from_rfc3339(s) {
        Ok(d) => Some(Timestamp { secs: d.timestamp(), nanos: d.timestamp_subsec_nanos() }),
        Err(_) => None,
    }
}

/// The error an entry must fail with, if any: identifiers are checked first,
/// then the title, then each timestamp, in the order the fields are read.
pub open spec fn expected_error(raw: RawEntry) -> Option<RecordError> {
    if raw.video_id is None {
        Some(RecordError::MissingVideoId)
    } else if raw.playlist_item_id is None {
        Some(RecordError::MissingPlaylistItemId)
    } else if raw.title is None {
        Some(RecordError::MissingTitle)
    } else if raw.scheduled_start_time matches Some(s) && rfc3339_instant(s@) is None {
        Some(RecordError::InvalidScheduledStartTime)
    } else if raw.actual_start_time matches Some(s) && rfc3339_instant(s@) is None {
        Some(RecordError::InvalidActualStartTime)
    } else {
        None
    }
}

/// The timestamp a parsed optional field must hold.
pub open spec fn expected_instant(field: Option<String>) -> Option<Timestamp> {
    match field {
        Some(s) => match rfc3339_instant(s@) {
            Some(p) => Some(Timestamp { secs: p.0, nanos: p.1 }),
            None => None,
        },
        None => None,
    }
}

/// A video is blocked when the region-restriction block list exists and is
/// non-empty.
pub open spec fn expected_blocked(regions: Option<Vec<String>>) -> bool {
    regions matches Some(l) && l@.len() > 0
}

/// Validate one raw entry and build the `Item` the policy works on: required
/// fields must be present, timestamps must parse as RFC 3339 (strictly — a
/// malformed one is an error, never "absent"), and the blocked flag is the
/// non-emptiness of the block list.
pub fn item_from_raw(raw: RawEntry) -> (r: Result<Item, RecordError>)
    ensures
        match r {
            Ok(it) => {
                &&& expected_error(raw) is None
                &&& Some(it.video_id) == raw.video_id
                &&& Some(it.playlist_item_id) == raw.playlist_item_id
                &&& Some(it.title) == raw.title
                &&& it.scheduled_start_time == expected_instant(raw.scheduled_start_time)
                &&& it.actual_start_time == expected_instant(raw.actual_start_time)
                &&& it.blocked == expected_blocked(raw.blocked_regions)
            },
            Err(e) => expected_error(raw) == Some(e),
        },
{
    let RawEntry { video_id, playlist_item_id, title, scheduled_start_time, actual_start_time, blocked_regions } = raw;
    let video_id = match video_id {
        Some(v) => v,
        None => {
            return Err(RecordError::MissingVideoId);
        },
    };
    let playlist_item_id = match playlist_item_id {
        Some(v) => v,
        None => {
            return Err(RecordError::MissingPlaylistItemId);
        },
    };
    let title = match title {
        Some(v) => v,
        None => {
            return Err(RecordError::MissingTitle);
        },
    };
    let scheduled = match &scheduled_start_time {
        Some(s) => match parse_rfc3339(s.as_str()) {
            Some(t) => Some(t),
            None => {
                return Err(RecordError::InvalidScheduledStartTime);
            },
        },
        None => None,
    };
    let actual = match &actual_start_time {
        Some(s) => match parse_rfc3339(s.as_str()) {
            Some(t) => Some(t),
            None => {
                return Err(RecordError::InvalidActualStartTime);
            },
        },
        None => None,
    };
    let blocked = match &blocked_regions {
        Some(l) => l.len() > 0,
        None => false,
    };
    Ok(
        Item {
            video_id,
            playlist_item_id,
            title,
            scheduled_start_time: scheduled,
            actual_start_time: actual,
            blocked,
        },
    )
}

} // verus!
