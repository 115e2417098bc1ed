use vstd::prelude::*;

verus! {

/// An instant on the time line, as read from an RFC 3339 timestamp with an
/// explicit UTC offset: seconds since the Unix epoch together with the
/// nanoseconds within that second.
#[derive(Clone, Copy, PartialEq, Eq, Structural, Debug)]
pub struct Timestamp {
    pub secs: i64,
    pub nanos: u32,
}

impl Timestamp {
    /// `self` is at or after `other`.
    pub open spec fn spec_ge(self, other: Timestamp) -> bool {
        self.secs > other.secs || (self.secs == other.secs && self.nanos >= other.nanos)
    }

    /// `self` is strictly after `other`.
    pub open spec fn spec_gt(self, other: Timestamp) -> bool {
        self.secs > other.secs || (self.secs == other.secs && self.nanos > other.nanos)
    }

    pub fn gt(&self, other: &Timestamp) -> (r: bool)
        ensures
            r == self.spec_gt(*other),
    {
        self.secs > other.secs || (self.secs == other.secs && self.nanos > other.nanos)
    }
}

/// One playlist entry, a read-only snapshot of the underlying video's state at
/// fetch time. `playlist_item_id` identifies this membership of the playlist;
/// `video_id` identifies the video itself.
#[derive(Debug, Default, PartialEq)]
pub struct Item {
    pub video_id: String,
    pub playlist_item_id: String,
    pub title: String,
    pub scheduled_start_time: Option<Timestamp>,
    pub actual_start_time: Option<Timestamp>,
    pub blocked: bool,
}

impl Item {
    /// The "invalid" report flag: the entry carries no schedule information.
    pub fn is_invalid(&self) -> (r: bool)
        ensures
            r == (self.scheduled_start_time is None),
    {
        self.scheduled_start_time.is_none()
    }
}

impl Clone for Item {
    fn clone(&self) -> (r: Item)
        ensures
            r == *self,
    {
        Item {
            video_id: self.video_id.clone(),
            playlist_item_id: self.playlist_item_id.clone(),
            title: self.title.clone(),
            scheduled_start_time: self.scheduled_start_time,
            actual_start_time: self.actual_start_time,
            blocked: self.blocked,
        }
    }
}

} // verus!
