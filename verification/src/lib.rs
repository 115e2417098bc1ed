//! Ordering and pruning policy for a live-stream playlist.
//!
//! A playlist entry carries optional scheduled and actual start times and a
//! blocked flag. This crate defines the canonical order over such entries
//! (streamed newest-first, then scheduled newest-first, then the rest), the
//! classification that decides which entries to remove and why, and the plans
//! of remote operations (reorders, deletes) that a caller applies.

pub mod item;
pub mod classify;
pub mod order;
pub mod plan;
pub mod record;

pub use classify::Decision;
pub use classify::classify_items;
pub use item::Item;
pub use item::Timestamp;
pub use order::item_before;
pub use order::sort_items;
pub use plan::ReorderOp;
pub use plan::SortPlan;
pub use plan::plan_sort;
pub use record::RawEntry;
pub use record::RecordError;
pub use record::item_from_raw;
