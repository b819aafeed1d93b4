//! Astronomical scheduling and device reconciliation engine for networked
//! RGB lighting controllers.
//!
//! The crate resolves abstract schedule points (sunrise, sunset, offsets from
//! either, or fixed wall-clock times) into concrete per-day timestamps, turns
//! an ordered list of schedule events into a continuous brightness value and a
//! discrete active preset through day-circular interpolation, tracks
//! discovered controllers in a device cache, and makes the per-tick decisions
//! of the reconciliation loop.  All time and brightness arithmetic is carried
//! out over plain integers: timestamps are epoch seconds, and brightness
//! fractions are measured in thousandths (0 = undimmed, 1000 = fully dimmed).

pub mod control;
pub mod laws;
pub mod devices;
pub mod schedule;
pub mod types;


