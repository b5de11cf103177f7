//! Compact, totally-ordered, human-readable identifiers for stream/log entry
//! keys: fixed-width big-endian byte counters, optionally tagged with a
//! namespace prefix and/or a creation timestamp, plus a bounded double-ended
//! generator that enumerates a run of such identifiers.

pub mod codec;
pub mod counter;
pub mod generator;
pub mod id;
pub mod numeric;
pub mod sequence;
pub mod timestamp;
