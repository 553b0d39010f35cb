//! A live-process memory token scanner: walks a target process's committed,
//! readable memory regions in bounded, overlapping chunks and searches each
//! chunk for a token whose body is a hyphenated hexadecimal identifier
//! bracketed by a pair of anchor byte sequences. The pattern matcher, the
//! chunk schedule, the scan state machine and the region-line parser are
//! verified; the operating-system calls stand behind small trusted wrappers.

pub mod chunks;
pub mod log;
pub mod machine;
pub mod parser;
pub mod pattern;
pub mod region;
pub mod session;
