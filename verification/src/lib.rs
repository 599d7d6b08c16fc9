//! A single fixed-size storage page holding short, fixed-length records
//! behind a slotted directory.
//!
//! The page is a flat buffer of exactly 256 bytes, partitioned into a
//! reserved header, a record area of 22 eight-byte slots, a slot directory
//! growing downward from the high end, and a three-byte trailer
//! (`record_count`, `next_hint_order`, `has_space`). The operations are
//! initialize, insert, point lookup by identifier, and delete with
//! free-slot reclamation. Persistence of the buffer is left to the caller.

pub mod directory;
pub mod layout;
pub mod laws;
pub mod page;
pub mod records;
