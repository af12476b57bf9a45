//! Locates live player data inside a running game process.
//!
//! The crate compiles a wildcard-capable byte-pattern signature, scans a
//! snapshot of a foreign process's module memory for it in fixed-size chunks,
//! follows a displacement-based pointer chain from the match to the player
//! structure, caches the resolved addresses per process, and reads the player's
//! name and job out of the resolved structure to build a window title.
//!
//! All process enumeration and raw OS memory reads happen outside this crate;
//! the logic here works over [`memory::ProcessImage`], a snapshot of the bytes
//! that those reads returned.

pub mod memory;
pub mod pattern;
pub mod player;
pub mod resolve;
pub mod scan;
pub mod session;
