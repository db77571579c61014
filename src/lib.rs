//! A small content-addressable object store in the style of git's plumbing:
//! blobs and trees with a canonical byte encoding, SHA-1 addressing, zlib
//! storage and a tree builder over directory snapshots.

pub mod error;
pub mod hex;
pub mod codec;
pub mod decimal;
pub mod object;
pub mod order;
pub mod parse;
pub mod laws;
pub mod snapshot;
pub mod commit;
