//! Encoder for Unix `ar` archive files, GNU variant.
//!
//! An archive is a fixed 8-byte magic followed by members, each framed by a
//! 60-byte fixed-width ASCII header and padded to an even offset.  Member
//! names longer than the 16-byte inline field are stored in an extended name
//! table member and referenced by offset.

pub mod fmt;
pub mod header;
pub mod builder;
pub mod parse;

pub use fmt::num_digits;
pub use header::{Header, Error, Field};
pub use builder::GnuBuilder;
