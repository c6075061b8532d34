//! Verified core of a Linsn LED frame transmitter.
//!
//! The crate models the Linsn wire format (a 32-byte header with a
//! two's-complement byte-sum checksum followed by 1440 payload bytes),
//! chunks a 1024x512 RGB frame into Ethernet II packets, and provides the
//! compositing surface and double-buffered frame exchange that feed the
//! sender. All packet construction and pixel arithmetic is verified; the
//! raw-socket transmission itself lives outside the library.

pub mod exchange;
pub mod linsn;
pub mod panel;
pub mod sender;
pub mod sprite;
