//! A local media-streaming core: an HTTP byte-range resolver and response
//! planner, a single-slot registry for the file being served, and a durable
//! index that maps a download's content hash to external catalog metadata.
//!
//! Everything here is plain computation with contracts; the surrounding
//! process supplies sockets, files and clocks.

pub mod digits;
pub mod index;
pub mod paths;
pub mod range;
pub mod registry;
pub mod respond;
pub mod search;
pub mod seqs;
pub mod settings;
pub mod text;
pub mod tmdb;
pub mod transmux;
pub mod watch;
