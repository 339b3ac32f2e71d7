//! Discovery and safe editing of `.env`-style configuration files.
//!
//! The crate has three parts: a scanner core that turns a list of
//! filesystem entries into a deterministic, grouped inventory; a path
//! sandbox that restricts reads and writes to the files of the most
//! recent completed scan; and a line classifier that losslessly maps
//! file text to a typed line model and back.

pub mod docs;
pub mod errors;
pub mod ident;
pub mod lines;
pub mod paths;
pub mod sandbox;
pub mod scan;
pub mod writer;
