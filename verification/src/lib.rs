//! Reads the annotated header line of a benchmark result: a quoted list of
//! `key: value` pairs that names the pallet, the extrinsic, and the numbers of
//! steps and repetitions of a run.
//!
//! `grammar` states what a header means, over sequences of characters;
//! `scan` and `header` read one, by position and on strings; `laws` proves
//! what holds of every header, and `written` that a header written out from
//! its pairs is read back as those pairs; `extent` keeps the bounds of the
//! rows that follow a header.
pub mod extent;
pub mod grammar;
pub mod header;
pub mod laws;
pub mod model;
pub mod scan;
pub mod written;
