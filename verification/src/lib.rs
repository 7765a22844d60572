//! Core of a document-digitisation pipeline: pages extracted from scanned
//! images are collected in their original order, an optional profile page is
//! prepended, and the result is serialised as a JSON document.
//!
//! The library holds the decision and ordering logic, fully verified: how one
//! recognition outcome becomes a page, how a directory's surviving pages are
//! ordered, when a profile page stands first, how many calls may be in flight
//! at once, and what exactly is written to disk.  The surrounding program
//! performs the recognition calls, the asynchronous scheduling and the file
//! I/O, and hands plain values in and out.

pub mod json;
pub mod page;
pub mod pipeline;
pub mod schedule;
