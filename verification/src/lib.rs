//! A browser-control protocol client for driving a browser over its remote
//! debugging channel, together with the small amount of page logic needed to
//! search an academic-paper index and fetch individual papers.
//!
//! The heart of the crate is the wire layer: a JSON value model with a
//! verified serializer and parser (`json`), command/response envelopes
//! (`wire`), and a command/response correlator that matches asynchronous
//! responses to the commands that requested them (`correlator`). Around it
//! stand the process supervisor's launch planning and endpoint discovery
//! (`supervisor`), the polling loop used to await page conditions (`poll`),
//! and the paper-index client logic (`arxiv`). All I/O is left to the
//! surrounding binary; every function here is pure state transformation and
//! is verified.

pub mod arxiv;
pub mod config;
pub mod correlator;
pub mod errors;
pub mod json;
pub mod models;
pub mod poll;
pub mod session;
pub mod strutil;
pub mod supervisor;
pub mod wire;
