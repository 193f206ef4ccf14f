//! The analysis scheduler of a language server.
//!
//! The main thread sends commands to a background worker: analyze a package, build a document
//! view, tell the package cache which buckets are open, stop. The worker takes in what is there,
//! keeps at most one waiting job per key and at most one package snapshot per URI, works on the
//! newest one, packages before views, and answers every job that it runs with one event. So it
//! does with a job that goes to make room, or for a snapshot of its document under another key; a
//! job that another replaces under its own key goes without one.
//!
//! [`scheduler`] and [`worker`] hold the two ends. [`model`] says what commands do to the waiting
//! jobs, [`jobs`] what a job's answer is, and [`laws`] what holds of the whole. [`promises`] states
//! what a caller can rely on, call by call. The outside work is done by the functions in [`tools`].
pub mod cancel;
pub mod channel;
pub mod intake;
pub mod jobs;
pub mod keys;
pub mod laws;
pub mod model;
pub mod pending;
pub mod promises;
pub mod protocol;
pub mod scheduler;
pub mod tools;
pub mod worker;
