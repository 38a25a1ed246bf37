//! Translating a line-oriented text file with a pool of workers.
//!
//! The lines of a file are divided into contiguous chunks, one for each
//! worker. A worker goes through its chunk batch by batch: it asks a remote
//! chat-completion endpoint to translate the batch, reads the answer, and
//! writes each translated line back at the position of the line it came
//! from. A batch always comes back with as many lines as went in; a line
//! that the endpoint did not answer, or a batch whose call failed, stays as
//! it was. A run can be cancelled: workers look at the signal before each
//! batch, and a cancelled run writes no file.
//!
//! This crate holds the rules of that pipeline, each with its contract. It
//! does no input or output itself: whoever uses it reads the file, sends
//! the requests, runs the workers side by side and writes the result.
//!
//! - [`text`]: searching, splitting and trimming text.
//! - [`store`]: the lines of the file.
//! - [`partition`]: dividing lines among workers.
//! - [`request`]: what is sent for a batch.
//! - [`json`], [`stream`]: reading what the endpoint answers.
//! - [`reply`], [`batch`]: putting a batch back together.
//! - [`worker`]: one worker's way through its chunk.
//! - [`run`]: the cancellation signal, the plan of a run and its end.
//! - [`progress`]: what workers report.
//! - [`models`]: listing the endpoint's models.

pub mod batch;
pub mod json;
pub mod models;
pub mod partition;
pub mod progress;
pub mod reply;
pub mod request;
pub mod run;
pub mod store;
pub mod stream;
pub mod text;
pub mod worker;
