//! The core of a small concurrent HTTP server: everything that decides, and
//! nothing that reads, writes or waits.
//!
//! - `status`, `verb`: status codes with their reason phrases, and request
//!   methods.
//! - `header_map`, `request_params`: the two stores of a request.
//! - `reader`, `request`: bounded reading from the bytes at hand, and the
//!   parser that turns them into a request or into the status to refuse
//!   them with.
//! - `response`, `connection`: the bytes that answer a request, and one
//!   connection from its first byte to its answer.
//! - `pool`: the job queue that the workers of a pool share.
//! - `text`, `number`, `logging`: text, decimal numbers and log records.
//!
//! Each function states in its contract what it returns, over the spec
//! functions of its module, and Verus proves that it does.

pub mod connection;
pub mod header_map;
pub mod logging;
pub mod number;
pub mod pool;
pub mod reader;
pub mod request;
pub mod request_params;
pub mod response;
pub mod status;
pub mod text;
pub mod verb;
