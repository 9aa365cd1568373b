//! The deterministic core of a linter for Traditional Chinese as it is written
//! in Taiwan: the JSON-RPC messages and protocol revisions of its server, the
//! questions it puts to a client's language model and what their answers do to
//! an issue, the discovery of the files it scans, and the help texts and hook
//! notices of its build.

pub mod bulk;
pub mod cache;
pub mod discover;
pub mod help_blocks;
pub mod hooks;
pub mod issue;
pub mod json;
pub mod jsonrpc;
pub mod judgment;
pub mod matching;
pub mod prompt;
pub mod refine;
pub mod revisions;
pub mod sampling;
pub mod text;
