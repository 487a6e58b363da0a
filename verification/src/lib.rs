//! Shell-profile environment variable engine.
//!
//! The library parses `export KEY=value[:value...]` statements from the text
//! of a shell initialization file, resolves `$VAR`-style references against a
//! growing mapping, folds the decoded lines into a mapping seeded with the
//! live process environment, and prepares the `export` line that persists a
//! new variable by appending to that file.
//!
//! All file access stays with the caller: the engine works on the profile
//! file's text and returns the bytes to append, so every rule here is checked
//! against an in-memory model of the file.

pub mod aggregate;
pub mod decode;
pub mod env_map;
pub mod errors;
pub mod laws;
pub mod paths;
pub mod resolve;
pub mod text;
pub mod writer;
