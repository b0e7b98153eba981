//! Argument-binding and shell-completion core of a structured command
//! language: compiling syntactic argument lists into runtime argument
//! vectors, locating the command under a cursor inside a parsed job list,
//! and classifying the element being completed against a command signature.

pub mod argument;
pub mod ast;
pub mod binding;
pub mod completion;
pub mod du;
pub mod errors;
pub mod execute;
pub mod glob;
pub mod patterns;
pub mod systemd;
pub mod text;
pub mod value;

pub use errors::JobError;
