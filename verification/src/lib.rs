//! The core of a small shell: one line of text becomes a pipeline of simple
//! commands, and a pipeline becomes the list of what has to be done to run it.
//!
//! The library handles plain values only. It reads a line ([`Pipeline::parse`]),
//! writes a pipeline back as text ([`Pipeline::to_string`]) and plans a run
//! ([`Pipeline::execute`]): which commands are directives of the shell itself,
//! which start a process, and how the standard streams of neighbouring
//! processes are connected. Starting the processes, opening the files and
//! changing the working directory is left to the caller, who performs the
//! [`Action`]s of the plan in order.
//!
//! Every function carries a contract over a mathematical model of its
//! arguments, and Verus proves that the code keeps it:
//!
//! - [`text`] defines whitespace, trimming, splitting and words;
//! - [`command`] defines a simple command, how it is read and what running it
//!   comes to;
//! - [`pipeline`] defines a pipeline, how a line is read and how a run is
//!   planned;
//! - [`action`] holds the vocabulary of a plan;
//! - [`roundtrip`] proves that reading undoes writing.

pub mod action;
pub mod command;
pub mod pipeline;
pub mod roundtrip;
pub mod text;

pub use action::{Action, Builtin, Launch, Stream};
pub use command::SimpleCommand;
pub use pipeline::Pipeline;
