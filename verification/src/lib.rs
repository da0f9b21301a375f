//! Leveled, formatted logging from a restricted environment that can
//! neither allocate nor panic: the format string of a log call is compiled
//! ahead of time, a small bounded encoder writes the record at run time,
//! and a decoder elsewhere renders it.
//!
//! The way of a log call through the modules:
//!
//! 1. [`parser`] cuts the format string into literal text and placeholders.
//! 2. [`expand`] sorts out the call's arguments and pairs each placeholder
//!    with the next supplied expression; [`binder`] does the same for values
//!    and checks that each value has the capability that its hint asks for,
//!    which [`formatter`] checks by type.
//! 3. [`writer`] writes the header and the tagged values into a buffer of
//!    fixed capacity, in the layout that [`wire`] defines; [`buffer`] keeps
//!    one such buffer for each execution unit and hands a finished record
//!    to the output channel.
//! 4. [`decoder`] reads a record back, and [`message`] renders it into the
//!    call site's template with the rules of [`render`].
//!
//! Beside the logging core stand [`kprobe`], the bookkeeping of a kernel
//! probe, and [`runner`] with [`cargo_messages`], the decisions of the tool
//! that builds and runs the integration tests.

pub mod binder;
pub mod buffer;
pub mod bytes;
pub mod cargo_messages;
pub mod decoder;
pub mod expand;
pub mod formatter;
pub mod hint;
pub mod kprobe;
pub mod level;
pub mod message;
pub mod parser;
pub mod render;
pub mod runner;
pub mod text;
pub mod value;
pub mod wire;
pub mod writer;
