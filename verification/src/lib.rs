//! Stack backtraces for a bare-metal runtime: capturing the return addresses
//! of the current call stack and rendering them for a person to read.
//!
//! The unwinder that walks the stack is not part of this crate. A
//! [`capture::Capture`] decides what to ask of it next and what to make of
//! each answer; whoever owns the unwinder carries the questions over. What a
//! capture comes to is stated over a [`unwind::Walk`], the record of what
//! the unwinder and the allocator answer along one stack, and
//! [`backtrace::Backtrace`] captures along such a record.
//!
//! - [`unwind`]: the unwinder's failures and frames, and what is captured
//!   from them
//! - [`capture`]: the capture as a sequence of questions and answers
//! - [`backtrace`]: the captured backtrace
//! - [`render`]: the backtrace as text
//! - [`numeral`], [`text`]: digits and lines, of which the text is made

pub mod backtrace;
pub mod capture;
pub mod numeral;
pub mod render;
pub mod text;
pub mod unwind;
