//! A small task tracker library: an ordered store of task records, a
//! parser for its command line, pure operations on the store, and a
//! codec that writes the store out as structured text and reads it back.

pub mod cmd;
pub mod codec;
pub mod dispatch;
pub mod laws;
pub mod num;
pub mod ops;
pub mod strutil;
pub mod task;
