//! A small message-board core: a bounded, insertion-ordered post history
//! with id and timestamp assignment, eviction of the oldest entry at
//! capacity, and synchronous listener notification. The storage module
//! gives the record format that a durable sink keeps the posts in, and the
//! restore path that feeds them back in at startup.

pub mod config;
pub mod digits;
pub mod headers;
pub mod history;
pub mod message;
pub mod post;
pub mod recorder;
pub mod storage;
pub mod timestamp;
