//! A multithreaded instrumentation tracer: records time-stamped, categorized
//! events from an application's threads, buffers them per thread, persists
//! them to per-thread binary trace files, and at the end of the process merges
//! the per-thread streams into a sorted Paraver text trace together with the
//! `.pcf` naming dictionary and the `.row` topology sidecar files.
//!
//! This crate holds the engine itself: the record codec and per-thread buffer,
//! the process-wide name dictionary and buffer registry, the coordinator that
//! decides when finalization runs, and the k-way merge. Thread-local storage,
//! the process-wide singleton, configuration loading and all file input and
//! output live with the embedding application, which hands plain values in
//! and writes the byte blocks and text files this library produces.

mod sys;

pub use sys::{current_core_id, monotonic_nanos};

pub mod event;
pub use event::EventEntry;

pub mod numfmt;

pub mod bufferinfo;
pub use bufferinfo::BufferInfo;

pub mod assoc;

pub mod nameset;
pub use nameset::{NameInfo, NameSet, RegisterError};

pub mod buffer;
pub use buffer::Buffer;

pub mod bufferset;
pub use bufferset::BufferSet;

pub mod parser;
pub use parser::{ExtendedEvent, MergeError, Merger};

pub mod global_info;
pub use global_info::GlobalInfo;

pub mod profiler;
pub use profiler::Guard;

pub mod subscriber;
pub use subscriber::{ExtraeSubscriber, SubscriberContainer};

