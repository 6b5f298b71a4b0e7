//! A diagnostic reader-writer lock: a lock model that records, for every
//! acquisition and release, a human-readable lock identity, a strictly
//! increasing per-lock sequence number, and a filtered, formatted call-stack
//! snapshot, so that an operator can reconstruct after the fact which lock
//! was contended, in what order critical sections interleaved, and where in
//! the call graph each acquisition and release occurred.

pub mod filter;
pub mod frame;
pub mod lens;
pub mod lock;
pub mod naming;
pub mod render;
pub mod sequence;
pub mod text;

pub use filter::filter_frames;
pub use frame::Frame;
pub use lens::FieldLens;
pub use lens::OptionLens;
pub use lens::PairLeftLens;
pub use lock::AccessMode;
pub use lock::RwLock;
pub use lock::RwLockMappedWriteGuard;
pub use lock::RwLockReadGuard;
pub use lock::RwLockWriteGuard;
pub use lock::TraceKind;
pub use lock::build_message;
pub use render::format_trace;
pub use render::u64_to_dec;
pub use sequence::Sequencer;
pub use text::str_contains;
