//! POSIX advisory byte-range locks: ranges, lock records, and the per-inode
//! lock list that merges, splits and releases them.
//!
//! - `range`, `flock`, `builder`, `waiter`, `object_id`: the values that the
//!   engine works on, each with its mathematical model.
//! - `list`: the lock list with its three operations, and `inode`, the place
//!   on an inode that holds it.
//! - `model`: what the operations do, written over sequences of records.
//! - `invariants`, `coverage`, `frame`, `wakeups`, `laws`: what is proved of
//!   the model.
//!
//! Beside the engine stand the helpers of the tool that gathers the files of
//! an image from a bill of materials: `bom`, and in `bom_outside` what they
//! take from other crates.

pub mod bom;
pub mod bom_outside;
pub mod builder;
pub mod coverage;
pub mod error;
pub mod flock;
pub mod inode;
pub mod frame;
pub mod invariants;
pub mod laws;
pub mod list;
pub mod model;
pub mod object_id;
pub mod range;
pub mod waiter;
pub mod wakeups;

pub use builder::{FlockBuilder, FlockBuilderView};
pub use error::FlockError;
pub use flock::{c_flock, pid_t, Flock, FlockType, FlockView};
pub use inode::INodeLockSlot;
pub use list::{FlockList, FlockListCreater, SetLockOutcome};
pub use object_id::ObjectId;
pub use range::{off_t, FlockRange, FlockRangeReport, FlockWhence, RangeView, RANGE_EOF};
pub use waiter::{Waiter, WaiterQueue};
