//! A value shared between processes over a publish/subscribe transport with
//! queries.
//!
//! One process owns the value: it applies commands to it and publishes each
//! command under the next number, going round after the largest. Other
//! processes hold views: read-only mirrors that start from a snapshot of the
//! owner's value and then follow the commands. A snapshot carries the number
//! of the last command that is part of it, so a view knows which of the
//! commands that reached it meanwhile it still has to apply: none is lost
//! and none is applied twice, whenever the snapshot arrives.
//!
//! This crate decides and does not talk: it says which topics belong to an
//! address, what an owner answers and publishes, what a view makes of what
//! reaches it, and which owners a round of discovery has found. Registering
//! with the transport, locking, and encoding values are left to the caller.

pub mod address;
pub mod counter;
pub mod error;
pub mod frame;
pub mod identity;
pub mod instances;
pub mod key;
pub mod path;
pub mod reconcile;
pub mod update;
pub mod value;
pub mod view;

pub use address::Address;
pub use error::Error;
pub use frame::frame;
pub use frame::split_frame;
pub use instances::instance_of_reply;
pub use instances::instances_of_replies;
pub use instances::query_instances_async;
pub use instances::ZSharedInstances;
pub use instances::ZSharedInstancesIter;
pub use key::distinct;
pub use key::KeyExpr;
pub use path::get_data_path;
pub use path::get_instance_path;
pub use path::get_update_path;
pub use reconcile::refresh_views_sync;
pub use reconcile::Refresh;
pub use update::Update;
pub use value::ZSharedValue;
pub use view::ZSharedView;
