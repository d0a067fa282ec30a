pub mod lock;
pub mod counter;
pub mod memory;
pub mod tas_lock;
pub mod bakery_lock;
pub mod peterson_lock;
pub mod filter_lock;
pub mod clh_lock;
pub mod mcs_lock;
pub mod backoff_lock;
pub mod ttas_lock;
pub mod array_lock;
pub mod to_lock;
