//! An entity-component-system core with verified bookkeeping: a slot
//! allocator with index reuse, per-entity component tables, scheduled
//! component and entity removal, and system membership tracking.

pub mod free_list;
pub mod ces;
pub mod game;
pub mod physics;
