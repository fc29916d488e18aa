//! Archetype storage and query core of an entity-component-system runtime.
//!
//! Entities carry heterogeneous sets of component values. Entities with the
//! same component set share an archetype, whose table stores one row per
//! entity and one byte-granular column per component. Structural changes only
//! mark rows; compaction reclaims them between epochs.

pub mod sentinel;
pub mod ids;
pub mod component;
pub mod blob;
pub mod column;
pub mod bitset;
pub mod compaction;
pub mod table;
pub mod listener;
pub mod archetype;
pub mod structural;
pub mod world;
pub mod slots;
pub mod filter;
pub mod fetch;
pub mod fetch_tuples;
pub mod filter_tuples;
pub mod query;
pub mod depend;
