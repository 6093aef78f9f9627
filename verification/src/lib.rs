//! Verified core of a feed that follows OpenStreetMap changesets in a set of
//! regions: decimal text, replication state, Overpass way chaining, changeset
//! lists and the small text formats the feed writes.

pub mod text;
pub mod model;
pub mod polygon;
pub mod replication;
pub mod changesets;
pub mod regions;
