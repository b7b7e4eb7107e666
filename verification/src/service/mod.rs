//! The catalogue's operations: creating, linking, unlinking, updating,
//! deleting and querying files, groups and tags, each keeping the
//! reference counts and the primary-group rules of the invariant.
pub mod batch;
pub mod file_group;
pub mod files;
pub mod group_tag;
pub mod groups;
pub mod group_relations;
pub mod tags;
