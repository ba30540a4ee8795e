//! Read-only introspection of an unmounted btrfs filesystem.
//!
//! The library consumes raw byte images of the block devices that make up one
//! filesystem instance and exposes discovery of valid superblocks, translation
//! of virtual (logical) addresses to physical (device, offset) locations
//! through the two-level chunk map, and range search over the on-disk B-trees.
//! All reads are validated: a tree block is only handed out after its stored
//! checksum, its own virtual address and the filesystem id have been checked.

pub mod address;
pub mod btrfs;
pub mod btrfs_node;
pub mod codec;
pub mod error;
pub mod structures;
pub mod tree;
