//! Mirrors OS-container template images from a remote catalog onto local
//! storage: the catalog index is parsed and filtered, each selected image
//! is downloaded and atomically published, older images are evicted per
//! retention group, and the retained set is persisted as a sorted index.
//! This crate holds the pipeline's decisions and data transforms, each
//! with a verified contract; the surrounding program performs the network
//! and filesystem work those decisions call for.

pub mod config;
pub mod lxc_container;
pub mod lxc_container_patcher;
pub mod lxc_image_download;
pub mod lxc_image_entries_cleanup;
pub mod lxc_image_metadata;
pub mod lxc_image_metadata_entries_create;
pub mod lxc_image_metadata_save;
pub mod publish;
pub mod text;

use vstd::prelude::*;

verus! {

/// Kinds of failure the synchronization pipeline can report.
#[derive(Debug, Clone, Copy, PartialEq, Eq, Structural)]
pub enum Error {
    Configuration,
    Network,
    Parse,
    Selection,
    Filesystem,
    PatchTimeout,
    PatchFailure,
    Ownership,
}

} // verus!
