//! Probes of the filesystem-metadata provider that validation makes before
//! any background work starts. What they return depends on the disk, so
//! their contracts promise nothing.
use vstd::prelude::*;

verus! {

/// Relies on `std::path::Path::exists`: whether the path points at an
/// existing entity, as the disk answers at this moment.
#[verifier::external_body]
pub(crate) fn path_exists(path: &str) -> bool {
    std::path::Path::new(path).exists()
}

/// Relies on `std::path::Path::is_dir`: whether the path points at an
/// existing directory, as the disk answers at this moment.
#[verifier::external_body]
pub(crate) fn path_is_dir(path: &str) -> bool {
    std::path::Path::new(path).is_dir()
}

} // verus!
