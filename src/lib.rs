//! Resolution of a Conda environment descriptor into a manifest of package URLs.
use vstd::prelude::*;

pub mod purl;
pub mod resolve;
pub mod document;
pub mod manifest;
pub mod snapshot;

pub use manifest::{EnvFile, Manifest};
pub use resolve::{Declaration, Entry, ResolveError};
pub use snapshot::{Detector, Job, RunConfig, Snapshot};

verus! {

} // verus!
