//! The settings of the package manager.

use vstd::prelude::*;
use crate::http::CacheSettings;

verus! {

/// Where the catalog is kept and fetched from.
pub struct Settings {
    pub global_repository_path: String,
    pub repository_url: String,
    pub cache_settings: CacheSettings,
}

} // verus!
