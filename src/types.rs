//! The records that requests and results are made of.

use vstd::prelude::*;

verus! {

/// A theme's metadata. Every field is free text; none is interpreted.
#[derive(Clone, Debug)]
pub struct ThemeManifest {
    pub name: String,
    pub author: String,
    pub description: String,
    pub version: String,
    pub tags: String,
    pub license: String,
}

/// What a pack operation is asked to do: the manifest, where the archive
/// goes, the relative asset paths (empty means "discover them") and the
/// directory those paths are relative to.
#[derive(Clone, Debug)]
pub struct BundleRequest {
    pub manifest: ThemeManifest,
    pub output_path: String,
    pub assets: Vec<String>,
    pub theme_directory: Option<String>,
}

/// One entry of the recent-install history.
#[derive(Clone, Debug)]
pub struct RecentTheme {
    pub name: String,
    pub author: String,
    pub description: String,
    pub installed_at: u64,
}

} // verus!
