//! Packing and unpacking of desktop-theme bundles: the `.reskin` container
//! format, manifest encoding, selection of the files that go into a bundle,
//! classification of a bundle's components and the installer's report.

pub mod archive;
pub mod classify;
pub mod codec;
pub mod collect;
pub mod install;
pub mod manifest;
pub mod recent;
pub mod types;
