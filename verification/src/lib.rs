//! Pin builds from a continuous-integration build farm into a Nix overlay
//! file.
//!
//! The library holds the verified logic of the tool: the overlay file
//! codec (a comment-line prologue that stores the pinned packages, followed
//! by a generated overlay body), the resolver decisions (picking the first
//! successful build, matching a GitHub source URI, building the tarball and
//! API URLs), and the pin / unpin operations themselves.

pub mod ops;
pub mod pkg;
pub mod resolver;
pub mod store;
pub mod text;

pub use pkg::Overlay;
pub use pkg::Package;
pub use pkg::PackageView;
