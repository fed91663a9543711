//! Dependency resolution and build orchestration for a source-built package
//! helper: it classifies each dependency of a requested package into a tier
//! (installed, trusted repository, cached artifact, needs build), drives the
//! build of missing packages as a state machine, caches built artifacts with
//! a sidecar dependency list, batches installer calls, and decides when a
//! cached package must be rebuilt against a newer remote version.

pub mod alpm;
pub mod aur;
pub mod batch;
pub mod builder;
pub mod cache;
pub mod classify;
pub mod commands;
pub mod error;
pub mod srcinfo;
pub mod strutil;
pub mod update;

pub use alpm::AlpmWrapper;
pub use aur::AurPackage;
pub use builder::PackageBuilder;
pub use cache::ArtifactCache;
pub use commands::Commands;
pub use error::AlpmError;
pub use error::AurError;
pub use error::BuildError;
