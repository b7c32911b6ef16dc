//! Selection of a platform-filtered snapshot of a package registry: request
//! filtering, the platform-valid dependency closure, naming of co-installed
//! versions, and the sharded layout of a pruned registry index.

pub mod catalog;
pub mod closure;
pub mod disambiguate;
pub mod exclusion;
pub mod mirror;
pub mod names;
pub mod naming;
pub mod pipeline;
pub mod platform;
pub mod records;
pub mod text;
pub mod version;

pub use exclusion::{ConfigError, Exclusions, Modifications};
pub use mirror::prefix_path;
pub use records::{exact_version, is_true, CrateInformation, DependencySpec, NameTable};
