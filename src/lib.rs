//! Extraction of dependency coordinates from build-tool dependency reports,
//! together with the small pieces of Maven repository logic built on them.

pub mod coordinate;
pub mod error;
pub mod flat;
pub mod maven;
pub mod order;
pub mod port_pool;
pub mod spdx;
pub mod text;
pub mod tree;

pub use error::ParseError;
pub use flat::parse_prettied_dependencies_string;
pub use maven::{split_dependency_name_to_path, Dependency, POM};
pub use spdx::SPDX;
pub use tree::{parse_dependencies_string, pretty_name};
