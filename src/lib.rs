//! Discovery and resolution engine of a small build orchestrator for a
//! compiled language: directory-tree search, layout probing, the mapping
//! between dotted type names and compiled-artifact paths, and the decisions
//! of the compile, run and package stages.
//!
//! The filesystem is seen through snapshots (`Entry` trees) and the external
//! tools through their outcomes (`ToolOutcome`); reading directories and
//! spawning processes is left to the caller.

pub mod laws;
pub mod layout;
pub mod names;
pub mod resolve;
pub mod session;
pub mod tree;

pub use layout::{
    class_files, first_existing_directory, libs, libs_search_paths, path_components,
    source_files, source_search_paths,
};
pub use resolve::{class_path_segments, resolve, strip_artifact_suffix, to_logical_name};
pub use session::{display_paths, libs_root, source_root, Kohi, KohiError, ToolOutcome};
pub use tree::{find_files_by_extension, Entry};
