//! Verified text transformations of a small C package manager: the
//! CMakeLists and dependency files it writes and rewrites.
pub mod text;
pub mod lines;
pub mod cmake;
pub mod cmake_laws;
pub mod include_path;
pub mod include_path_laws;
pub mod dependencies;
pub mod dependencies_laws;
pub mod project;
pub mod rewrite_laws;
