//! Installation engine of a Linux package manager: repository metadata
//! parsing, constraint-based dependency resolution, and the
//! download -> verify -> extract -> commit transaction pipeline, with a
//! durable registry of installed packages and a content-keyed artifact
//! cache.

pub mod cache;
pub mod compression;
pub mod config;
pub mod dependency;
pub mod executor;
pub mod index;
pub mod mirror;
pub mod package;
pub mod package_info;
pub mod parser;
pub mod paths;
pub mod plan;
pub mod repository;
pub mod resolver;
pub mod security;
pub mod store;
pub mod text;
pub mod version;
