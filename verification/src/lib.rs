//! Project and memory management for specification-driven development:
//! command-line grammar, project layout, feature naming, the memory use
//! cases, filtering, ordering and analysis of memories and tags, and the
//! text formats the tool reads and writes.

pub mod config;
pub mod error;
pub mod text;
pub mod naming;
pub mod paths;
pub mod repository;
pub mod memory_repository;
pub mod use_cases;
mod clock;
pub mod project;
pub mod project_files;
pub mod cli;
pub mod tags;
pub mod csv;
pub mod analytics;
pub mod options;
pub mod cluster;
pub mod memory_stats;
pub mod pattern;
pub mod tag_list;
pub mod tag_ops;
pub mod type_stats;
pub mod tag_codec;
pub mod merge;
pub mod export;
pub mod distribution;
pub mod bulk;
pub mod filter;
pub mod search_order;
pub mod recall;
pub mod vocabulary;
