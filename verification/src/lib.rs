//! A small verified search engine for blog posts.
//!
//! Documents carry a structured metadata block (delimited by `+++`) followed
//! by free-text content.  The engine parses that block, keeps an in-memory
//! inverted index over title and content, and answers free-text queries with
//! a ranked, paginated list of result projections.

pub mod chars;
pub mod config;
pub mod engine;
pub mod errors;
pub mod index;
pub mod laws;
pub mod meta;
pub mod model;
pub mod parser;
pub mod project;
pub mod rank;
pub mod score;
pub mod tags;
pub mod text;

pub use config::default_page;
pub use config::default_size;
pub use config::get_content_path;
pub use config::AppError;
pub use engine::IndexStats;
pub use engine::SearchEngine;
pub use errors::SearchError;
pub use project::SearchDoc;
