//! Web page content analysis: markup normalisation, structural scoring,
//! main-content selection, link locality and typed snippet extraction.
pub mod pattern;
pub mod text;
pub mod expand_path;
pub mod truthy;
pub mod uri;
pub mod cache;
pub mod tree;
pub mod rank;
pub mod stats;
pub mod snippet;
pub mod page;
pub mod assemble;
pub mod params;
pub mod segments;
