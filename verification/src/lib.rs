//! A wiki engine's core: an article-revision store with three-way textual
//! merge, slug allocation, search-query construction and the small value
//! types around them.

pub mod assets;
pub mod merge;
pub mod models;
pub mod pagination;
pub mod rendering;
pub mod search;
pub mod state;
pub mod strings;
pub mod theme;
