//! Search and download support for arXiv papers: request URLs, result-page
//! extraction, download checks and the paper manifest, with their contracts.
pub mod arxiv;
pub mod error;
pub mod models;
pub mod server;
pub mod text;
pub mod url;

pub use error::ArxivError;
