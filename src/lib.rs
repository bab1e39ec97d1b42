//! Resumable, rate-limited download of a serial into a single document.

pub mod buffered;
pub mod document;
pub mod extract;
pub mod locator;
pub mod naming;
pub mod plan;
pub mod recovery;

pub use buffered::BufferedIter;
pub use locator::ChapterUrl;
