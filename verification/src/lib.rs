//! Page-level editing of PDF documents on their object graph: merging,
//! splitting and reordering by rebuilding the page tree and pruning what is
//! no longer reachable, making a document from images, and reading the text
//! of the pages.

pub mod engine;
pub mod error;
pub mod imaging;
pub mod import;
pub mod model;
pub mod names;
pub mod order;
pub mod reach;
pub mod render;
pub mod store;
pub mod text;
pub mod tree;

pub use engine::{
    get_page_count, merge_pdf, merge_pdf as merge, reorder_pages, split_pdf, split_pdf as split,
};
pub use error::PdfError;
pub use import::images_to_pdf;
pub use text::pdf_to_word;
