//! Extraction of bibliographic records from catalogue pages, with the
//! pacing and relay-rotation rules of the fetch layer.

pub mod book;
pub mod book_page;
pub mod dom;
pub mod fetch;
pub mod listing;
pub mod number;
pub mod proxy;
pub mod proxy_pages;
pub mod store;
pub mod text;
