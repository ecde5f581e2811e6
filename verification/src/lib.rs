//! Extraction of service lists and search matches from the pages of a
//! reverse-image-search site.
//!
//! The site has no published interface: what it offers and what it found is
//! read off its rendered pages, by walking the document tree along fixed
//! paths of tags and attributes.
//!
//! A caller fetches the front page and hands its text to
//! [`available_services`], builds the search form with [`search_form`],
//! posts it, and hands the text of the answer to [`search_by_url`].

pub mod decimal;
pub mod error;
pub mod html;
pub mod page;
pub mod search;
pub mod service;
pub mod text;
pub mod url;

pub use error::Error;
pub use search::{search_by_url, search_form, Match, MatchType};
pub use service::{available_services, Service};
pub use url::prepend_https;
