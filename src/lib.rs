//! A small Gemini server core: request framing, URL validation, content-root
//! path resolution, the two-phase input form protocol, directory listings and
//! response serialisation.

pub mod error;
pub mod text;
pub mod response;
pub mod reader;
pub mod request;
pub mod form;
pub mod listing;
pub mod resolver;
pub mod config;
