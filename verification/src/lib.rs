//! A converter for article source documents: plain-text files holding a
//! metadata header and a lightweight markup body, turned into structured
//! records whose body is sanitized HTML.

pub mod article;
pub mod blocks;
pub mod dict;
pub mod inline;
pub mod links;
pub mod split;
pub mod text;
