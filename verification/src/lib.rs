//! The document behind Tommy Flyleaf: a TOML file edited as a tree, with its
//! comments, key order and formatting kept for everything that was not edited.

pub use toml_edit;

pub mod text;
pub mod comment;
pub mod toml_api;
pub mod document;
pub mod kind;
pub mod array;
pub mod position;
pub mod shell;

pub use array::{convert_element, push_element, remove_element, set_element};
pub use comment::{
    comment_beside, comments_before, set_comment_beside, set_comments_before,
    set_trailing_comments, trailing_comments,
};
pub use document::{Document, Error, Newline};
pub use kind::{convert, Conversion, FloatStep, Kind};
