//! The emark format: a strict plain-text format for exam question documents,
//! its parser and its HTML renderer.

pub mod assets;
pub mod ast;
pub mod category;
pub mod counting;
pub mod cli;
pub mod error;
pub mod errorline;
pub mod html;
pub mod inline;
pub mod lines;
pub mod message;
pub mod parser;
pub mod path;
pub mod question;
pub mod render;
pub mod serve;
pub mod syntax;
pub mod text;
pub mod watch;
pub mod wellformed;

pub use ast::{
    Choice, Content, Document, Inline, MaterialQuestion, Metadata, Paragraph, Question, Section,
    SingleChoice,
};
pub use category::{Module, SubCategory};
pub use error::ParseError;
pub use parser::parse;
pub use render::{render, render_with_assets};

use vstd::prelude::*;

verus! {

/// The name of the format.
pub const FORMAT_NAME: &'static str = "emark";

/// The file extension of the format, with its leading dot.
pub const FORMAT_EXTENSION: &'static str = ".emark";

} // verus!
