//! Diary markup core: an S-expression reader, a semantic resolver that turns
//! expression trees into typed documents, and the HTML builders that render
//! those documents as text.
#![verifier::loop_isolation(false)]
use vstd::prelude::*;

pub mod albums;
pub mod albums_gen;
pub mod date;
pub mod diary_content;
pub mod grammar;
pub mod html;
pub mod image;
pub mod image_pass;
pub mod index_gen;
pub mod post_gen;
pub mod serialize;
pub mod sexp;
pub mod string_reader;
pub mod syntax_error;
pub mod text;
