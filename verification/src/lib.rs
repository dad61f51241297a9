//! Core of a static-site generator: text preprocessors, front-matter
//! extraction, Markdown and template rendering, and idempotent output
//! planning. File and process I/O live outside this crate; everything here
//! is pure logic with contracts.

use vstd::prelude::*;

pub mod config;
pub mod frontmatter;
pub mod json;
pub mod pipeline;
pub mod render;
pub mod strutil;
pub mod writer;
pub mod text;

pub use text::curly_quotes;
pub use text::emojis;

verus! {

/// HTTP method selector for the generated server stub.
#[derive(Clone, Copy, PartialEq, Eq, Structural)]
pub enum Method {
    POST,
    GET,
}

impl Method {
    /// The method's name as it appears in an HTTP request line.
    pub fn method(&self) -> (r: &str)
        ensures
            *self is GET ==> r@ == "GET"@,
            *self is POST ==> r@ == "POST"@,
    {
        match self {
            Method::GET => "GET",
            Method::POST => "POST",
        }
    }
}

} // verus!
