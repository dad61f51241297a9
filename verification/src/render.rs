//! The two outside engines the pipeline leans on: the CommonMark
//! renderer and the template engine. Each call goes through one trusted
//! wrapper whose result is named by an uninterpreted function, so the
//! pipeline's contracts can speak of it exactly.

use vstd::prelude::*;

verus! {

/// The HTML fragment the CommonMark renderer produces for `md`, with
/// tables, strikethrough, footnotes and task lists enabled and smart
/// punctuation off. A function of the text alone.
pub uninterp spec fn html_of(md: Seq<char>) -> Seq<char>;

/// Relies on `pulldown_cmark::Parser::new_ext` and
/// `pulldown_cmark::html::push_html`: rendering is deterministic in the
/// input text and the fixed option set, and never fails.
#[verifier::external_body]
pub fn markdown_to_html(md: &str) -> (r: String)
    ensures
        r@ == html_of(md@),
{
    let options = pulldown_cmark::Options::ENABLE_TABLES
        | pulldown_cmark::Options::ENABLE_STRIKETHROUGH | pulldown_cmark::Options::ENABLE_FOOTNOTES
        | pulldown_cmark::Options::ENABLE_TASKLISTS;
    let parser = pulldown_cmark::Parser::new_ext(md, options);
    let mut out = String::new();
    pulldown_cmark::html::push_html(&mut out, parser);
    out
}

/// What rendering the template source `tpl` against the JSON context
/// text `ctx` yields under a no-escape engine: the output, or `None` if
/// the context does not parse as JSON, the template does not compile, or
/// rendering fails. A function of the two texts alone.
pub uninterp spec fn rendered(tpl: Seq<char>, ctx: Seq<char>) -> Option<Seq<char>>;

/// Relies on `serde_json::from_str` (parsing the context),
/// `handlebars::Handlebars::render_template` (compiling and rendering in
/// one step) and `handlebars::no_escape` (so substituted values are
/// embedded verbatim): all three are deterministic in their inputs, so
/// the outcome is a function of the two strings.
#[verifier::external_body]
pub fn render_template_str(tpl: &str, ctx_json: &str) -> (r: Option<String>)
    ensures
        r is Some <==> rendered(tpl@, ctx_json@) is Some,
        r matches Some(s) ==> rendered(tpl@, ctx_json@) == Some(s@),
{
    let mut reg = handlebars::Handlebars::new();
    reg.register_escape_fn(handlebars::no_escape);
    let data: serde_json::Value = match serde_json::from_str(ctx_json) {
        Ok(v) => v,
        Err(_) => return None,
    };
    reg.render_template(tpl, &data).ok()
}

/// Whether the template source compiles, a function of the source alone.
pub uninterp spec fn compiles(tpl: Seq<char>) -> bool;

/// Relies on `handlebars::Handlebars::register_template_string`:
/// compilation is deterministic in the template source.
#[verifier::external_body]
pub fn template_compiles(tpl: &str) -> (r: bool)
    ensures
        r == compiles(tpl@),
{
    let mut reg = handlebars::Handlebars::new();
    reg.register_template_string("probe", tpl).is_ok()
}

} // verus!
