//! The per-page content pipeline and its companions: extract
//! front-matter, preprocess, render Markdown, render the result as a
//! template against page and site values, render the page shell, plus
//! output-name mapping, template checking and the server-stub render.

use vstd::prelude::*;
use vstd::string::*;

use crate::config::{
    build_final_ctx, build_inline_ctx, build_routing_ctx, final_ctx_json, inline_ctx_json,
    routing_ctx_json, RoutingConfig, SiteConfig,
};
use crate::frontmatter::{parse_doc, parse_front_matter};
use crate::render::{
    compiles, html_of, markdown_to_html, render_template_str, rendered, template_compiles,
};
use crate::strutil::{chars_vec, eq_str, string_from_chars, sub_vec};
use crate::text::{curl_spec, curly_quotes, emoji_subst, emojis};

verus! {

/// Why a build step failed. File and process errors stay with the
/// caller that touches the filesystem; these cover the logic.
#[derive(Debug, Clone, Copy, PartialEq, Eq, Structural)]
pub enum BuildError {
    /// The leading metadata block is absent, unparsable or incomplete.
    MalformedFrontMatter,
    /// The page's own HTML failed to render as a template.
    InlineRenderError,
    /// The page template failed to render around the content.
    PageRenderError,
    /// The server-stub template failed to render.
    RoutingRenderError,
    /// The server-stub template source does not compile.
    RoutingTemplateLoad,
    /// The page template source does not compile.
    PageTemplateLoad,
}

/// The body after both preprocessors: quote curling, then emoji
/// substitution.
pub open spec fn preprocessed(body: Seq<char>) -> Seq<char> {
    emoji_subst(curl_spec(body))
}

/// Runs one source document through the whole content pipeline and
/// returns the final page text to be written. Fails exactly when the
/// front-matter is malformed or one of the two template renders fails.
pub fn process_page(content: &str, cfg: &SiteConfig, page_template: &str) -> (r: Result<
    String,
    BuildError,
>)
    ensures
        parse_doc(content@) is None ==> r == Err::<String, BuildError>(
            BuildError::MalformedFrontMatter,
        ),
        parse_doc(content@) matches Some(p) ==> ({
            let html = html_of(preprocessed(p.1));
            match rendered(html, inline_ctx_json(p.0, *cfg)) {
                None => r == Err::<String, BuildError>(BuildError::InlineRenderError),
                Some(inner) => match rendered(
                    page_template@,
                    final_ctx_json(inner, p.0, cfg.misc),
                ) {
                    None => r == Err::<String, BuildError>(BuildError::PageRenderError),
                    Some(out) => r matches Ok(s) && s@ == out,
                },
            }
        }),
{
    match parse_front_matter(content) {
        None => Err(BuildError::MalformedFrontMatter),
        Some(p) => {
            let (fm, body) = p;
            let curled = curly_quotes(body.as_str());
            let substituted = emojis(curled.as_str());
            let html = markdown_to_html(substituted.as_str());
            let ictx = build_inline_ctx(&fm, cfg);
            match render_template_str(html.as_str(), ictx.as_str()) {
                None => Err(BuildError::InlineRenderError),
                Some(inner) => {
                    let fctx = build_final_ctx(inner.as_str(), &fm, &cfg.misc);
                    match render_template_str(page_template, fctx.as_str()) {
                        None => Err(BuildError::PageRenderError),
                        Some(out) => Ok(out),
                    }
                },
            }
        },
    }
}

/// Renders the server stub from its template and the resolved port,
/// static directory and routing settings.
pub fn render_routing_stub(routing_template: &str, port: u16, static_dir: &str, r: &RoutingConfig)
    -> (res: Result<String, BuildError>)
    ensures
        match rendered(routing_template@, routing_ctx_json(port, static_dir@, *r)) {
            None => res == Err::<String, BuildError>(BuildError::RoutingRenderError),
            Some(out) => res matches Ok(s) && s@ == out,
        },
{
    let ctx = build_routing_ctx(port, static_dir, r);
    match render_template_str(routing_template, ctx.as_str()) {
        None => Err(BuildError::RoutingRenderError),
        Some(s) => Ok(s),
    }
}

/// Checks that both persistent templates compile, reporting the first
/// one that does not.
pub fn validate_templates(routing_template: &str, page_template: &str) -> (r: Result<
    (),
    BuildError,
>)
    ensures
        r is Ok <==> compiles(routing_template@) && compiles(page_template@),
        !compiles(routing_template@) ==> r == Err::<(), BuildError>(
            BuildError::RoutingTemplateLoad,
        ),
        compiles(routing_template@) && !compiles(page_template@) ==> r == Err::<(), BuildError>(
            BuildError::PageTemplateLoad,
        ),
{
    if !template_compiles(routing_template) {
        Err(BuildError::RoutingTemplateLoad)
    } else if !template_compiles(page_template) {
        Err(BuildError::PageTemplateLoad)
    } else {
        Ok(())
    }
}

/// `s` ends with the suffix `suf`.
pub open spec fn ends_with(s: Seq<char>, suf: Seq<char>) -> bool {
    s.len() >= suf.len() && s.subrange(s.len() - suf.len(), s.len() as int) == suf
}

/// Maps a Markdown source filename to its output name: the `.md`
/// suffix replaced by `.html`; any other name maps to nothing.
pub fn output_name(filename: &str) -> (r: Option<String>)
    ensures
        r is Some <==> ends_with(filename@, ".md"@),
        r matches Some(o) ==> o@ == filename@.take(filename@.len() - 3) + ".html"@,
{
    proof {
        reveal_strlit(".md");
    }
    let v = chars_vec(filename);
    let n: usize = v.len();
    if n < 3 {
        proof {
            assert(!ends_with(filename@, ".md"@));
        }
        return None;
    }
    let suffix = sub_vec(&v, n - 3, n);
    if eq_str(&suffix, ".md") {
        let stem = sub_vec(&v, 0, n - 3);
        let mut out = string_from_chars(&stem);
        out.append(".html");
        proof {
            assert(filename@.subrange(n - 3, n as int) == ".md"@);
            assert(out@ == filename@.take(n - 3) + ".html"@);
        }
        Some(out)
    } else {
        proof {
            assert(filename@.subrange(n - 3, n as int) != ".md"@);
        }
        None
    }
}

/// Whether a directory entry is a Markdown source file.
pub fn is_markdown_name(filename: &str) -> (r: bool)
    ensures
        r == ends_with(filename@, ".md"@),
{
    let out = output_name(filename);
    match out {
        Some(_) => true,
        None => false,
    }
}

/// Whether a style-sheet entry is a plain CSS file.
pub fn is_css_name(filename: &str) -> (r: bool)
    ensures
        r == ends_with(filename@, ".css"@),
{
    proof {
        reveal_strlit(".css");
    }
    let v = chars_vec(filename);
    let n: usize = v.len();
    if n < 4 {
        proof {
            assert(!ends_with(filename@, ".css"@));
        }
        return false;
    }
    let suffix = sub_vec(&v, n - 4, n);
    let r = eq_str(&suffix, ".css");
    proof {
        assert(suffix@ == filename@.subrange(n - 4, n as int));
    }
    r
}

} // verus!
