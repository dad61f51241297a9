//! The global site configuration and the JSON contexts handed to the
//! template engine: one per rendering step, each specified character by
//! character so a render's input is pinned down exactly.

use vstd::prelude::*;
use vstd::string::*;

use crate::frontmatter::{quoted, FrontMatterView, PageFrontMatter};
use crate::json::{dec_nat, json_str, push_dec, push_json_str};
use crate::strutil::{push_str_chars, string_from_chars};

verus! {

/// Settings for the generated server stub.
#[derive(Debug, Clone, PartialEq, Eq)]
pub struct RoutingConfig {
    pub init_behaviour: String,
    pub fail_behaviour: String,
    pub imports: Vec<String>,
}

/// Miscellaneous per-site switches, all optional.
#[derive(Debug, Clone, PartialEq, Eq)]
pub struct MiscConfig {
    pub latex: Option<bool>,
    pub html_lang: Option<String>,
    pub additional_html_header: Option<String>,
    pub syntax_highlighting: Option<bool>,
}

/// The global configuration, loaded once per build and read-only after.
/// The open-ended user section is carried as its already-serialized JSON
/// text, produced wherever the configuration file is read.
#[derive(Debug, Clone, PartialEq, Eq)]
pub struct SiteConfig {
    pub routing: RoutingConfig,
    pub config_json: String,
    pub misc: MiscConfig,
}

/// JSON string tokens joined with commas.
pub open spec fn json_items(xs: Seq<Seq<char>>) -> Seq<char>
    decreases xs.len(),
{
    if xs.len() == 0 {
        Seq::empty()
    } else if xs.len() == 1 {
        json_str(xs[0])
    } else {
        json_str(xs[0]) + ","@ + json_items(xs.drop_first())
    }
}

/// A JSON array of string tokens.
pub open spec fn json_str_list(xs: Seq<Seq<char>>) -> Seq<char> {
    "["@ + json_items(xs) + "]"@
}

pub open spec fn json_opt_str(o: Option<Seq<char>>) -> Seq<char> {
    match o {
        Some(s) => json_str(s),
        None => "null"@,
    }
}

pub open spec fn json_opt_string(o: Option<String>) -> Seq<char> {
    match o {
        Some(s) => json_str(s@),
        None => "null"@,
    }
}

pub open spec fn json_opt_bool(o: Option<bool>) -> Seq<char> {
    match o {
        Some(true) => "true"@,
        Some(false) => "false"@,
        None => "null"@,
    }
}

pub open spec fn json_opt_list(o: Option<Seq<Seq<char>>>) -> Seq<char> {
    match o {
        Some(xs) => json_str_list(xs),
        None => "null"@,
    }
}

pub open spec fn json_opt_strings(o: Option<Vec<String>>) -> Seq<char> {
    match o {
        Some(v) => json_str_list(v.deep_view()),
        None => "null"@,
    }
}

/// The JSON object for the `misc` section, fields in declaration order,
/// absent options as `null`.
pub open spec fn misc_json(m: MiscConfig) -> Seq<char> {
    "{\"latex\":"@ + json_opt_bool(m.latex) + ",\"html_lang\":"@ + json_opt_string(m.html_lang)
        + ",\"additional_html_header\":"@ + json_opt_string(m.additional_html_header)
        + ",\"syntax_highlighting\":"@ + json_opt_bool(m.syntax_highlighting) + "}"@
}

/// The JSON object for the `routing` section.
pub open spec fn routing_json(r: RoutingConfig) -> Seq<char> {
    "{\"init_behaviour\":"@ + json_str(r.init_behaviour@) + ",\"fail_behaviour\":"@ + json_str(
        r.fail_behaviour@,
    ) + ",\"imports\":"@ + json_str_list(r.imports.deep_view()) + "}"@
}

/// The whole configuration as the `outer` template value: routing, the
/// user section verbatim, then misc.
pub open spec fn outer_json(c: SiteConfig) -> Seq<char> {
    "{\"routing\":"@ + routing_json(c.routing) + ",\"config\":"@ + c.config_json@ + ",\"misc\":"@
        + misc_json(c.misc) + "}"@
}

/// The front-matter as the `page` template value.
pub open spec fn page_json(fm: FrontMatterView) -> Seq<char> {
    "{\"title\":"@ + json_str(fm.title) + ",\"subtitle\":"@ + json_opt_str(fm.subtitle)
        + ",\"tags\":"@ + json_opt_list(fm.tags) + ",\"date\":"@ + json_str(fm.date)
        + ",\"additional_css\":"@ + json_opt_list(fm.additional_css) + "}"@
}

/// The context for rendering the page's own HTML as a template.
pub open spec fn inline_ctx_json(fm: FrontMatterView, c: SiteConfig) -> Seq<char> {
    "{\"page\":"@ + page_json(fm) + ",\"outer\":"@ + outer_json(c) + "}"@
}

/// The context for rendering the page template around the content.
pub open spec fn final_ctx_json(content: Seq<char>, fm: FrontMatterView, m: MiscConfig) -> Seq<
    char,
> {
    "{\"content\":"@ + json_str(content) + ",\"page\":"@ + page_json(fm) + ",\"misc\":"@
        + misc_json(m) + "}"@
}

/// Pieces joined with `sep` between neighbours.
pub open spec fn join_with(xs: Seq<Seq<char>>, sep: Seq<char>) -> Seq<char>
    decreases xs.len(),
{
    if xs.len() == 0 {
        Seq::empty()
    } else if xs.len() == 1 {
        xs[0]
    } else {
        xs[0] + sep + join_with(xs.drop_first(), sep)
    }
}

/// The context for rendering the server stub.
pub open spec fn routing_ctx_json(port: u16, dir: Seq<char>, r: RoutingConfig) -> Seq<char> {
    "{\"port\":"@ + dec_nat(port as nat) + ",\"directory\":"@ + json_str(dir)
        + ",\"init_behaviour\":"@ + json_str(r.init_behaviour@) + ",\"fail_behaviour\":"@
        + json_str(r.fail_behaviour@) + ",\"imports\":"@ + json_str(
        join_with(r.imports.deep_view(), "\n\t"@),
    ) + "}"@
}

fn push_json_str_list(out: &mut Vec<char>, xs: &Vec<String>)
    ensures
        final(out)@ == old(out)@ + json_str_list(xs.deep_view()),
{
    let ghost xd = xs.deep_view();
    proof {
        assert(xd.len() == xs@.len());
        assert(forall|j: int| 0 <= j < xs@.len() ==> xd[j] == #[trigger] xs@[j]@);
    }
    push_str_chars(out, "[");
    let ghost base = out@;
    let n: usize = xs.len();
    let mut i: usize = 0;
    proof {
        assert(xd.subrange(0, n as int) =~= xd);
    }
    while i < n
        invariant
            i <= n,
            n == xs@.len(),
            xd == xs.deep_view(),
            xd.len() == n,
            forall|j: int| 0 <= j < n ==> xd[j] == #[trigger] xs@[j]@,
            out@ + json_items(xd.subrange(i as int, n as int)) == base + json_items(xd),
        decreases n - i,
    {
        let ghost suf = xd.subrange(i as int, n as int);
        proof {
            assert(suf.len() == n - i);
            assert(suf[0] == xd[i as int]);
            assert(suf.drop_first() =~= xd.subrange(i + 1, n as int));
        }
        push_json_str(out, xs[i].as_str());
        if i + 1 < n {
            push_str_chars(out, ",");
            proof {
                assert(json_items(suf) == json_str(xd[i as int]) + ","@ + json_items(
                    xd.subrange(i + 1, n as int),
                ));
                assert(out@ + json_items(xd.subrange(i + 1, n as int)) =~= base + json_items(xd));
            }
        } else {
            proof {
                assert(json_items(suf) == json_str(xd[i as int]));
                assert(json_items(xd.subrange(i + 1, n as int)) == Seq::<char>::empty());
                assert(out@ + json_items(xd.subrange(i + 1, n as int)) =~= base + json_items(xd));
            }
        }
        i = i + 1;
    }
    proof {
        assert(json_items(xd.subrange(n as int, n as int)) == Seq::<char>::empty());
        assert(out@ + Seq::<char>::empty() =~= out@);
    }
    push_str_chars(out, "]");
    proof {
        assert(out@ =~= old(out)@ + json_str_list(xd));
    }
}

fn push_json_opt_string(out: &mut Vec<char>, o: &Option<String>)
    ensures
        final(out)@ == old(out)@ + json_opt_string(*o),
{
    match o {
        Some(s) => push_json_str(out, s.as_str()),
        None => push_str_chars(out, "null"),
    }
}

fn push_json_opt_bool(out: &mut Vec<char>, o: &Option<bool>)
    ensures
        final(out)@ == old(out)@ + json_opt_bool(*o),
{
    match o {
        Some(b) => {
            if *b {
                push_str_chars(out, "true");
            } else {
                push_str_chars(out, "false");
            }
        },
        None => push_str_chars(out, "null"),
    }
}

fn push_json_opt_strings(out: &mut Vec<char>, o: &Option<Vec<String>>)
    ensures
        final(out)@ == old(out)@ + json_opt_strings(*o),
{
    match o {
        Some(xs) => push_json_str_list(out, xs),
        None => push_str_chars(out, "null"),
    }
}

fn push_misc_json(out: &mut Vec<char>, m: &MiscConfig)
    ensures
        final(out)@ == old(out)@ + misc_json(*m),
{
    push_str_chars(out, "{\"latex\":");
    push_json_opt_bool(out, &m.latex);
    push_str_chars(out, ",\"html_lang\":");
    push_json_opt_string(out, &m.html_lang);
    push_str_chars(out, ",\"additional_html_header\":");
    push_json_opt_string(out, &m.additional_html_header);
    push_str_chars(out, ",\"syntax_highlighting\":");
    push_json_opt_bool(out, &m.syntax_highlighting);
    push_str_chars(out, "}");
    proof {
        assert(out@ =~= old(out)@ + misc_json(*m));
    }
}

fn push_routing_json(out: &mut Vec<char>, r: &RoutingConfig)
    ensures
        final(out)@ == old(out)@ + routing_json(*r),
{
    push_str_chars(out, "{\"init_behaviour\":");
    push_json_str(out, r.init_behaviour.as_str());
    push_str_chars(out, ",\"fail_behaviour\":");
    push_json_str(out, r.fail_behaviour.as_str());
    push_str_chars(out, ",\"imports\":");
    push_json_str_list(out, &r.imports);
    push_str_chars(out, "}");
    proof {
        assert(out@ =~= old(out)@ + routing_json(*r));
    }
}

fn push_outer_json(out: &mut Vec<char>, c: &SiteConfig)
    ensures
        final(out)@ == old(out)@ + outer_json(*c),
{
    push_str_chars(out, "{\"routing\":");
    push_routing_json(out, &c.routing);
    push_str_chars(out, ",\"config\":");
    push_str_chars(out, c.config_json.as_str());
    push_str_chars(out, ",\"misc\":");
    push_misc_json(out, &c.misc);
    push_str_chars(out, "}");
    proof {
        assert(out@ =~= old(out)@ + outer_json(*c));
    }
}

fn push_page_json(out: &mut Vec<char>, fm: &PageFrontMatter)
    ensures
        final(out)@ == old(out)@ + page_json(fm@),
{
    push_str_chars(out, "{\"title\":");
    push_json_str(out, fm.title.as_str());
    push_str_chars(out, ",\"subtitle\":");
    push_json_opt_string(out, &fm.subtitle);
    push_str_chars(out, ",\"tags\":");
    push_json_opt_strings(out, &fm.tags);
    push_str_chars(out, ",\"date\":");
    push_json_str(out, fm.date.as_str());
    push_str_chars(out, ",\"additional_css\":");
    push_json_opt_strings(out, &fm.additional_css);
    push_str_chars(out, "}");
    proof {
        assert(out@ =~= old(out)@ + page_json(fm@));
    }
}

/// The `{page, outer}` context for the in-page render, as JSON text.
pub fn build_inline_ctx(fm: &PageFrontMatter, c: &SiteConfig) -> (r: String)
    ensures
        r@ == inline_ctx_json(fm@, *c),
{
    let mut out: Vec<char> = Vec::new();
    push_str_chars(&mut out, "{\"page\":");
    push_page_json(&mut out, fm);
    push_str_chars(&mut out, ",\"outer\":");
    push_outer_json(&mut out, c);
    push_str_chars(&mut out, "}");
    proof {
        assert(out@ =~= inline_ctx_json(fm@, *c));
    }
    string_from_chars(&out)
}

/// The `{content, page, misc}` context for the page-template render.
pub fn build_final_ctx(content: &str, fm: &PageFrontMatter, m: &MiscConfig) -> (r: String)
    ensures
        r@ == final_ctx_json(content@, fm@, *m),
{
    let mut out: Vec<char> = Vec::new();
    push_str_chars(&mut out, "{\"content\":");
    push_json_str(&mut out, content);
    push_str_chars(&mut out, ",\"page\":");
    push_page_json(&mut out, fm);
    push_str_chars(&mut out, ",\"misc\":");
    push_misc_json(&mut out, m);
    push_str_chars(&mut out, "}");
    proof {
        assert(out@ =~= final_ctx_json(content@, fm@, *m));
    }
    string_from_chars(&out)
}

/// Joins strings with `sep` between neighbours.
pub fn join_strings(xs: &Vec<String>, sep: &str) -> (r: String)
    ensures
        r@ == join_with(xs.deep_view(), sep@),
{
    let ghost xd = xs.deep_view();
    proof {
        assert(xd.len() == xs@.len());
        assert(forall|j: int| 0 <= j < xs@.len() ==> xd[j] == #[trigger] xs@[j]@);
    }
    let mut out: Vec<char> = Vec::new();
    let n: usize = xs.len();
    let mut i: usize = 0;
    proof {
        assert(xd.subrange(0, n as int) =~= xd);
        assert(Seq::<char>::empty() + join_with(xd, sep@) =~= join_with(xd, sep@));
    }
    while i < n
        invariant
            i <= n,
            n == xs@.len(),
            xd == xs.deep_view(),
            xd.len() == n,
            forall|j: int| 0 <= j < n ==> xd[j] == #[trigger] xs@[j]@,
            out@ + join_with(xd.subrange(i as int, n as int), sep@) == join_with(xd, sep@),
        decreases n - i,
    {
        let ghost suf = xd.subrange(i as int, n as int);
        proof {
            assert(suf.len() == n - i);
            assert(suf[0] == xd[i as int]);
            assert(suf.drop_first() =~= xd.subrange(i + 1, n as int));
        }
        push_str_chars(&mut out, xs[i].as_str());
        if i + 1 < n {
            push_str_chars(&mut out, sep);
            proof {
                assert(join_with(suf, sep@) == xd[i as int] + sep@ + join_with(
                    xd.subrange(i + 1, n as int),
                    sep@,
                ));
                assert(out@ + join_with(xd.subrange(i + 1, n as int), sep@) =~= join_with(
                    xd,
                    sep@,
                ));
            }
        } else {
            proof {
                assert(join_with(suf, sep@) == xd[i as int]);
                assert(join_with(xd.subrange(i + 1, n as int), sep@) == Seq::<char>::empty());
                assert(out@ + join_with(xd.subrange(i + 1, n as int), sep@) =~= join_with(
                    xd,
                    sep@,
                ));
            }
        }
        i = i + 1;
    }
    proof {
        assert(join_with(xd.subrange(n as int, n as int), sep@) == Seq::<char>::empty());
        assert(out@ + Seq::<char>::empty() =~= out@);
    }
    string_from_chars(&out)
}

/// The `{port, directory, behaviours, imports}` context for the server
/// stub, the imports joined as one newline-and-tab separated token.
pub fn build_routing_ctx(port: u16, static_dir: &str, r: &RoutingConfig) -> (res: String)
    ensures
        res@ == routing_ctx_json(port, static_dir@, *r),
{
    let mut out: Vec<char> = Vec::new();
    push_str_chars(&mut out, "{\"port\":");
    push_dec(&mut out, port as u64);
    push_str_chars(&mut out, ",\"directory\":");
    push_json_str(&mut out, static_dir);
    push_str_chars(&mut out, ",\"init_behaviour\":");
    push_json_str(&mut out, r.init_behaviour.as_str());
    push_str_chars(&mut out, ",\"fail_behaviour\":");
    push_json_str(&mut out, r.fail_behaviour.as_str());
    push_str_chars(&mut out, ",\"imports\":");
    let joined = join_strings(&r.imports, "\n\t");
    push_json_str(&mut out, joined.as_str());
    push_str_chars(&mut out, "}");
    proof {
        assert(out@ =~= routing_ctx_json(port, static_dir@, *r));
    }
    string_from_chars(&out)
}

/// Wraps every import name in literal double quotes, as the server stub
/// expects its import list.
pub fn quote_imports(imports: &Vec<String>) -> (r: Vec<String>)
    ensures
        r.deep_view().len() == imports.deep_view().len(),
        forall|i: int|
            0 <= i < imports.deep_view().len() ==> #[trigger] r.deep_view()[i] == quoted(
                imports.deep_view()[i],
            ),
{
    let ghost xd = imports.deep_view();
    proof {
        assert(xd.len() == imports@.len());
        assert(forall|j: int| 0 <= j < imports@.len() ==> xd[j] == #[trigger] imports@[j]@);
    }
    let n: usize = imports.len();
    let mut r: Vec<String> = Vec::new();
    let mut i: usize = 0;
    while i < n
        invariant
            i <= n,
            n == imports@.len(),
            xd == imports.deep_view(),
            xd.len() == n,
            forall|j: int| 0 <= j < n ==> xd[j] == #[trigger] imports@[j]@,
            r@.len() == i,
            forall|j: int| 0 <= j < i ==> #[trigger] r@[j]@ == quoted(xd[j]),
        decreases n - i,
    {
        let mut q: Vec<char> = Vec::new();
        q.push('"');
        push_str_chars(&mut q, imports[i].as_str());
        q.push('"');
        proof {
            assert(q@ =~= quoted(xd[i as int]));
        }
        r.push(string_from_chars(&q));
        i = i + 1;
    }
    proof {
        assert(r.deep_view().len() == xd.len());
        assert forall|j: int| 0 <= j < xd.len() implies #[trigger] r.deep_view()[j] == quoted(
            xd[j],
        ) by {
            assert(r@[j]@ == quoted(xd[j]));
        }
    }
    r
}

} // verus!
