use cuteness::config::{quote_imports, MiscConfig, RoutingConfig, SiteConfig};
use cuteness::json::{dec_u64, json_string};
use cuteness::pipeline::{
    is_css_name, is_markdown_name, output_name, process_page, render_routing_stub,
    validate_templates, BuildError,
};
use cuteness::render::markdown_to_html;
use cuteness::writer::should_write;

fn test_config() -> SiteConfig {
    SiteConfig {
        routing: RoutingConfig {
            init_behaviour: "start()".to_string(),
            fail_behaviour: "fail(err)".to_string(),
            imports: vec!["fmt".to_string(), "log".to_string()],
        },
        config_json: "{}".to_string(),
        misc: MiscConfig {
            latex: None,
            html_lang: Some("en".to_string()),
            additional_html_header: None,
            syntax_highlighting: None,
        },
    }
}

#[test]
fn markdown_maps_headings_and_emphasis() {
    let html = markdown_to_html("# Title\n\nSome *text*.");
    assert!(html.contains("<h1>Title</h1>"));
    assert!(html.contains("<em>text</em>"));
}

#[test]
fn page_context_resolves_title() {
    let doc = "---\ntitle: \"My file\"\ndate: \"d\"\n---\nThe title is {{page.title}}.";
    let out = process_page(doc, &test_config(), "{{content}}").expect("pipeline succeeds");
    assert!(out.contains("The title is My file."));
}

#[test]
fn page_template_wraps_content() {
    let doc = "---\ntitle: \"T\"\ndate: \"d\"\n---\nHello";
    let out = process_page(doc, &test_config(), "<html>{{content}}</html>")
        .expect("pipeline succeeds");
    assert!(out.starts_with("<html>"));
    assert!(out.ends_with("</html>"));
    assert!(out.contains("<p>Hello</p>"));
}

#[test]
fn global_config_list_iterates_in_order() {
    let mut cfg = test_config();
    cfg.config_json = "{\"authors\":[\"Alejandra\",\"Keepy\"]}".to_string();
    let doc =
        "---\ntitle: \"T\"\ndate: \"d\"\n---\n{{#each outer.config.authors}}[{{this}}]{{/each}}";
    let out = process_page(doc, &cfg, "{{content}}").expect("pipeline succeeds");
    assert!(out.contains("[Alejandra][Keepy]"));
}

#[test]
fn misc_values_reach_templates() {
    let doc = "---\ntitle: \"T\"\ndate: \"d\"\n---\nbody";
    let out = process_page(doc, &test_config(), "<html lang=\"{{misc.html_lang}}\">{{content}}")
        .expect("pipeline succeeds");
    assert!(out.contains("<html lang=\"en\">"));
}

#[test]
fn preprocessors_run_before_markdown() {
    let doc = "---\ntitle: \"T\"\ndate: \"d\"\n---\nShe said \"hi\" :cat:";
    let out = process_page(doc, &test_config(), "{{content}}").expect("pipeline succeeds");
    assert!(out.contains("\u{201C}hi\u{201D}"));
    assert!(out.contains("\u{1F431}"));
    assert!(!out.contains("\"hi\""));
}

#[test]
fn malformed_front_matter_is_fatal() {
    let doc = "---\ndate: \"d\"\n---\nbody";
    assert_eq!(
        process_page(doc, &test_config(), "{{content}}"),
        Err(BuildError::MalformedFrontMatter)
    );
}

#[test]
fn inline_render_failure_is_reported() {
    let doc = "---\ntitle: \"T\"\ndate: \"d\"\n---\n{{#each}}";
    assert_eq!(
        process_page(doc, &test_config(), "{{content}}"),
        Err(BuildError::InlineRenderError)
    );
}

#[test]
fn page_render_failure_is_reported() {
    let doc = "---\ntitle: \"T\"\ndate: \"d\"\n---\nbody";
    assert_eq!(
        process_page(doc, &test_config(), "{{#each}}"),
        Err(BuildError::PageRenderError)
    );
}

#[test]
fn template_validation_reports_first_failure() {
    assert!(validate_templates("ok {{a}}", "ok {{b}}").is_ok());
    assert_eq!(
        validate_templates("{{#each}}", "ok"),
        Err(BuildError::RoutingTemplateLoad)
    );
    assert_eq!(
        validate_templates("ok", "{{#each}}"),
        Err(BuildError::PageTemplateLoad)
    );
}

#[test]
fn routing_stub_substitutes_values() {
    let cfg = test_config();
    let imports = quote_imports(&cfg.routing.imports);
    let routing = RoutingConfig { imports, ..cfg.routing };
    let tpl = "port={{port}} dir={{directory}} init={{init_behaviour}} fail={{fail_behaviour}} imports={{imports}}";
    let out = render_routing_stub(tpl, 8080, "/tmp/www/static", &routing).expect("stub renders");
    assert!(out.contains("port=8080"));
    assert!(out.contains("dir=/tmp/www/static"));
    assert!(out.contains("init=start()"));
    assert!(out.contains("fail=fail(err)"));
    assert!(out.contains("imports=\"fmt\"\n\t\"log\""));
}

#[test]
fn routing_render_failure_is_reported() {
    let cfg = test_config();
    assert_eq!(
        render_routing_stub("{{#each}}", 8080, "/d", &cfg.routing),
        Err(BuildError::RoutingRenderError)
    );
}

#[test]
fn quoting_imports_wraps_each_name() {
    let quoted = quote_imports(&vec!["fmt".to_string(), "log".to_string()]);
    assert_eq!(quoted, vec!["\"fmt\"".to_string(), "\"log\"".to_string()]);
}

#[test]
fn output_names_replace_markdown_extension() {
    assert_eq!(output_name("intro.md"), Some("intro.html".to_string()));
    assert_eq!(output_name("notes.txt"), None);
    assert_eq!(output_name("md"), None);
    assert!(is_markdown_name("a.md"));
    assert!(!is_markdown_name("a.markdown"));
    assert!(is_css_name("style.css"));
    assert!(!is_css_name("style.sass"));
}

#[test]
fn unchanged_content_skips_write() {
    assert!(!should_write("same", &Some("same".to_string())));
    assert!(should_write("new", &Some("old".to_string())));
    assert!(should_write("anything", &None));
}

#[test]
fn json_tokens_escape_and_format() {
    assert_eq!(json_string("a\"b\\c\nd"), "\"a\\\"b\\\\c\\nd\"");
    assert_eq!(json_string("plain"), "\"plain\"");
    assert_eq!(dec_u64(0), "0");
    assert_eq!(dec_u64(65535), "65535");
}

#[test]
fn identical_runs_give_identical_output() {
    let doc = "---\ntitle: \"T\"\ndate: \"d\"\n---\nStable :cat: \"text\"";
    let cfg = test_config();
    let first = process_page(doc, &cfg, "<x>{{content}}</x>").expect("pipeline succeeds");
    let second = process_page(doc, &cfg, "<x>{{content}}</x>").expect("pipeline succeeds");
    assert_eq!(first, second);
    assert!(!should_write(&second, &Some(first)));
}
