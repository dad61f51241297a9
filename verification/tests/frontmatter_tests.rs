use cuteness::frontmatter::{parse_front_matter, serialize_front_matter, PageFrontMatter};

#[test]
fn extracts_required_fields_and_body() {
    let doc = "---\ntitle: \"My file\"\ndate: \"2024-05-01\"\n---\nBody text.";
    let (fm, body) = parse_front_matter(doc).expect("valid front-matter");
    assert_eq!(fm.title, "My file");
    assert_eq!(fm.date, "2024-05-01");
    assert_eq!(fm.subtitle, None);
    assert_eq!(fm.tags, None);
    assert_eq!(fm.additional_css, None);
    assert_eq!(body, "Body text.");
}

#[test]
fn extracts_optional_fields() {
    let doc = "---\ntitle: \"T\"\nsubtitle: \"S\"\ntags: [\"a\", \"b\"]\ndate: \"d\"\nadditional_css: [\"x.css\"]\n---\nrest";
    let (fm, body) = parse_front_matter(doc).expect("valid front-matter");
    assert_eq!(fm.subtitle.as_deref(), Some("S"));
    assert_eq!(fm.tags, Some(vec!["a".to_string(), "b".to_string()]));
    assert_eq!(fm.additional_css, Some(vec!["x.css".to_string()]));
    assert_eq!(body, "rest");
}

#[test]
fn accepts_bare_scalars() {
    let doc = "---\ntitle: My file\ndate: 2024\n---\n";
    let (fm, body) = parse_front_matter(doc).expect("valid front-matter");
    assert_eq!(fm.title, "My file");
    assert_eq!(fm.date, "2024");
    assert_eq!(body, "");
}

#[test]
fn rejects_missing_title() {
    let doc = "---\ndate: \"2024\"\n---\nbody";
    assert!(parse_front_matter(doc).is_none());
}

#[test]
fn rejects_empty_title() {
    let doc = "---\ntitle: \"\"\ndate: \"2024\"\n---\nbody";
    assert!(parse_front_matter(doc).is_none());
}

#[test]
fn rejects_missing_date() {
    let doc = "---\ntitle: \"T\"\n---\nbody";
    assert!(parse_front_matter(doc).is_none());
}

#[test]
fn rejects_absent_block() {
    assert!(parse_front_matter("no front matter here").is_none());
    assert!(parse_front_matter("---\ntitle: \"T\"\ndate: \"d\"").is_none());
}

#[test]
fn serializes_canonical_block() {
    let fm = PageFrontMatter {
        title: "T".to_string(),
        subtitle: None,
        tags: Some(vec!["a".to_string(), "b".to_string()]),
        date: "d".to_string(),
        additional_css: None,
    };
    assert_eq!(
        serialize_front_matter(&fm),
        "---\ntitle: \"T\"\ntags: [\"a\", \"b\"]\ndate: \"d\"\n---\n"
    );
}

#[test]
fn round_trips_serialized_front_matter() {
    let fm = PageFrontMatter {
        title: "My file".to_string(),
        subtitle: Some("A subtitle".to_string()),
        tags: Some(vec!["one".to_string(), "two two".to_string()]),
        date: "2024-05-01".to_string(),
        additional_css: Some(vec!["extra.css".to_string()]),
    };
    let body = "Some body\n\nwith lines and --- dashes";
    let doc = format!("{}{}", serialize_front_matter(&fm), body);
    let (back, back_body) = parse_front_matter(&doc).expect("round trip parses");
    assert_eq!(back, fm);
    assert_eq!(back_body, body);
}

#[test]
fn round_trips_minimal_front_matter() {
    let fm = PageFrontMatter {
        title: "t".to_string(),
        subtitle: None,
        tags: None,
        date: "".to_string(),
        additional_css: None,
    };
    let doc = serialize_front_matter(&fm);
    let (back, back_body) = parse_front_matter(&doc).expect("round trip parses");
    assert_eq!(back, fm);
    assert_eq!(back_body, "");
}
