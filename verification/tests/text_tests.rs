use cuteness::curly_quotes;
use cuteness::emojis;
use cuteness::Method;

#[test]
fn curls_balanced_quotes() {
    assert_eq!(
        curly_quotes("He said \"hello\" to \"Sam\"."),
        "He said \u{201C}hello\u{201D} to \u{201C}Sam\u{201D}."
    );
}

#[test]
fn curls_nothing_without_quotes() {
    assert_eq!(curly_quotes("plain text"), "plain text");
}

#[test]
fn leaves_unpaired_quote_straight() {
    assert_eq!(curly_quotes("a\"b"), "a\"b");
    assert_eq!(curly_quotes("\"x\" y\""), "\u{201C}x\u{201D} y\"");
}

#[test]
fn pairs_nearest_quotes() {
    assert_eq!(curly_quotes("\"a\" and \"b\""), "\u{201C}a\u{201D} and \u{201C}b\u{201D}");
}

#[test]
fn substitutes_known_shortcode_and_keeps_unknown() {
    assert_eq!(
        emojis("I like :cat: and :unknowncode123:"),
        "I like \u{1F431} and :unknowncode123:"
    );
}

#[test]
fn keeps_time_like_text() {
    assert_eq!(emojis("at 3:30 pm"), "at 3:30 pm");
}

#[test]
fn substitutes_multiple_shortcodes() {
    assert_eq!(emojis(":cat::cat:"), "\u{1F431}\u{1F431}");
}

#[test]
fn method_names() {
    assert_eq!(Method::GET.method(), "GET");
    assert_eq!(Method::POST.method(), "POST");
}
