use site_markdown::markdown::html_to_markdown;
use site_markdown::text::CharSet;

#[test]
fn heading_then_paragraph_with_inner_tag() {
    // The text before <strong> is written as a paragraph of its own, and the
    // strong text follows outside any paragraph: one tag is tracked, not a stack.
    let md = html_to_markdown("<h1>Title</h1><p>Hello <strong>world</strong></p>");
    assert_eq!(md, "# Title\n\nHello\n\n**world**");
}

#[test]
fn list_starts_with_a_blank_line() {
    assert_eq!(html_to_markdown("<ul><li>a</li><li>b</li></ul>"), "\n- a\n- b\n");
}

#[test]
fn ordered_list_starts_with_a_blank_line() {
    assert_eq!(html_to_markdown("<ol><li>a</li></ol>"), "\n- a\n");
}

#[test]
fn link_without_attributes_repeats_its_text() {
    assert_eq!(html_to_markdown("<a>label</a>"), "[label](label)");
}

#[test]
fn link_attributes_are_skipped() {
    assert_eq!(html_to_markdown("<a href=\"https://x.com/\">label</a>"), "[label](label)");
}

#[test]
fn each_tag_has_its_form() {
    assert_eq!(html_to_markdown("<h1>t</h1>"), "# t\n\n");
    assert_eq!(html_to_markdown("<h2>t</h2>"), "## t\n\n");
    assert_eq!(html_to_markdown("<p>t</p>"), "t\n\n");
    assert_eq!(html_to_markdown("<li>t</li>"), "- t\n");
    assert_eq!(html_to_markdown("<a>t</a>"), "[t](t)");
    assert_eq!(html_to_markdown("<img>t</img>"), "![Image](t)\n");
    assert_eq!(html_to_markdown("<strong>t</strong>"), "**t**");
    assert_eq!(html_to_markdown("<em>t</em>"), "*t*");
    assert_eq!(html_to_markdown("<blockquote>t</blockquote>"), "> t\n\n");
}

#[test]
fn text_outside_tags_gets_a_line() {
    assert_eq!(html_to_markdown("  hello  "), "hello\n");
}

#[test]
fn text_in_an_unknown_tag_gets_a_line() {
    assert_eq!(html_to_markdown("<div>x</div>"), "x\n");
}

#[test]
fn unknown_tag_leaves_the_context() {
    assert_eq!(html_to_markdown("<p>a<span>b</span>c</p>"), "a\n\nb\nc\n");
}

#[test]
fn closing_tag_leaves_the_context() {
    assert_eq!(html_to_markdown("<h1>a</h1>b"), "# a\n\nb\n");
    assert_eq!(html_to_markdown("<h1>a</p>b"), "# a\n\nb\n");
}

#[test]
fn recognised_tag_replaces_the_context() {
    assert_eq!(html_to_markdown("<p><em>a"), "*a*");
    assert_eq!(html_to_markdown("<h1>a<h2>b"), "# a\n\n## b\n\n");
}

#[test]
fn line_break_keeps_the_context() {
    assert_eq!(html_to_markdown("<p>a<br>b</p>"), "a\n\n\nb\n\n");
    assert_eq!(html_to_markdown("<li>a<ul>b"), "- a\n\n- b\n");
}

#[test]
fn line_break_outside_tags() {
    assert_eq!(html_to_markdown("a<br>b"), "a\n\nb\n");
    assert_eq!(html_to_markdown("<br>"), "\n");
}

#[test]
fn self_closed_break_is_an_unknown_tag() {
    assert_eq!(html_to_markdown("<p>a<br/>b"), "a\n\nb\n");
}

#[test]
fn closing_break_writes_nothing() {
    assert_eq!(html_to_markdown("a</br>b"), "a\nb\n");
}

#[test]
fn tag_names_are_case_sensitive() {
    assert_eq!(html_to_markdown("<H1>T</H1>"), "T\n");
}

#[test]
fn tag_name_ends_at_the_first_blank() {
    assert_eq!(html_to_markdown("<h1 class=\"big\">T</h1>"), "# T\n\n");
    assert_eq!(html_to_markdown("< h1>T"), "T\n");
}

#[test]
fn text_at_the_end_takes_the_open_context() {
    assert_eq!(html_to_markdown("<h1>Title"), "# Title\n\n");
    assert_eq!(html_to_markdown("<a>x"), "[x](x)");
}

#[test]
fn tag_cut_off_by_the_end() {
    assert_eq!(html_to_markdown("a <"), "a\n");
    assert_eq!(html_to_markdown("a <h1"), "a\n");
    assert_eq!(html_to_markdown("a <h1 class"), "a\n");
    assert_eq!(html_to_markdown("<"), "");
}

#[test]
fn empty_tag_name() {
    assert_eq!(html_to_markdown("<>x"), "x\n");
}

#[test]
fn blank_input_converts_to_nothing() {
    assert_eq!(html_to_markdown(""), "");
    assert_eq!(html_to_markdown(" \n\t "), "");
    assert_eq!(html_to_markdown("<p>  </p>"), "");
    assert_eq!(html_to_markdown("<p></p><h1>\n</h1>"), "");
}

#[test]
fn text_is_trimmed_of_unicode_white_space() {
    assert_eq!(html_to_markdown("\u{a0}x\u{3000}"), "x\n");
    assert_eq!(html_to_markdown("<p>\u{2003}a b\u{85}</p>"), "a b\n\n");
}

#[test]
fn inner_white_space_is_kept() {
    assert_eq!(html_to_markdown("<p> a \n b </p>"), "a \n b\n\n");
}

#[test]
fn text_beyond_ascii_is_kept() {
    assert_eq!(html_to_markdown("<h1>Grüße, 世界</h1>"), "# Grüße, 世界\n\n");
}

#[test]
fn converting_twice_gives_the_same() {
    let html = "<h1>Title</h1><ul><li>a</li></ul><p>Hello <em>you</em></p> tail";
    let first = html_to_markdown(html);
    let second = html_to_markdown(html);
    assert_eq!(first, second);
    assert_eq!(first.as_bytes(), second.as_bytes());
    assert_eq!(first, "# Title\n\n\n- a\nHello\n\n*you*tail\n");
}

#[test]
fn white_space_is_what_std_calls_white_space() {
    let mut code: u32 = 0;
    while code <= 0x10FFFF {
        if let Some(c) = char::from_u32(code) {
            assert_eq!(CharSet::Space.contains(c), c.is_whitespace(), "U+{:04X}", code);
        }
        code += 1;
    }
}

#[test]
fn char_sets() {
    assert!(CharSet::Only('/').contains('/'));
    assert!(!CharSet::Only('/').contains('a'));
    assert!(CharSet::Except('<').contains('a'));
    assert!(!CharSet::Except('<').contains('<'));
    assert!(CharSet::ExceptBoth(' ', '>').contains('a'));
    assert!(!CharSet::ExceptBoth(' ', '>').contains(' '));
    assert!(!CharSet::ExceptBoth(' ', '>').contains('>'));
}
