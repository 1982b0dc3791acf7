use site_markdown::filename::markdown_file_name;

#[test]
fn last_segment_of_the_path() {
    assert_eq!(markdown_file_name("https://x.com/a/b/"), "b.md");
    assert_eq!(markdown_file_name("https://x.com/a/b"), "b.md");
    assert_eq!(markdown_file_name("https://x.com/a"), "a.md");
}

#[test]
fn root_is_the_index() {
    assert_eq!(markdown_file_name("https://x.com/"), "index.md");
    assert_eq!(markdown_file_name("https://x.com"), "index.md");
    assert_eq!(markdown_file_name("https://x.com//"), "index.md");
}

#[test]
fn empty_segments_at_the_end_are_passed_over() {
    assert_eq!(markdown_file_name("https://x.com/a//"), "a.md");
}

#[test]
fn url_without_scheme() {
    assert_eq!(markdown_file_name("x.com/page"), "page.md");
    assert_eq!(markdown_file_name("x.com"), "index.md");
    assert_eq!(markdown_file_name("/docs/intro"), "intro.md");
    assert_eq!(markdown_file_name(""), "index.md");
    assert_eq!(markdown_file_name("/"), "index.md");
}

#[test]
fn query_stays_in_the_name() {
    assert_eq!(markdown_file_name("https://x.com/a?q=1"), "a?q=1.md");
}

#[test]
fn same_last_segment_same_name() {
    assert_eq!(markdown_file_name("https://x.com/a/page"), markdown_file_name("https://y.org/page/"));
}
