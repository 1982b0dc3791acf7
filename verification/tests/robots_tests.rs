use site_markdown::robots::parse_robots_txt;

#[test]
fn directives_in_either_case_and_other_lines() {
    let found =
        parse_robots_txt("SITEMAP: http://x/a.xml\nSitemap:http://x/b.xml\nDisallow: /priv");
    assert_eq!(found, vec!["http://x/a.xml", "http://x/b.xml"]);
}

#[test]
fn white_space_before_the_directive_and_around_the_url() {
    let found = parse_robots_txt("  \tsitemap:  http://x/c.xml  \r\nUser-agent: *\r\n");
    assert_eq!(found, vec!["http://x/c.xml"]);
}

#[test]
fn directive_without_url_declares_the_empty_url() {
    assert_eq!(parse_robots_txt("Sitemap:"), vec![""]);
    assert_eq!(parse_robots_txt("Sitemap:   \nSitemap: a"), vec!["", "a"]);
}

#[test]
fn no_directive() {
    assert_eq!(parse_robots_txt(""), Vec::<String>::new());
    assert_eq!(parse_robots_txt("\n\n"), Vec::<String>::new());
    assert_eq!(parse_robots_txt("User-agent: *\nDisallow: /"), Vec::<String>::new());
}

#[test]
fn the_keyword_ends_with_its_colon() {
    assert_eq!(parse_robots_txt("Sitemaps: http://x/a.xml"), Vec::<String>::new());
    assert_eq!(parse_robots_txt("Sitemap http://x/a.xml"), Vec::<String>::new());
    assert_eq!(parse_robots_txt("sitemap"), Vec::<String>::new());
}

#[test]
fn the_keyword_starts_the_line() {
    assert_eq!(parse_robots_txt("# Sitemap: http://x/a.xml"), Vec::<String>::new());
}

#[test]
fn order_of_declaration_is_kept_and_duplicates_stay() {
    let found = parse_robots_txt("Sitemap: b\nSitemap: a\nSitemap: b\n");
    assert_eq!(found, vec!["b", "a", "b"]);
}

#[test]
fn url_may_hold_blanks_and_colons() {
    assert_eq!(parse_robots_txt("sitemap: http://x/a b.xml"), vec!["http://x/a b.xml"]);
}
