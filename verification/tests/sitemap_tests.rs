use site_markdown::sitemap::{
    classify, is_index_url, sitemap_locs, LocScanner, SitemapError, SitemapReference,
};
use site_markdown::xml::XmlToken;

#[test]
fn locs_of_a_url_set() {
    let doc = "<?xml version=\"1.0\" encoding=\"UTF-8\"?>\n\
        <urlset xmlns=\"http://www.sitemaps.org/schemas/sitemap/0.9\">\n\
        <url><loc>https://x.com/a</loc><lastmod>2020-01-01</lastmod></url>\n\
        <url><loc>https://x.com/b</loc></url>\n\
        </urlset>\n";
    assert_eq!(sitemap_locs(doc), Ok(vec!["https://x.com/a".to_string(), "https://x.com/b".to_string()]));
}

#[test]
fn locs_of_a_sitemap_index() {
    let doc = "<sitemapindex><sitemap><loc>https://x.com/s1.xml</loc></sitemap>\
        <sitemap><loc>https://x.com/s2.xml</loc></sitemap></sitemapindex>";
    assert_eq!(
        sitemap_locs(doc),
        Ok(vec!["https://x.com/s1.xml".to_string(), "https://x.com/s2.xml".to_string()])
    );
}

#[test]
fn entities_in_a_loc_are_resolved() {
    let doc = "<urlset><url><loc>https://x.com/b?x=1&amp;y=&lt;2&gt;&#65;&#x42;</loc></url></urlset>";
    assert_eq!(sitemap_locs(doc), Ok(vec!["https://x.com/b?x=1&y=<2>AB".to_string()]));
}

#[test]
fn white_space_in_a_loc_is_kept() {
    assert_eq!(sitemap_locs("<loc> a </loc>"), Ok(vec![" a ".to_string()]));
}

#[test]
fn empty_loc_is_no_entry() {
    assert_eq!(sitemap_locs("<urlset><loc></loc></urlset>"), Ok(vec![]));
    assert_eq!(sitemap_locs("<urlset><loc/></urlset>"), Ok(vec![]));
}

#[test]
fn text_outside_a_loc_is_no_entry() {
    assert_eq!(sitemap_locs("<urlset><url>x<lastmod>y</lastmod></url></urlset>"), Ok(vec![]));
    assert_eq!(sitemap_locs("<urlset><loc></loc><x>y</x><loc></loc></urlset>"), Ok(vec![]));
}

#[test]
fn later_text_in_a_loc_replaces_earlier_text() {
    assert_eq!(sitemap_locs("<loc>a<!-- c -->b</loc>"), Ok(vec!["b".to_string()]));
}

#[test]
fn character_data_sections_are_passed_over() {
    assert_eq!(sitemap_locs("<loc><![CDATA[https://x.com/a]]></loc>"), Ok(vec![]));
}

#[test]
fn document_without_elements() {
    assert_eq!(sitemap_locs(""), Ok(vec![]));
    assert_eq!(sitemap_locs("just text"), Ok(vec![]));
}

#[test]
fn mismatched_end_tag_is_malformed() {
    assert_eq!(sitemap_locs("<urlset><url></urlset>"), Err(SitemapError::Malformed));
    assert_eq!(sitemap_locs("<loc>a</loc></urlset>"), Err(SitemapError::Malformed));
}

#[test]
fn tag_cut_off_is_malformed() {
    assert_eq!(sitemap_locs("<urlset><loc>a</loc"), Err(SitemapError::Malformed));
}

#[test]
fn entries_before_an_error_are_not_returned() {
    assert_eq!(sitemap_locs("<a><loc>u</loc></b>"), Err(SitemapError::Malformed));
}

#[test]
fn unknown_entity_in_a_loc_is_a_bad_escape() {
    assert_eq!(sitemap_locs("<loc>a&bogus;b</loc>"), Err(SitemapError::BadEscape));
    assert_eq!(sitemap_locs("<loc>a&amp</loc>"), Err(SitemapError::BadEscape));
    assert_eq!(sitemap_locs("<loc>&#0;</loc>"), Err(SitemapError::BadEscape));
}

#[test]
fn unknown_entity_outside_a_loc_is_passed_over() {
    assert_eq!(sitemap_locs("<u><x>a&bogus;b</x><loc>u</loc></u>"), Ok(vec!["u".to_string()]));
}

#[test]
fn suffix_decides_the_kind_of_reference() {
    assert!(is_index_url("https://x.com/s.xml"));
    assert!(is_index_url(".xml"));
    assert!(!is_index_url("xml"));
    assert!(!is_index_url("https://x.com/s.XML"));
    assert!(!is_index_url("https://x.com/s.xml/"));
    assert!(!is_index_url("https://x.com/s.xml\n"));
    assert!(!is_index_url(""));
    assert_eq!(classify("a.xml".to_string()), SitemapReference::Index("a.xml".to_string()));
    assert_eq!(classify("a.html".to_string()), SitemapReference::Page("a.html".to_string()));
}

#[test]
fn scanner_follows_open_text_close() {
    let mut s = LocScanner::new();
    assert!(!s.in_loc());
    s.text("before".to_string());
    s.open(b"url");
    assert!(!s.in_loc());
    s.open(b"loc");
    assert!(s.in_loc());
    s.text("first".to_string());
    s.text("second".to_string());
    s.close(b"url");
    assert!(s.in_loc());
    s.close(b"loc");
    assert!(!s.in_loc());
    s.close(b"loc");
    s.open(b"LOC");
    assert!(!s.in_loc());
    s.open(b"loc");
    s.close(b"loc");
    assert!(!s.in_loc());
    assert_eq!(s.finish(), vec!["second"]);
}

#[test]
fn scanner_keeps_text_until_a_loc_closes() {
    let mut s = LocScanner::new();
    s.open(b"loc");
    s.text("a".to_string());
    s.open(b"loc");
    s.close(b"x");
    s.close(b"loc");
    s.open(b"loc");
    s.text("b".to_string());
    s.close(b"loc");
    assert_eq!(s.finish(), vec!["a", "b"]);
}

#[test]
fn scanner_takes_tokens_until_the_end() {
    let mut s = LocScanner::new();
    assert_eq!(s.take(XmlToken::Other), Ok(true));
    assert_eq!(s.take(XmlToken::Start(b"url".to_vec())), Ok(true));
    assert_eq!(s.take(XmlToken::Text("\n  ".to_string())), Ok(true));
    assert_eq!(s.take(XmlToken::Start(b"loc".to_vec())), Ok(true));
    assert!(s.in_loc());
    assert_eq!(s.take(XmlToken::Text("https://x.com/a".to_string())), Ok(true));
    assert_eq!(s.take(XmlToken::End(b"loc".to_vec())), Ok(true));
    assert!(!s.in_loc());
    assert_eq!(s.take(XmlToken::End(b"url".to_vec())), Ok(true));
    assert_eq!(s.take(XmlToken::Eof), Ok(false));
    assert_eq!(s.finish(), vec!["https://x.com/a"]);
}

#[test]
fn scanner_unescapes_text_inside_a_loc_only() {
    let mut s = LocScanner::new();
    assert_eq!(s.take(XmlToken::Text("a &bogus; b".to_string())), Ok(true));
    assert_eq!(s.take(XmlToken::Start(b"loc".to_vec())), Ok(true));
    assert_eq!(s.take(XmlToken::Text("a&amp;b".to_string())), Ok(true));
    assert_eq!(s.take(XmlToken::Text("a &bogus; b".to_string())), Err(SitemapError::BadEscape));
    assert!(s.in_loc());
    assert_eq!(s.take(XmlToken::End(b"loc".to_vec())), Ok(true));
    assert_eq!(s.finish(), vec!["a&b"]);
}
