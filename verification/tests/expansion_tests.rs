use site_markdown::expansion::Expansion;
use site_markdown::sitemap::SitemapError;
use site_markdown::urlset::UrlSet;
use std::collections::HashMap;

fn sitemap_of(locs: &[&str]) -> String {
    let mut doc = String::from("<urlset>");
    for loc in locs {
        doc.push_str("<url><loc>");
        doc.push_str(loc);
        doc.push_str("</loc></url>");
    }
    doc.push_str("</urlset>");
    doc
}

fn strings(items: &[&str]) -> Vec<String> {
    items.iter().map(|s| s.to_string()).collect()
}

/// Runs an expansion over documents held in memory. Returns the pages and the
/// sitemaps in the order in which they were asked for.
fn expand(web: &HashMap<String, String>, roots: &[&str]) -> Result<(Vec<String>, Vec<String>), SitemapError> {
    let mut expansion = Expansion::new(&strings(roots));
    let mut fetched = Vec::new();
    let mut rounds = 0;
    while let Some(url) = expansion.next_sitemap() {
        rounds += 1;
        assert!(rounds <= 1000, "the expansion does not end");
        fetched.push(url.clone());
        if let Some(doc) = web.get(&url) {
            expansion.record(doc)?;
        }
    }
    assert!(expansion.is_done());
    Ok((expansion.into_pages(), fetched))
}

fn web_of(docs: &[(&str, &[&str])]) -> HashMap<String, String> {
    docs.iter().map(|(url, locs)| (url.to_string(), sitemap_of(locs))).collect()
}

#[test]
fn cycle_of_two_sitemaps_ends_and_fetches_each_once() {
    let web = web_of(&[
        ("http://x/a.xml", &["http://x/b.xml", "http://x/first"]),
        ("http://x/b.xml", &["http://x/a.xml", "http://x/second"]),
    ]);
    let (pages, fetched) = expand(&web, &["http://x/a.xml"]).unwrap();
    assert_eq!(fetched, vec!["http://x/a.xml", "http://x/b.xml"]);
    assert_eq!(pages, vec!["http://x/first", "http://x/second"]);
}

#[test]
fn sitemap_that_lists_itself_is_fetched_once() {
    let web = web_of(&[("http://x/a.xml", &["http://x/a.xml", "http://x/p"])]);
    let (pages, fetched) = expand(&web, &["http://x/a.xml"]).unwrap();
    assert_eq!(fetched, vec!["http://x/a.xml"]);
    assert_eq!(pages, vec!["http://x/p"]);
}

#[test]
fn tree_of_sitemaps_gives_the_pages_of_all_its_documents() {
    let web = web_of(&[
        ("http://x/index.xml", &["http://x/s1.xml", "http://x/s2.xml", "http://x/top"]),
        ("http://x/s1.xml", &["http://x/a", "http://x/b", "http://x/deep.xml"]),
        ("http://x/s2.xml", &["http://x/c"]),
        ("http://x/deep.xml", &["http://x/d"]),
    ]);
    let (pages, fetched) = expand(&web, &["http://x/index.xml"]).unwrap();
    assert_eq!(
        fetched,
        vec!["http://x/index.xml", "http://x/s1.xml", "http://x/s2.xml", "http://x/deep.xml"]
    );
    assert_eq!(
        pages,
        vec!["http://x/top", "http://x/a", "http://x/b", "http://x/c", "http://x/d"]
    );
}

#[test]
fn page_listed_twice_is_held_once() {
    let web = web_of(&[
        ("http://x/index.xml", &["http://x/s1.xml", "http://x/s2.xml"]),
        ("http://x/s1.xml", &["http://x/a", "http://x/b", "http://x/a"]),
        ("http://x/s2.xml", &["http://x/b", "http://x/c"]),
    ]);
    let (pages, _) = expand(&web, &["http://x/index.xml"]).unwrap();
    assert_eq!(pages, vec!["http://x/a", "http://x/b", "http://x/c"]);
}

#[test]
fn sitemap_listed_twice_is_fetched_once() {
    let web = web_of(&[
        ("http://x/index.xml", &["http://x/s.xml", "http://x/s.xml"]),
        ("http://x/s.xml", &["http://x/a"]),
    ]);
    let (pages, fetched) = expand(&web, &["http://x/index.xml", "http://x/s.xml"]).unwrap();
    assert_eq!(fetched, vec!["http://x/index.xml", "http://x/s.xml"]);
    assert_eq!(pages, vec!["http://x/a"]);
}

#[test]
fn sitemap_that_cannot_be_fetched_gives_nothing() {
    let web = web_of(&[("http://x/index.xml", &["http://x/gone.xml", "http://x/a"])]);
    let (pages, fetched) = expand(&web, &["http://x/index.xml"]).unwrap();
    assert_eq!(fetched, vec!["http://x/index.xml", "http://x/gone.xml"]);
    assert_eq!(pages, vec!["http://x/a"]);
}

#[test]
fn root_is_a_sitemap_whatever_it_ends_in() {
    let web = web_of(&[("http://x/sitemap", &["http://x/a"])]);
    let (pages, fetched) = expand(&web, &["http://x/sitemap"]).unwrap();
    assert_eq!(fetched, vec!["http://x/sitemap"]);
    assert_eq!(pages, vec!["http://x/a"]);
}

#[test]
fn root_given_twice_is_fetched_once() {
    let web = web_of(&[("http://x/a.xml", &["http://x/p"])]);
    let (_, fetched) = expand(&web, &["http://x/a.xml", "http://x/a.xml"]).unwrap();
    assert_eq!(fetched, vec!["http://x/a.xml"]);
}

#[test]
fn no_roots_no_pages() {
    let (pages, fetched) = expand(&HashMap::new(), &[]).unwrap();
    assert!(pages.is_empty());
    assert!(fetched.is_empty());
}

#[test]
fn malformed_sitemap_stops_the_expansion() {
    let mut web = web_of(&[("http://x/index.xml", &["http://x/bad.xml", "http://x/a"])]);
    web.insert("http://x/bad.xml".to_string(), "<urlset><url></urlset>".to_string());
    assert_eq!(expand(&web, &["http://x/index.xml"]), Err(SitemapError::Malformed));
}

#[test]
fn document_that_cannot_be_read_leaves_the_expansion_as_it_was() {
    let mut expansion = Expansion::new(&strings(&["http://x/a.xml"]));
    assert_eq!(expansion.next_sitemap(), Some("http://x/a.xml".to_string()));
    assert_eq!(expansion.record(&sitemap_of(&["http://x/p"])), Ok(()));
    assert_eq!(expansion.record("<loc>http://x/q</loc><loc>&bogus;</loc>"), Err(SitemapError::BadEscape));
    assert_eq!(expansion.pages(), &strings(&["http://x/p"]));
    assert!(expansion.is_done());
}

#[test]
fn absorb_sorts_entries_by_their_suffix() {
    let mut expansion = Expansion::new(&Vec::new());
    assert!(expansion.is_done());
    expansion.absorb(&strings(&["http://x/p", "http://x/s.xml", "http://x/p", "http://x/q"]));
    assert_eq!(expansion.pages(), &strings(&["http://x/p", "http://x/q"]));
    assert!(!expansion.is_done());
    assert_eq!(expansion.next_sitemap(), Some("http://x/s.xml".to_string()));
    assert_eq!(expansion.next_sitemap(), None);
    assert!(expansion.is_done());
}

#[test]
fn url_set_keeps_first_arrivals_in_order() {
    let mut set = UrlSet::new();
    assert!(set.is_empty());
    assert!(set.insert("b".to_string()));
    assert!(set.insert("a".to_string()));
    assert!(!set.insert("b".to_string()));
    assert_eq!(set.len(), 2);
    assert!(set.contains("a"));
    assert!(!set.contains("c"));
    assert_eq!(set.get(0), "b");
    assert_eq!(set.get(1), "a");
    assert_eq!(set.as_vec(), &strings(&["b", "a"]));
    assert_eq!(set.into_vec(), strings(&["b", "a"]));
}
