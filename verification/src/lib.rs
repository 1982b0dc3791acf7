//! Discovery of a site's page URLs and conversion of its pages to Markdown.
//!
//! The crate holds the decisions that storing a site as Markdown takes, and leaves
//! every fetch and every file write to its caller:
//!
//! * [`discovery`] chooses between the sitemaps that `robots.txt` declares, a
//!   guessed sitemap and a crawl;
//! * [`robots`] reads the sitemap directives of a `robots.txt`;
//! * [`sitemap`] reads the `<loc>` entries of a sitemap document, through the XML
//!   reader wrapped in [`xml`];
//! * [`expansion`] expands sitemaps and sitemap indexes into page URLs, asking for
//!   each sitemap once, and [`reach`] proves what that comes to;
//! * [`urlset`] is the set of URLs, in order of arrival, that an expansion keeps;
//! * [`markdown`] converts one page's markup into Markdown;
//! * [`filename`] names the file that a page is stored under;
//! * [`text`] holds the scanning and trimming of text that the others share.
pub mod discovery;
pub mod expansion;
pub mod filename;
pub mod markdown;
pub mod reach;
pub mod robots;
pub mod sitemap;
pub mod text;
pub mod urlset;
pub mod xml;
