//! Discovery of a site's pages.
//!
//! The pages of a site are looked for in three places, in this order: the sitemaps
//! that the site's `robots.txt` declares; failing any, the sitemap guessed at
//! `/sitemap.xml`; failing any page there, a crawl of the site. A [`Discovery`]
//! makes these decisions and leaves the fetching to its caller: it answers each
//! reply with the next request, until it hands over the pages or gives up.
use crate::expansion::{Expansion, ExpansionState};
use crate::robots::{parse_robots_txt, robots_sitemaps};
use crate::sitemap::{sitemap_locs, sitemap_locs_of, SitemapError};
use crate::text::{chars_of, scan_backward, string_of_range, texts, trail, CharSet};
use vstd::prelude::*;
use vstd::string::StringExecFns;

verus! {

/// How many links deep the crawl of the last resort follows.
pub const CRAWL_DEPTH: usize = 3;

/// The pause between two requests of that crawl, in milliseconds.
pub const CRAWL_DELAY_MS: u64 = 100;

/// How far a discovery has come.
#[derive(Clone, Copy, Debug, PartialEq, Eq)]
pub enum Stage {
    /// Waiting for `robots.txt`.
    Robots,
    /// Expanding the sitemaps that `robots.txt` declared.
    Declared,
    /// Expanding the guessed sitemap.
    Guessed,
    /// Waiting for the links of the crawl.
    Crawling,
    /// The pages were handed over.
    Finished,
    /// The discovery gave up.
    Failed,
}

/// Why a discovery gave up.
#[derive(Clone, Copy, Debug, PartialEq, Eq)]
pub enum DiscoveryError {
    /// A sitemap document could not be read to its end.
    Sitemap(SitemapError),
    /// A reply came that answers no request of the stage the discovery was in.
    Unexpected,
}

/// The crawl that a discovery asks for as its last resort.
#[derive(Debug)]
pub struct CrawlPlan {
    /// The site root to start from.
    pub root: String,
    /// How many links deep to follow.
    pub depth: usize,
    /// The pause between two requests, in milliseconds.
    pub delay_ms: u64,
}

/// What a discovery asks of its caller next.
#[derive(Debug)]
pub enum Request {
    /// Fetch the one document at this URL, following no link.
    Fetch(String),
    /// Crawl the site.
    Crawl(CrawlPlan),
    /// Nothing more: these are the site's pages.
    Done(Vec<String>),
    /// Nothing more: the discovery gave up.
    Failed(DiscoveryError),
}

/// What the caller answers a request with.
#[derive(Debug)]
pub enum Reply {
    /// The text of the document that was fetched.
    Document(String),
    /// The document could not be fetched.
    Unavailable,
    /// The links that the crawl found.
    Links(Vec<String>),
}

/// A request, with texts in place of strings.
pub enum RequestView {
    Fetch(Seq<char>),
    Crawl { root: Seq<char>, depth: nat, delay_ms: nat },
    Done(Seq<Seq<char>>),
    Failed(DiscoveryError),
}

/// A reply, with texts in place of strings.
pub enum ReplyView {
    Document(Seq<char>),
    Unavailable,
    Links(Seq<Seq<char>>),
}

impl View for Request {
    type V = RequestView;

    open spec fn view(&self) -> RequestView {
        match self {
            Request::Fetch(url) => RequestView::Fetch(url@),
            Request::Crawl(plan) => RequestView::Crawl {
                root: plan.root@,
                depth: plan.depth as nat,
                delay_ms: plan.delay_ms as nat,
            },
            Request::Done(pages) => RequestView::Done(texts(pages@)),
            Request::Failed(e) => RequestView::Failed(*e),
        }
    }
}

impl View for Reply {
    type V = ReplyView;

    open spec fn view(&self) -> ReplyView {
        match self {
            Reply::Document(text) => ReplyView::Document(text@),
            Reply::Unavailable => ReplyView::Unavailable,
            Reply::Links(links) => ReplyView::Links(texts(links@)),
        }
    }
}

/// The site root for `domain`: `domain` without the `/` at its end.
pub open spec fn root_of(domain: Seq<char>) -> Seq<char> {
    domain.take(domain.len() - trail(domain, CharSet::Only('/')))
}

/// What a discovery holds.
pub struct DiscoveryState {
    /// The site root.
    pub root: Seq<char>,
    /// How far the discovery has come.
    pub stage: Stage,
    /// The expansion of the sitemaps; it matters in the two stages that expand.
    pub expansion: ExpansionState,
}

impl DiscoveryState {
    /// The discovery for the site at `root` that waits for `robots.txt`.
    pub open spec fn initial(root: Seq<char>) -> DiscoveryState {
        DiscoveryState {
            root,
            stage: Stage::Robots,
            expansion: ExpansionState::start(Seq::empty()),
        }
    }

    /// After `robots.txt` declared `sitemaps`: these are expanded if there are
    /// any, the guessed sitemap if there is none.
    pub open spec fn seeded(self, sitemaps: Seq<Seq<char>>) -> DiscoveryState {
        if sitemaps.len() > 0 {
            DiscoveryState {
                stage: Stage::Declared,
                expansion: ExpansionState::start(sitemaps),
                ..self
            }
        } else {
            DiscoveryState {
                stage: Stage::Guessed,
                expansion: ExpansionState::start(seq![self.root + "/sitemap.xml"@]),
                ..self
            }
        }
    }

    /// The next request of a discovery that expands sitemaps, and the discovery
    /// after it. While sitemaps are left, the next of them is asked for. When none
    /// is left, declared sitemaps give the pages they gave, be it none; a guessed
    /// sitemap gives its pages if it gave any, and else the site is crawled.
    pub open spec fn pumped(self) -> (DiscoveryState, RequestView) {
        if !self.expansion.is_done() {
            (
                DiscoveryState { expansion: self.expansion.handed(), ..self },
                RequestView::Fetch(self.expansion.sitemaps[self.expansion.next as int]),
            )
        } else if self.stage == Stage::Declared || self.expansion.pages.len() > 0 {
            (
                DiscoveryState { stage: Stage::Finished, ..self },
                RequestView::Done(self.expansion.pages),
            )
        } else {
            (
                DiscoveryState { stage: Stage::Crawling, ..self },
                RequestView::Crawl {
                    root: self.root,
                    depth: CRAWL_DEPTH as nat,
                    delay_ms: CRAWL_DELAY_MS as nat,
                },
            )
        }
    }

    /// The discovery that gave up for `error`, and the request that says so.
    pub open spec fn failed(self, error: DiscoveryError) -> (DiscoveryState, RequestView) {
        (DiscoveryState { stage: Stage::Failed, ..self }, RequestView::Failed(error))
    }

    /// The next request after a sitemap was fetched and read with the outcome
    /// `read`, and the discovery after it. The entries of a sitemap that was read
    /// are taken in and the expansion goes on; a sitemap that could not be read
    /// ends the discovery. Outside the two stages that expand, no sitemap is
    /// waited for.
    pub open spec fn listed(self, read: Result<Seq<Seq<char>>, SitemapError>) -> (
        DiscoveryState,
        RequestView,
    ) {
        if self.stage == Stage::Declared || self.stage == Stage::Guessed {
            match read {
                Ok(locs) => DiscoveryState {
                    expansion: self.expansion.absorbed(locs),
                    ..self
                }.pumped(),
                Err(e) => self.failed(DiscoveryError::Sitemap(e)),
            }
        } else {
            self.failed(DiscoveryError::Unexpected)
        }
    }

    /// The next request after `reply` came, and the discovery after it.
    ///
    /// A `robots.txt` that cannot be fetched declares nothing. A sitemap that
    /// cannot be fetched lists nothing; one that cannot be read ends the
    /// discovery. The links of the crawl are the pages as they come.
    pub open spec fn advanced(self, reply: ReplyView) -> (DiscoveryState, RequestView) {
        match self.stage {
            Stage::Robots => match reply {
                ReplyView::Document(text) => self.seeded(robots_sitemaps(text)).pumped(),
                ReplyView::Unavailable => self.seeded(Seq::empty()).pumped(),
                ReplyView::Links(_) => self.failed(DiscoveryError::Unexpected),
            },
            Stage::Declared | Stage::Guessed => match reply {
                ReplyView::Document(doc) => self.listed(sitemap_locs_of(doc)),
                ReplyView::Unavailable => self.pumped(),
                ReplyView::Links(_) => self.failed(DiscoveryError::Unexpected),
            },
            Stage::Crawling => match reply {
                ReplyView::Links(links) => (
                    DiscoveryState { stage: Stage::Finished, ..self },
                    RequestView::Done(links),
                ),
                _ => self.failed(DiscoveryError::Unexpected),
            },
            Stage::Finished | Stage::Failed => self.failed(DiscoveryError::Unexpected),
        }
    }
}

/// Once `robots.txt` has declared sitemaps, the site is never crawled and the
/// guessed sitemap never tried: the discovery goes on expanding what was declared
/// until it hands over the pages or gives up.
pub proof fn lemma_declared_is_final(st: DiscoveryState, reply: ReplyView)
    requires
        st.stage == Stage::Declared,
    ensures
        !(st.advanced(reply).1 is Crawl),
        st.advanced(reply).0.stage == Stage::Declared || st.advanced(reply).0.stage
            == Stage::Finished || st.advanced(reply).0.stage == Stage::Failed,
        st.advanced(reply).0.stage == Stage::Declared <==> st.advanced(reply).1 is Fetch,
{
}

/// A guessed sitemap that gave pages gives the result; the site is crawled only
/// when the guessed sitemap and all it led to gave no page.
pub proof fn lemma_crawl_is_last(st: DiscoveryState, reply: ReplyView)
    requires
        st.stage != Stage::Crawling,
        st.advanced(reply).1 is Crawl,
    ensures
        st.advanced(reply).0.stage == Stage::Crawling,
        st.advanced(reply).0.expansion.is_done(),
        st.advanced(reply).0.expansion.pages.len() == 0,
        st.advanced(reply).1 == (RequestView::Crawl { root: st.root, depth: 3, delay_ms: 100 }),
{
}

/// The site root for `domain`.
pub fn site_root(domain: &str) -> (root: String)
    ensures
        root@ == root_of(domain@),
{
    let v = chars_of(domain);
    let n = v.len();
    assert(v@.subrange(0, n as int) =~= v@);
    let cut = scan_backward(&v, 0, n, CharSet::Only('/'));
    assert(v@.subrange(0, cut as int) =~= v@.take(cut as int));
    string_of_range(&v, 0, cut)
}

/// A copy of `v`.
fn copy_of(v: &Vec<String>) -> (w: Vec<String>)
    ensures
        texts(w@) == texts(v@),
{
    let mut w: Vec<String> = Vec::new();
    let mut i: usize = 0;
    while i < v.len()
        invariant
            i <= v.len(),
            texts(w@) == texts(v@).take(i as int),
        decreases v.len() - i,
    {
        let ghost before = w@;
        w.push(v[i].clone());
        assert(texts(w@) =~= texts(before).push(v[i as int]@));
        assert(texts(v@).take(i + 1) =~= texts(v@).take(i as int).push(v[i as int]@));
        i += 1;
    }
    assert(texts(v@).take(i as int) =~= texts(v@));
    w
}

/// The discovery of one site's pages.
pub struct Discovery {
    root: String,
    stage: Stage,
    expansion: Expansion,
}

impl View for Discovery {
    type V = DiscoveryState;

    closed spec fn view(&self) -> DiscoveryState {
        DiscoveryState { root: self.root@, stage: self.stage, expansion: self.expansion@ }
    }
}

impl Discovery {
    /// The discovery's invariant. It holds of every discovery that `begin` made,
    /// and the methods keep it.
    pub closed spec fn wf(&self) -> bool {
        self.expansion.wf()
    }

    /// Starts the discovery of the site at `domain`. The first request is for the
    /// site's `robots.txt`.
    pub fn begin(domain: &str) -> (r: (Discovery, Request))
        ensures
            r.0.wf(),
            r.0@ == DiscoveryState::initial(root_of(domain@)),
            r.1@ == RequestView::Fetch(root_of(domain@) + "/robots.txt"@),
    {
        let root = site_root(domain);
        let mut robots = root.clone();
        robots.append("/robots.txt");
        let none: Vec<String> = Vec::new();
        assert(texts(none@) =~= Seq::<Seq<char>>::empty());
        let discovery = Discovery { root, stage: Stage::Robots, expansion: Expansion::new(&none) };
        (discovery, Request::Fetch(robots))
    }

    /// How far the discovery has come.
    pub fn stage(&self) -> (stage: Stage)
        ensures
            stage == self@.stage,
    {
        self.stage
    }

    /// Takes the sitemaps that `robots.txt` declared.
    fn seed(&mut self, sitemaps: Vec<String>)
        requires
            old(self).wf(),
        ensures
            final(self).wf(),
            final(self)@ == old(self)@.seeded(texts(sitemaps@)),
    {
        if sitemaps.len() > 0 {
            self.stage = Stage::Declared;
            self.expansion = Expansion::new(&sitemaps);
        } else {
            let mut guess = self.root.clone();
            guess.append("/sitemap.xml");
            let roots = vec![guess];
            assert(texts(roots@) =~= seq![self.root@ + "/sitemap.xml"@]);
            self.stage = Stage::Guessed;
            self.expansion = Expansion::new(&roots);
        }
    }

    /// Asks for the next sitemap, or ends the expansion.
    fn pump(&mut self) -> (request: Request)
        requires
            old(self).wf(),
        ensures
            final(self).wf(),
            (final(self)@, request@) == old(self)@.pumped(),
    {
        match self.expansion.next_sitemap() {
            Some(url) => Request::Fetch(url),
            None => {
                let declared = match self.stage {
                    Stage::Declared => true,
                    _ => false,
                };
                if declared || self.expansion.pages().len() > 0 {
                    self.stage = Stage::Finished;
                    Request::Done(copy_of(self.expansion.pages()))
                } else {
                    self.stage = Stage::Crawling;
                    Request::Crawl(
                        CrawlPlan {
                            root: self.root.clone(),
                            depth: CRAWL_DEPTH,
                            delay_ms: CRAWL_DELAY_MS,
                        },
                    )
                }
            },
        }
    }

    /// Gives up for `error`.
    fn fail(&mut self, error: DiscoveryError) -> (request: Request)
        requires
            old(self).wf(),
        ensures
            final(self).wf(),
            (final(self)@, request@) == old(self)@.failed(error),
    {
        self.stage = Stage::Failed;
        Request::Failed(error)
    }

    /// Takes the outcome of reading the sitemap that was asked for last, its
    /// entries or the error, and makes the next request.
    pub fn sitemap_read(&mut self, read: Result<Vec<String>, SitemapError>) -> (request: Request)
        requires
            old(self).wf(),
        ensures
            final(self).wf(),
            (final(self)@, request@) == old(self)@.listed(
                match read {
                    Ok(locs) => Ok(texts(locs@)),
                    Err(e) => Err(e),
                },
            ),
    {
        match self.stage {
            Stage::Declared | Stage::Guessed => match read {
                Ok(locs) => {
                    self.expansion.absorb(&locs);
                    self.pump()
                },
                Err(e) => self.fail(DiscoveryError::Sitemap(e)),
            },
            _ => self.fail(DiscoveryError::Unexpected),
        }
    }

    /// Takes the reply to the request made last and makes the next request.
    pub fn advance(&mut self, reply: Reply) -> (request: Request)
        requires
            old(self).wf(),
        ensures
            final(self).wf(),
            (final(self)@, request@) == old(self)@.advanced(reply@),
    {
        match self.stage {
            Stage::Robots => match reply {
                Reply::Document(text) => {
                    let sitemaps = parse_robots_txt(text.as_str());
                    self.seed(sitemaps);
                    self.pump()
                },
                Reply::Unavailable => {
                    let none: Vec<String> = Vec::new();
                    assert(texts(none@) =~= Seq::<Seq<char>>::empty());
                    self.seed(none);
                    self.pump()
                },
                Reply::Links(_) => self.fail(DiscoveryError::Unexpected),
            },
            Stage::Declared | Stage::Guessed => match reply {
                Reply::Document(doc) => {
                    let read = sitemap_locs(doc.as_str());
                    self.sitemap_read(read)
                },
                Reply::Unavailable => self.pump(),
                Reply::Links(_) => self.fail(DiscoveryError::Unexpected),
            },
            Stage::Crawling => match reply {
                Reply::Links(links) => {
                    self.stage = Stage::Finished;
                    Request::Done(links)
                },
                _ => self.fail(DiscoveryError::Unexpected),
            },
            Stage::Finished | Stage::Failed => self.fail(DiscoveryError::Unexpected),
        }
    }
}

} // verus!
