//! Expansion of sitemaps into the pages they list.
//!
//! A sitemap lists pages and further sitemaps. An [`Expansion`] starts from some
//! sitemap URLs and is driven by its caller: it hands out the next sitemap to
//! fetch, and is given the entries of the document that came back. It keeps every
//! sitemap URL it has met, so none is handed out twice, whatever the sitemaps say
//! of each other. Sitemaps are handed out in the order in which they were met,
//! the roots first; the pages come out in the order in which they were first met.
use crate::sitemap::{
    classify, is_index, sitemap_locs, sitemap_locs_of, SitemapError, SitemapReference,
};
use crate::text::texts;
use crate::urlset::{insert_new, lemma_insert_new, UrlSet};
use vstd::prelude::*;

verus! {

/// What an expansion holds.
pub struct ExpansionState {
    /// Every sitemap URL met so far, in the order met, each once.
    pub sitemaps: Seq<Seq<char>>,
    /// How many of `sitemaps`, from the front, were handed out to be fetched.
    pub next: nat,
    /// Every page URL met so far, in the order met, each once.
    pub pages: Seq<Seq<char>>,
}

impl ExpansionState {
    /// The expansion that is about to start from `roots`.
    pub open spec fn start(roots: Seq<Seq<char>>) -> ExpansionState {
        ExpansionState {
            sitemaps: Self::enqueued(Seq::empty(), roots),
            next: 0,
            pages: Seq::empty(),
        }
    }

    /// `list` after each of `urls` was added in turn, those it held already left
    /// out.
    pub open spec fn enqueued(list: Seq<Seq<char>>, urls: Seq<Seq<char>>) -> Seq<Seq<char>>
        decreases urls.len(),
    {
        if urls.len() == 0 {
            list
        } else {
            insert_new(Self::enqueued(list, urls.drop_last()), urls.last())
        }
    }

    /// Whether every sitemap met was handed out.
    pub open spec fn is_done(self) -> bool {
        self.next >= self.sitemaps.len()
    }

    /// The sitemaps handed out so far.
    pub open spec fn visited(self) -> Seq<Seq<char>> {
        self.sitemaps.take(self.next as int)
    }

    /// After the next sitemap was handed out.
    pub open spec fn handed(self) -> ExpansionState {
        ExpansionState { next: self.next + 1, ..self }
    }

    /// After one entry of a document was taken in: a sitemap joins the sitemaps,
    /// a page the pages, each unless it is there already.
    pub open spec fn absorbed_one(self, loc: Seq<char>) -> ExpansionState {
        if is_index(loc) {
            ExpansionState { sitemaps: insert_new(self.sitemaps, loc), ..self }
        } else {
            ExpansionState { pages: insert_new(self.pages, loc), ..self }
        }
    }

    /// After the entries `locs` of a document were taken in, in document order.
    pub open spec fn absorbed(self, locs: Seq<Seq<char>>) -> ExpansionState
        decreases locs.len(),
    {
        if locs.len() == 0 {
            self
        } else {
            self.absorbed(locs.drop_last()).absorbed_one(locs.last())
        }
    }

    /// No URL is held twice, and no more sitemaps were handed out than were met.
    pub open spec fn wf(self) -> bool {
        &&& self.sitemaps.no_duplicates()
        &&& self.pages.no_duplicates()
        &&& self.next <= self.sitemaps.len()
    }
}

/// A prefix agrees with the whole at each of its places.
pub proof fn lemma_prefix_index(a: Seq<Seq<char>>, b: Seq<Seq<char>>, k: int)
    requires
        a.is_prefix_of(b),
        0 <= k < a.len(),
    ensures
        a.len() <= b.len(),
        b[k] == a[k],
{
    assert(b.subrange(0, a.len() as int)[k] == b[k]);
}

/// The members of a list are those of the list without its last place, and the
/// last.
proof fn lemma_contains_last(list: Seq<Seq<char>>, u: Seq<char>)
    requires
        list.len() > 0,
    ensures
        list.contains(u) <==> list.drop_last().contains(u) || u == list.last(),
{
    let front = list.drop_last();
    if list.contains(u) {
        let i = choose|i: int| 0 <= i < list.len() && list[i] == u;
        if i < front.len() {
            assert(front[i] == u);
        }
    }
    if front.contains(u) {
        let i = choose|i: int| 0 <= i < front.len() && front[i] == u;
        assert(list[i] == u);
    }
    if u == list.last() {
        assert(list[list.len() - 1] == u);
    }
}

/// What `enqueued` gives: a list without duplicates that starts with `list` and
/// holds the members of `list` and of `urls`.
pub proof fn lemma_enqueued(list: Seq<Seq<char>>, urls: Seq<Seq<char>>)
    requires
        list.no_duplicates(),
    ensures
        ExpansionState::enqueued(list, urls).no_duplicates(),
        list.is_prefix_of(ExpansionState::enqueued(list, urls)),
        forall|u: Seq<char>| #[trigger]
            ExpansionState::enqueued(list, urls).contains(u) <==> list.contains(u)
                || urls.contains(u),
    decreases urls.len(),
{
    let after = ExpansionState::enqueued(list, urls);
    if urls.len() == 0 {
        assert(list =~= after.subrange(0, list.len() as int));
    } else {
        let mid = ExpansionState::enqueued(list, urls.drop_last());
        lemma_enqueued(list, urls.drop_last());
        lemma_insert_new(mid, urls.last());
        assert(list.is_prefix_of(after)) by {
            assert forall|k: int| 0 <= k < list.len() implies list[k] == after[k] by {
                lemma_prefix_index(list, mid, k);
                lemma_prefix_index(mid, after, k);
            }
            assert(list =~= after.subrange(0, list.len() as int));
        }
        assert forall|u: Seq<char>| #[trigger]
            after.contains(u) <==> list.contains(u) || urls.contains(u) by {
            lemma_contains_last(urls, u);
        }
    }
}

/// What `absorbed` gives: the sitemaps and the pages each keep what they held, in
/// place, and gain the entries of their kind; no URL comes to be held twice, and
/// nothing is handed out.
pub proof fn lemma_absorbed(st: ExpansionState, locs: Seq<Seq<char>>)
    requires
        st.wf(),
    ensures
        st.absorbed(locs).wf(),
        st.absorbed(locs).next == st.next,
        st.sitemaps.is_prefix_of(st.absorbed(locs).sitemaps),
        st.pages.is_prefix_of(st.absorbed(locs).pages),
        forall|u: Seq<char>| #[trigger]
            st.absorbed(locs).sitemaps.contains(u) <==> st.sitemaps.contains(u) || (
            locs.contains(u) && is_index(u)),
        forall|u: Seq<char>| #[trigger]
            st.absorbed(locs).pages.contains(u) <==> st.pages.contains(u) || (locs.contains(u)
                && !is_index(u)),
    decreases locs.len(),
{
    let after = st.absorbed(locs);
    if locs.len() == 0 {
        assert(st.sitemaps =~= after.sitemaps.subrange(0, st.sitemaps.len() as int));
        assert(st.pages =~= after.pages.subrange(0, st.pages.len() as int));
    } else {
        let mid = st.absorbed(locs.drop_last());
        let loc = locs.last();
        lemma_absorbed(st, locs.drop_last());
        lemma_insert_new(mid.sitemaps, loc);
        lemma_insert_new(mid.pages, loc);
        assert(mid.sitemaps.is_prefix_of(after.sitemaps) && mid.pages.is_prefix_of(after.pages))
            by {
            assert(mid.sitemaps =~= mid.sitemaps.subrange(0, mid.sitemaps.len() as int));
            assert(mid.pages =~= mid.pages.subrange(0, mid.pages.len() as int));
        }
        assert forall|k: int| 0 <= k < st.sitemaps.len() implies st.sitemaps[k]
            == after.sitemaps[k] by {
            lemma_prefix_index(st.sitemaps, mid.sitemaps, k);
            lemma_prefix_index(mid.sitemaps, after.sitemaps, k);
        }
        assert(st.sitemaps =~= after.sitemaps.subrange(0, st.sitemaps.len() as int));
        assert forall|k: int| 0 <= k < st.pages.len() implies st.pages[k] == after.pages[k] by {
            lemma_prefix_index(st.pages, mid.pages, k);
            lemma_prefix_index(mid.pages, after.pages, k);
        }
        assert(st.pages =~= after.pages.subrange(0, st.pages.len() as int));
        assert forall|u: Seq<char>| #[trigger]
            after.sitemaps.contains(u) <==> st.sitemaps.contains(u) || (locs.contains(u)
                && is_index(u)) by {
            lemma_contains_last(locs, u);
        }
        assert forall|u: Seq<char>| #[trigger]
            after.pages.contains(u) <==> st.pages.contains(u) || (locs.contains(u) && !is_index(
                u,
            )) by {
            lemma_contains_last(locs, u);
        }
    }
}

/// The expansion of some sitemaps into pages, as far as it has come.
pub struct Expansion {
    sitemaps: UrlSet,
    next: usize,
    pages: UrlSet,
}

impl View for Expansion {
    type V = ExpansionState;

    closed spec fn view(&self) -> ExpansionState {
        ExpansionState { sitemaps: self.sitemaps@, next: self.next as nat, pages: self.pages@ }
    }
}

impl Expansion {
    /// The expansion's invariant. It holds of every expansion that `new` made,
    /// and the methods keep it.
    pub closed spec fn wf(&self) -> bool {
        &&& self.sitemaps.wf()
        &&& self.pages.wf()
        &&& self.next <= self.sitemaps@.len()
    }

    /// A well-formed expansion holds a well-formed state: no URL twice, and no
    /// more sitemaps handed out than met.
    pub proof fn lemma_wf(&self)
        requires
            self.wf(),
        ensures
            self@.wf(),
    {
        self.sitemaps.lemma_distinct();
        self.pages.lemma_distinct();
    }

    /// Starts an expansion from the sitemap URLs `roots`.
    pub fn new(roots: &Vec<String>) -> (e: Expansion)
        ensures
            e.wf(),
            e@.wf(),
            e@ == ExpansionState::start(texts(roots@)),
    {
        let mut sitemaps = UrlSet::new();
        let mut i: usize = 0;
        while i < roots.len()
            invariant
                i <= roots.len(),
                sitemaps.wf(),
                sitemaps@ == ExpansionState::enqueued(Seq::empty(), texts(roots@).take(i as int)),
            decreases roots.len() - i,
        {
            assert(texts(roots@).take(i + 1).drop_last() =~= texts(roots@).take(i as int));
            sitemaps.insert(roots[i].clone());
            i += 1;
        }
        assert(texts(roots@).take(i as int) =~= texts(roots@));
        let e = Expansion { sitemaps, next: 0, pages: UrlSet::new() };
        proof {
            e.lemma_wf();
        }
        e
    }

    /// Whether every sitemap met was handed out: whether the expansion is over.
    pub fn is_done(&self) -> (r: bool)
        requires
            self.wf(),
        ensures
            r == self@.is_done(),
    {
        self.next >= self.sitemaps.len()
    }

    /// Hands out the next sitemap to fetch, or `None` when the expansion is over.
    ///
    /// A sitemap that is handed out was never handed out before.
    pub fn next_sitemap(&mut self) -> (r: Option<String>)
        requires
            old(self).wf(),
        ensures
            final(self).wf(),
            final(self)@.wf(),
            match r {
                Some(url) => {
                    &&& !old(self)@.is_done()
                    &&& url@ == old(self)@.sitemaps[old(self)@.next as int]
                    &&& !old(self)@.visited().contains(url@)
                    &&& final(self)@ == old(self)@.handed()
                },
                None => old(self)@.is_done() && final(self)@ == old(self)@,
            },
    {
        if self.next < self.sitemaps.len() {
            let url = self.sitemaps.get(self.next).clone();
            proof {
                self.sitemaps.lemma_distinct();
                let st = self@;
                if st.visited().contains(url@) {
                    let k = choose|k: int| 0 <= k < st.visited().len() && st.visited()[k] == url@;
                    assert(st.sitemaps[k] == st.sitemaps[st.next as int]);
                }
            }
            self.next = self.next + 1;
            proof {
                self.lemma_wf();
            }
            Some(url)
        } else {
            proof {
                self.lemma_wf();
            }
            None
        }
    }

    /// Takes in the entries `locs` of a sitemap document, in document order.
    pub fn absorb(&mut self, locs: &Vec<String>)
        requires
            old(self).wf(),
        ensures
            final(self).wf(),
            final(self)@.wf(),
            final(self)@ == old(self)@.absorbed(texts(locs@)),
            old(self)@.pages.is_prefix_of(final(self)@.pages),
            old(self)@.sitemaps.is_prefix_of(final(self)@.sitemaps),
    {
        let mut i: usize = 0;
        while i < locs.len()
            invariant
                i <= locs.len(),
                self.wf(),
                self@ == old(self)@.absorbed(texts(locs@).take(i as int)),
            decreases locs.len() - i,
        {
            assert(texts(locs@).take(i + 1).drop_last() =~= texts(locs@).take(i as int));
            match classify(locs[i].clone()) {
                SitemapReference::Index(url) => {
                    self.sitemaps.insert(url);
                },
                SitemapReference::Page(url) => {
                    self.pages.insert(url);
                },
            }
            i += 1;
        }
        assert(texts(locs@).take(i as int) =~= texts(locs@));
        proof {
            self.lemma_wf();
            old(self).lemma_wf();
            lemma_absorbed(old(self)@, texts(locs@));
        }
    }

    /// Reads the sitemap document `doc` and takes in its entries. A document that
    /// cannot be read to its end leaves the expansion as it was.
    pub fn record(&mut self, doc: &str) -> (r: Result<(), SitemapError>)
        requires
            old(self).wf(),
        ensures
            final(self).wf(),
            final(self)@.wf(),
            match sitemap_locs_of(doc@) {
                Ok(locs) => r is Ok && final(self)@ == old(self)@.absorbed(locs),
                Err(e) => r == Err::<(), SitemapError>(e) && final(self)@ == old(self)@,
            },
            old(self)@.pages.is_prefix_of(final(self)@.pages),
            old(self)@.sitemaps.is_prefix_of(final(self)@.sitemaps),
    {
        match sitemap_locs(doc) {
            Ok(locs) => {
                self.absorb(&locs);
                Ok(())
            },
            Err(e) => {
                proof {
                    self.lemma_wf();
                    let st = self@;
                    assert(st.pages =~= st.pages.subrange(0, st.pages.len() as int));
                    assert(st.sitemaps =~= st.sitemaps.subrange(0, st.sitemaps.len() as int));
                }
                Err(e)
            },
        }
    }

    /// The pages met so far, in the order in which they were first met.
    pub fn pages(&self) -> (v: &Vec<String>)
        ensures
            texts(v@) == self@.pages,
    {
        self.pages.as_vec()
    }

    /// The pages met, in the order in which they were first met, the expansion
    /// given up.
    pub fn into_pages(self) -> (v: Vec<String>)
        ensures
            texts(v@) == self@.pages,
    {
        self.pages.into_vec()
    }
}

} // verus!
