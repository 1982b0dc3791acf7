//! What an expansion reaches.
//!
//! The sitemaps of a site refer to each other and to pages. This module takes such
//! a web of sitemaps as a map from each sitemap URL that can be fetched to the
//! entries of its document, runs an expansion over it in the abstract, and proves
//! what the run ends with: every page that some chain of sitemaps leads to from
//! the roots, once each, and nothing else; and that the run does end, cycles or
//! not, after no more rounds than the web has sitemap URLs.
use crate::expansion::{lemma_absorbed, lemma_enqueued, lemma_prefix_index, ExpansionState};
use crate::sitemap::is_index;
use vstd::prelude::*;
use vstd::set_lib::lemma_len_subset;

verus! {

/// A web of sitemaps: each sitemap URL that can be fetched and read, with the
/// entries of its document in document order. A URL that is no key cannot be
/// fetched.
pub type Web = Map<Seq<char>, Seq<Seq<char>>>;

/// Whether the document at `doc` can be fetched and lists `url`.
pub open spec fn lists(web: Web, doc: Seq<char>, url: Seq<char>) -> bool {
    web.dom().contains(doc) && web[doc].contains(url)
}

/// Whether `url` is a sitemap that `hops` references lead to from one of `roots`.
/// The roots are sitemaps whatever they end in; a URL listed in a document is one
/// where it ends in `.xml`.
pub open spec fn reaches(web: Web, roots: Seq<Seq<char>>, url: Seq<char>, hops: nat) -> bool
    decreases hops,
{
    if hops == 0 {
        roots.contains(url)
    } else {
        is_index(url) && exists|via: Seq<char>| #[trigger]
            lists(web, via, url) && reaches(web, roots, via, (hops - 1) as nat)
    }
}

/// Whether `url` is a sitemap that references lead to from one of `roots`.
pub open spec fn is_sitemap_of(web: Web, roots: Seq<Seq<char>>, url: Seq<char>) -> bool {
    exists|hops: nat| reaches(web, roots, url, hops)
}

/// Whether `page` is a page listed in a sitemap that references lead to from one
/// of `roots`.
pub open spec fn is_page_of(web: Web, roots: Seq<Seq<char>>, page: Seq<char>) -> bool {
    !is_index(page) && exists|doc: Seq<char>| #[trigger]
        lists(web, doc, page) && is_sitemap_of(web, roots, doc)
}

/// One round of an expansion that is not over: the next sitemap is handed out,
/// and the entries of its document, if it can be fetched, are taken in.
pub open spec fn step(web: Web, st: ExpansionState) -> ExpansionState {
    let url = st.sitemaps[st.next as int];
    if web.dom().contains(url) {
        st.handed().absorbed(web[url])
    } else {
        st.handed()
    }
}

/// The expansion after at most `rounds` rounds; it stops early when it is over.
pub open spec fn run(web: Web, st: ExpansionState, rounds: nat) -> ExpansionState
    decreases rounds,
{
    if rounds == 0 || st.is_done() {
        st
    } else {
        run(web, step(web, st), (rounds - 1) as nat)
    }
}

/// What holds of an expansion from `roots` over `web` at every round: it holds the
/// roots; what it holds is reached from them; and what the documents handed out
/// so far list, it holds.
spec fn explored(web: Web, roots: Seq<Seq<char>>, st: ExpansionState) -> bool {
    &&& st.wf()
    &&& forall|u: Seq<char>| roots.contains(u) ==> #[trigger] st.sitemaps.contains(u)
    &&& forall|u: Seq<char>| #[trigger] st.sitemaps.contains(u) ==> is_sitemap_of(web, roots, u)
    &&& forall|p: Seq<char>| #[trigger] st.pages.contains(p) ==> is_page_of(web, roots, p)
    &&& forall|k: int, loc: Seq<char>|
        0 <= k < st.next && #[trigger] lists(web, st.sitemaps[k], loc) ==> if is_index(loc) {
            st.sitemaps.contains(loc)
        } else {
            st.pages.contains(loc)
        }
}

/// An expansion that is about to start has explored what it holds.
proof fn lemma_start_explored(web: Web, roots: Seq<Seq<char>>)
    ensures
        explored(web, roots, ExpansionState::start(roots)),
{
    let st = ExpansionState::start(roots);
    lemma_enqueued(Seq::empty(), roots);
    assert forall|u: Seq<char>| #[trigger] st.sitemaps.contains(u) implies is_sitemap_of(
        web,
        roots,
        u,
    ) by {
        assert(reaches(web, roots, u, 0));
    }
}

/// A round keeps what holds of an expansion at every round.
proof fn lemma_step_explored(web: Web, roots: Seq<Seq<char>>, st: ExpansionState)
    requires
        explored(web, roots, st),
        !st.is_done(),
    ensures
        explored(web, roots, step(web, st)),
        step(web, st).next == st.next + 1,
        st.sitemaps.is_prefix_of(step(web, st).sitemaps),
{
    let url = st.sitemaps[st.next as int];
    let after = step(web, st);
    assert(st.sitemaps.contains(url));
    if web.dom().contains(url) {
        let locs = web[url];
        lemma_absorbed(st.handed(), locs);
        assert(is_sitemap_of(web, roots, url));
        let hops = choose|hops: nat| reaches(web, roots, url, hops);
        assert forall|u: Seq<char>| #[trigger] after.sitemaps.contains(u) implies is_sitemap_of(
            web,
            roots,
            u,
        ) by {
            if !st.sitemaps.contains(u) {
                assert(lists(web, url, u));
                assert(reaches(web, roots, u, hops + 1));
            }
        }
        assert forall|p: Seq<char>| #[trigger] after.pages.contains(p) implies is_page_of(
            web,
            roots,
            p,
        ) by {
            if !st.pages.contains(p) {
                assert(lists(web, url, p));
            }
        }
        assert forall|k: int, loc: Seq<char>|
            0 <= k < after.next && #[trigger] lists(web, after.sitemaps[k], loc) implies if is_index(
            loc,
        ) {
            after.sitemaps.contains(loc)
        } else {
            after.pages.contains(loc)
        } by {
            lemma_prefix_index(st.sitemaps, after.sitemaps, k);
            if k < st.next {
                assert(lists(web, st.sitemaps[k], loc));
            }
        }
    } else {
        assert(st.sitemaps =~= after.sitemaps.subrange(0, st.sitemaps.len() as int));
        assert forall|k: int, loc: Seq<char>|
            0 <= k < after.next && #[trigger] lists(web, after.sitemaps[k], loc) implies if is_index(
            loc,
        ) {
            after.sitemaps.contains(loc)
        } else {
            after.pages.contains(loc)
        } by {
            if k < st.next {
                assert(lists(web, st.sitemaps[k], loc));
            }
        }
    }
}

/// A run keeps what holds of an expansion at every round.
proof fn lemma_run_explored(web: Web, roots: Seq<Seq<char>>, st: ExpansionState, rounds: nat)
    requires
        explored(web, roots, st),
    ensures
        explored(web, roots, run(web, st, rounds)),
    decreases rounds,
{
    if rounds > 0 && !st.is_done() {
        lemma_step_explored(web, roots, st);
        lemma_run_explored(web, roots, step(web, st), (rounds - 1) as nat);
    }
}

/// An expansion that is over holds every sitemap that references lead to.
proof fn lemma_done_holds(
    web: Web,
    roots: Seq<Seq<char>>,
    st: ExpansionState,
    url: Seq<char>,
    hops: nat,
)
    requires
        explored(web, roots, st),
        st.is_done(),
        reaches(web, roots, url, hops),
    ensures
        st.sitemaps.contains(url),
    decreases hops,
{
    if hops > 0 {
        let via = choose|via: Seq<char>| #[trigger]
            lists(web, via, url) && reaches(web, roots, via, (hops - 1) as nat);
        lemma_done_holds(web, roots, st, via, (hops - 1) as nat);
        let k = choose|k: int| 0 <= k < st.sitemaps.len() && st.sitemaps[k] == via;
        assert(lists(web, st.sitemaps[k], url));
    }
}

/// The result of an expansion. When an expansion from `roots` over `web` is over,
/// its pages are the pages listed in the sitemaps that references lead to from the
/// roots, each held once, and its sitemaps are those sitemaps, each held once. The
/// web may be a tree or hold cycles.
pub proof fn theorem_expansion_result(web: Web, roots: Seq<Seq<char>>, rounds: nat)
    requires
        run(web, ExpansionState::start(roots), rounds).is_done(),
    ensures
        ({
            let end = run(web, ExpansionState::start(roots), rounds);
            &&& end.pages.no_duplicates()
            &&& end.sitemaps.no_duplicates()
            &&& forall|page: Seq<char>| #[trigger]
                end.pages.contains(page) <==> is_page_of(web, roots, page)
            &&& forall|url: Seq<char>| #[trigger]
                end.sitemaps.contains(url) <==> is_sitemap_of(web, roots, url)
        }),
{
    let end = run(web, ExpansionState::start(roots), rounds);
    lemma_start_explored(web, roots);
    lemma_run_explored(web, roots, ExpansionState::start(roots), rounds);
    assert forall|url: Seq<char>| is_sitemap_of(web, roots, url) implies #[trigger]
        end.sitemaps.contains(url) by {
        let hops = choose|hops: nat| reaches(web, roots, url, hops);
        lemma_done_holds(web, roots, end, url, hops);
    }
    assert forall|page: Seq<char>| is_page_of(web, roots, page) implies #[trigger]
        end.pages.contains(page) by {
        let doc = choose|doc: Seq<char>| #[trigger]
            lists(web, doc, page) && is_sitemap_of(web, roots, doc);
        assert(end.sitemaps.contains(doc));
        let k = choose|k: int| 0 <= k < end.sitemaps.len() && end.sitemaps[k] == doc;
        assert(lists(web, end.sitemaps[k], page));
    }
}

/// Whether `universe` holds the roots and every sitemap URL that a document of
/// `web` lists.
spec fn covers(universe: Set<Seq<char>>, web: Web, roots: Seq<Seq<char>>) -> bool {
    &&& forall|u: Seq<char>| #[trigger] roots.contains(u) ==> universe.contains(u)
    &&& forall|doc: Seq<char>, u: Seq<char>| #[trigger]
        lists(web, doc, u) && is_index(u) ==> universe.contains(u)
}

/// Whether every sitemap that `st` holds lies in `universe`.
spec fn within(st: ExpansionState, universe: Set<Seq<char>>) -> bool {
    forall|u: Seq<char>| #[trigger] st.sitemaps.contains(u) ==> universe.contains(u)
}

/// A list without duplicates, all of whose members lie in a finite set, is no
/// longer than the set is large.
proof fn lemma_bounded(list: Seq<Seq<char>>, universe: Set<Seq<char>>)
    requires
        list.no_duplicates(),
        universe.finite(),
        forall|u: Seq<char>| #[trigger] list.contains(u) ==> universe.contains(u),
    ensures
        list.len() <= universe.len(),
{
    list.unique_seq_to_set();
    assert(list.to_set().subset_of(universe));
    lemma_len_subset(list.to_set(), universe);
}

/// A run that has at least as many rounds as sitemap URLs are left in the
/// universe ends with the expansion over.
proof fn lemma_run_ends(
    web: Web,
    roots: Seq<Seq<char>>,
    st: ExpansionState,
    universe: Set<Seq<char>>,
    rounds: nat,
)
    requires
        universe.finite(),
        covers(universe, web, roots),
        st.wf(),
        within(st, universe),
        st.next + rounds >= universe.len(),
    ensures
        run(web, st, rounds).is_done(),
        run(web, st, rounds).wf(),
        st.visited().is_prefix_of(run(web, st, rounds).visited()),
    decreases rounds,
{
    lemma_bounded(st.sitemaps, universe);
    if rounds == 0 || st.is_done() {
        assert(st.visited() =~= st.visited().subrange(0, st.visited().len() as int));
    } else {
        let url = st.sitemaps[st.next as int];
        let after = step(web, st);
        if web.dom().contains(url) {
            lemma_absorbed(st.handed(), web[url]);
            assert forall|u: Seq<char>| #[trigger] after.sitemaps.contains(u) implies universe.contains(
                u,
            ) by {
                if !st.sitemaps.contains(u) {
                    assert(lists(web, url, u));
                }
            }
        } else {
            assert(st.sitemaps =~= after.sitemaps.subrange(0, st.sitemaps.len() as int));
        }
        lemma_run_ends(web, roots, after, universe, (rounds - 1) as nat);
        let end = run(web, st, rounds);
        assert forall|k: int| 0 <= k < st.visited().len() implies st.visited()[k]
            == end.visited()[k] by {
            lemma_prefix_index(st.sitemaps, after.sitemaps, k);
            lemma_prefix_index(after.visited(), end.visited(), k);
        }
        assert(after.visited().len() <= end.visited().len());
        assert(st.visited() =~= end.visited().subrange(0, st.visited().len() as int));
    }
}

/// The sitemap URLs of a web: the roots, and every URL ending in `.xml` that a
/// document lists.
pub open spec fn sitemap_urls(web: Web, roots: Seq<Seq<char>>) -> Set<Seq<char>> {
    Set::new(
        |u: Seq<char>|
            roots.contains(u) || (is_index(u) && exists|doc: Seq<char>| lists(web, doc, u)),
    )
}

/// Every entry of the documents of `web` at the keys `docs`.
spec fn entries(web: Web, docs: Set<Seq<char>>) -> Set<Seq<char>>
    decreases docs.len(),
    when docs.finite()
{
    if docs.len() == 0 {
        Set::empty()
    } else {
        let doc = docs.choose();
        web[doc].to_set().union(entries(web, docs.remove(doc)))
    }
}

/// Finitely many documents have finitely many entries.
proof fn lemma_entries(web: Web, docs: Set<Seq<char>>)
    requires
        docs.finite(),
    ensures
        entries(web, docs).finite(),
        forall|doc: Seq<char>, u: Seq<char>|
            docs.contains(doc) && #[trigger] web[doc].contains(u) ==> entries(web, docs).contains(
                u,
            ),
    decreases docs.len(),
{
    if docs.len() != 0 {
        let first = docs.choose();
        let rest = docs.remove(first);
        lemma_entries(web, rest);
        vstd::seq_lib::seq_to_set_is_finite(web[first]);
        assert forall|doc: Seq<char>, u: Seq<char>|
            docs.contains(doc) && #[trigger] web[doc].contains(u) implies entries(
            web,
            docs,
        ).contains(u) by {
            if doc == first {
                assert(web[first].to_set().contains(u));
            } else {
                assert(rest.contains(doc));
            }
        }
    }
}

/// A web of finitely many documents has finitely many sitemap URLs.
pub proof fn lemma_sitemap_urls_finite(web: Web, roots: Seq<Seq<char>>)
    requires
        web.dom().finite(),
    ensures
        sitemap_urls(web, roots).finite(),
{
    let all = roots.to_set().union(entries(web, web.dom()));
    lemma_entries(web, web.dom());
    vstd::seq_lib::seq_to_set_is_finite(roots);
    assert forall|u: Seq<char>| sitemap_urls(web, roots).contains(u) implies all.contains(u) by {
        if !roots.contains(u) {
            let doc = choose|doc: Seq<char>| lists(web, doc, u);
            assert(web[doc].contains(u));
        }
    }
    lemma_len_subset(sitemap_urls(web, roots), all);
}

/// The end of an expansion. Over a web of finitely many documents, an expansion
/// from `roots` is over after as many rounds as the web has sitemap URLs, whether
/// or not sitemaps refer back to sitemaps that refer to them; and in all that time
/// no sitemap was handed out twice.
pub proof fn theorem_expansion_ends(web: Web, roots: Seq<Seq<char>>)
    requires
        web.dom().finite(),
    ensures
        run(web, ExpansionState::start(roots), sitemap_urls(web, roots).len()).is_done(),
        run(
            web,
            ExpansionState::start(roots),
            sitemap_urls(web, roots).len(),
        ).visited().no_duplicates(),
{
    let universe = sitemap_urls(web, roots);
    let st = ExpansionState::start(roots);
    lemma_sitemap_urls_finite(web, roots);
    lemma_enqueued(Seq::empty(), roots);
    lemma_run_ends(web, roots, st, universe, universe.len());
    let end = run(web, st, universe.len());
    assert(end.visited() =~= end.sitemaps);
}

/// An expansion over a finite web. Over a web of finitely many documents, as a
/// tree or with cycles, an expansion from `roots` is over after as many rounds as
/// the web has sitemap URLs, and it then holds the pages listed in the sitemaps
/// that references lead to from the roots, each once, and no other.
pub proof fn theorem_expansion(web: Web, roots: Seq<Seq<char>>)
    requires
        web.dom().finite(),
    ensures
        ({
            let end = run(web, ExpansionState::start(roots), sitemap_urls(web, roots).len());
            &&& end.is_done()
            &&& end.pages.no_duplicates()
            &&& forall|page: Seq<char>| #[trigger]
                end.pages.contains(page) <==> is_page_of(web, roots, page)
        }),
{
    theorem_expansion_ends(web, roots);
    theorem_expansion_result(web, roots, sitemap_urls(web, roots).len());
}

} // verus!
