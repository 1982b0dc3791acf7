//! The sitemap directives of a `robots.txt`.
use crate::text::{
    chars_of, lead, range_strip_prefix, scan_forward, starts_with_ignoring_case, string_of_range,
    texts, trim, trim_range, CharSet,
};
use vstd::prelude::*;

verus! {

/// The URL that a line of `robots.txt` declares as a sitemap, if it declares one.
///
/// A line declares a sitemap where, after any white space at its start, it begins
/// with `sitemap:` in letters of either case. The URL is the rest of the line
/// without the white space around it.
pub open spec fn sitemap_directive(line: Seq<char>) -> Option<Seq<char>> {
    let body = line.skip(lead(line, CharSet::Space) as int);
    if starts_with_ignoring_case(body, "sitemap:"@) {
        Some(trim(body.skip("sitemap:"@.len() as int)))
    } else {
        None
    }
}

/// The URL that `line` declares, as a list of one, or no URL.
pub open spec fn declared(line: Seq<char>) -> Seq<Seq<char>> {
    match sitemap_directive(line) {
        Some(url) => seq![url],
        None => Seq::empty(),
    }
}

/// The sitemap URLs that a `robots.txt` declares, in the order of its lines. The
/// lines are what stands between line feeds.
pub open spec fn robots_sitemaps(content: Seq<char>) -> Seq<Seq<char>>
    decreases content.len(),
{
    let n = lead(content, CharSet::Except('\n'));
    if n >= content.len() {
        declared(content)
    } else {
        declared(content.take(n as int)) + robots_sitemaps(content.skip(n + 1 as int))
    }
}

/// The directives of a text whose first line ends at `end`.
proof fn lemma_robots_line(v: Seq<char>, i: int, end: int)
    requires
        0 <= i <= end <= v.len(),
        end - i == lead(v.subrange(i, v.len() as int), CharSet::Except('\n')),
    ensures
        robots_sitemaps(v.skip(i)) == declared(v.subrange(i, end)) + robots_sitemaps(
            v.skip(
                if end < v.len() {
                    end + 1
                } else {
                    v.len() as int
                },
            ),
        ),
{
    let s = v.skip(i);
    assert(v.subrange(i, v.len() as int) =~= s);
    if end < v.len() {
        assert(s.take(end - i) =~= v.subrange(i, end));
        assert(s.skip(end - i + 1) =~= v.skip(end + 1));
    } else {
        assert(v.subrange(i, end) =~= s);
        lemma_robots_end();
        assert(v.skip(v.len() as int) =~= Seq::<char>::empty());
        assert(declared(s) + Seq::<Seq<char>>::empty() =~= declared(s));
    }
}

/// An empty text declares nothing.
proof fn lemma_robots_end()
    ensures
        robots_sitemaps(Seq::<char>::empty()) == Seq::<Seq<char>>::empty(),
{
    reveal_strlit("sitemap:");
}

/// Appends to `out` the URL that the line `v[from..to]` declares, if it declares
/// one.
fn push_declared(out: &mut Vec<String>, v: &Vec<char>, from: usize, to: usize)
    requires
        from <= to <= v.len(),
    ensures
        texts(final(out)@) == texts(old(out)@) + declared(v@.subrange(from as int, to as int)),
{
    let ghost line = v@.subrange(from as int, to as int);
    let start = scan_forward(v, from, to, CharSet::Space);
    assert(line.skip(start - from) =~= v@.subrange(start as int, to as int));
    match range_strip_prefix(v, start, to, "sitemap:") {
        Some(rest) => {
            assert(v@.subrange(start as int, to as int).skip(rest - start) =~= v@.subrange(
                rest as int,
                to as int,
            ));
            let (a, b) = trim_range(v, rest, to);
            let url = string_of_range(v, a, b);
            out.push(url);
            assert(texts(out@) =~= texts(old(out)@) + declared(line));
        },
        None => {
            assert(texts(out@) =~= texts(old(out)@) + declared(line));
        },
    }
}

/// Reads the sitemap URLs that the `robots.txt` text `content` declares, in the
/// order of the lines that declare them. Every other line is passed over.
pub fn parse_robots_txt(content: &str) -> (sitemaps: Vec<String>)
    ensures
        texts(sitemaps@) == robots_sitemaps(content@),
{
    let v = chars_of(content);
    let n = v.len();
    let mut sitemaps: Vec<String> = Vec::new();
    let mut i: usize = 0;
    assert(v@.skip(0) =~= v@);
    assert(texts(sitemaps@) + robots_sitemaps(v@) =~= robots_sitemaps(v@));
    while i < n
        invariant
            i <= n == v.len(),
            texts(sitemaps@) + robots_sitemaps(v@.skip(i as int)) == robots_sitemaps(v@),
        decreases n - i,
    {
        let ghost before = texts(sitemaps@);
        let end = scan_forward(&v, i, n, CharSet::Except('\n'));
        push_declared(&mut sitemaps, &v, i, end);
        let stop = if end < n {
            end + 1
        } else {
            n
        };
        proof {
            lemma_robots_line(v@, i as int, end as int);
            let here = declared(v@.subrange(i as int, end as int));
            let tail = robots_sitemaps(v@.skip(stop as int));
            assert((before + here) + tail =~= before + (here + tail));
        }
        i = stop;
    }
    proof {
        lemma_robots_end();
        assert(v@.skip(n as int) =~= Seq::<char>::empty());
        assert(texts(sitemaps@) + Seq::<Seq<char>>::empty() =~= texts(sitemaps@));
    }
    sitemaps
}

} // verus!
