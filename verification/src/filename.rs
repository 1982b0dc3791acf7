//! The name of the file that a page's Markdown is stored under.
use crate::text::{chars_of, lead, push_range, scan_backward, scan_forward, trail, CharSet};
use vstd::prelude::*;
use vstd::string::StringExecFns;

verus! {

/// Where the authority of `url` starts: after `://` where the first `/` of the URL
/// stands in one, else at the start.
pub open spec fn authority_start(url: Seq<char>) -> nat {
    let k = lead(url, CharSet::Except('/')) as int;
    if 0 < k && k + 1 < url.len() && url[k - 1] == ':' && url[k + 1] == '/' {
        (k + 2) as nat
    } else {
        0
    }
}

/// The path of `url`: what stands from the first `/` after the authority on, or
/// nothing where no `/` follows the authority.
pub open spec fn url_path(url: Seq<char>) -> Seq<char> {
    let rest = url.skip(authority_start(url) as int);
    rest.skip(lead(rest, CharSet::Except('/')) as int)
}

/// The last segment of `path` that is not empty, or nothing where it has none:
/// what stands after the last `/` once the `/` at the end are taken off.
pub open spec fn last_segment(path: Seq<char>) -> Seq<char> {
    let cut = path.take(path.len() - trail(path, CharSet::Only('/')));
    cut.skip(cut.len() - trail(cut, CharSet::Except('/')))
}

/// The file name for the page at `url`: the last segment of its path that is not
/// empty, or `index` where the path has none, followed by `.md`.
pub open spec fn file_name_of(url: Seq<char>) -> Seq<char> {
    let stem = last_segment(url_path(url));
    if stem.len() == 0 {
        "index"@ + ".md"@
    } else {
        stem + ".md"@
    }
}

/// Names the file that the Markdown of the page at `url` is stored under.
///
/// Two URLs whose paths end in the same segment get the same name.
pub fn markdown_file_name(url: &str) -> (name: String)
    ensures
        name@ == file_name_of(url@),
{
    let v = chars_of(url);
    let n = v.len();
    assert(v@.subrange(0, n as int) =~= v@);
    let slash = scan_forward(&v, 0, n, CharSet::Except('/'));
    let start = if 0 < slash && n - slash > 1 && v[slash - 1] == ':' && v[slash + 1] == '/' {
        slash + 2
    } else {
        0
    };
    let ghost rest = v@.skip(start as int);
    assert(v@.subrange(start as int, n as int) =~= rest);
    let path = scan_forward(&v, start, n, CharSet::Except('/'));
    assert(v@.subrange(path as int, n as int) =~= url_path(v@));
    let cut = scan_backward(&v, path, n, CharSet::Only('/'));
    assert(v@.subrange(path as int, cut as int) =~= url_path(v@).take(cut - path));
    let seg = scan_backward(&v, path, cut, CharSet::Except('/'));
    assert(v@.subrange(seg as int, cut as int) =~= last_segment(url_path(v@)));
    let mut name = String::new();
    if seg == cut {
        name.append("index");
    } else {
        push_range(&mut name, &v, seg, cut);
    }
    name.append(".md");
    assert(name@ =~= file_name_of(v@));
    name
}

} // verus!
