//! Conversion of one page's markup into Markdown.
//!
//! The converter reads the markup once, from left to right. It keeps a single tag
//! context, the recognised tag that was opened last and not yet left, and no stack:
//! a recognised tag inside another replaces it. Text is written out whenever a `<`
//! or the end of the input is met, in the form that the context at that moment asks
//! for.
use crate::text::{
    chars_of, lead, lemma_lead_resume, push_range, range_is, scan_forward, trim, trim_range,
    CharSet,
};
use vstd::prelude::*;
use vstd::string::StringExecFns;

verus! {

/// The tags that give their text a form of its own.
#[derive(Clone, Copy, Debug, PartialEq, Eq)]
pub enum TagKind {
    H1,
    H2,
    P,
    Li,
    A,
    Img,
    Strong,
    Em,
    Blockquote,
}

/// The one tag that the converter is inside of, if any.
#[derive(Clone, Copy, Debug, PartialEq, Eq)]
pub enum TagContext {
    /// Outside every recognised tag.
    Untagged,
    /// Inside the recognised tag that was opened last.
    Open(TagKind),
}

/// The Markdown for a run of `text` met in context `ctx`: nothing where the text is
/// white space only, else the trimmed text in the form of the context.
pub open spec fn flush(ctx: TagContext, text: Seq<char>) -> Seq<char> {
    let c = trim(text);
    if c.len() == 0 {
        Seq::empty()
    } else {
        match ctx {
            TagContext::Untagged => c + "\n"@,
            TagContext::Open(TagKind::H1) => "# "@ + c + "\n\n"@,
            TagContext::Open(TagKind::H2) => "## "@ + c + "\n\n"@,
            TagContext::Open(TagKind::P) => c + "\n\n"@,
            TagContext::Open(TagKind::Li) => "- "@ + c + "\n"@,
            TagContext::Open(TagKind::A) => "["@ + c + "]("@ + c + ")"@,
            TagContext::Open(TagKind::Img) => "![Image]("@ + c + ")\n"@,
            TagContext::Open(TagKind::Strong) => "**"@ + c + "**"@,
            TagContext::Open(TagKind::Em) => "*"@ + c + "*"@,
            TagContext::Open(TagKind::Blockquote) => "> "@ + c + "\n\n"@,
        }
    }
}

/// Whether a tag name is that of a closing tag.
pub open spec fn is_closing(name: Seq<char>) -> bool {
    name.len() > 0 && name[0] == '/'
}

/// The recognised tag that `name` names, if it names one.
pub open spec fn tag_kind(name: Seq<char>) -> Option<TagKind> {
    if name == "h1"@ {
        Some(TagKind::H1)
    } else if name == "h2"@ {
        Some(TagKind::H2)
    } else if name == "p"@ {
        Some(TagKind::P)
    } else if name == "li"@ {
        Some(TagKind::Li)
    } else if name == "a"@ {
        Some(TagKind::A)
    } else if name == "img"@ {
        Some(TagKind::Img)
    } else if name == "strong"@ {
        Some(TagKind::Strong)
    } else if name == "em"@ {
        Some(TagKind::Em)
    } else if name == "blockquote"@ {
        Some(TagKind::Blockquote)
    } else {
        None
    }
}

/// Whether `name` is one of the tags that write a line end where they stand.
pub open spec fn is_break(name: Seq<char>) -> bool {
    name == "br"@ || name == "ul"@ || name == "ol"@
}

/// What a tag itself writes: a line end for `br`, `ul` and `ol`, else nothing.
pub open spec fn tag_output(name: Seq<char>) -> Seq<char> {
    if !is_closing(name) && tag_kind(name) is None && is_break(name) {
        "\n"@
    } else {
        Seq::empty()
    }
}

/// The context after a tag named `name` was met in context `ctx`.
pub open spec fn next_context(ctx: TagContext, name: Seq<char>) -> TagContext {
    if is_closing(name) {
        TagContext::Untagged
    } else {
        match tag_kind(name) {
            Some(kind) => TagContext::Open(kind),
            None => if is_break(name) {
                ctx
            } else {
                TagContext::Untagged
            },
        }
    }
}

/// The Markdown for the markup `s` when it is entered in context `ctx`.
///
/// The text before the first `<` is flushed in `ctx`. The tag's name runs from after
/// the `<` to the first blank or `>`; the tag ends with the first `>`, or with the
/// input where none follows. The rest is converted in the context that the tag leaves.
#[verifier::opaque]
pub open spec fn convert(s: Seq<char>, ctx: TagContext) -> Seq<char>
    decreases s.len(),
{
    let n = lead(s, CharSet::Except('<'));
    if n >= s.len() {
        flush(ctx, s)
    } else {
        let tag = s.skip(n + 1 as int);
        let name = tag.take(lead(tag, CharSet::ExceptBoth(' ', '>')) as int);
        let inner = lead(tag, CharSet::Except('>'));
        let rest = if inner < tag.len() {
            tag.skip(inner + 1 as int)
        } else {
            Seq::empty()
        };
        flush(ctx, s.take(n as int)) + tag_output(name) + convert(rest, next_context(ctx, name))
    }
}

/// The Markdown for a whole page of markup.
pub open spec fn markdown_of(html: Seq<char>) -> Seq<char> {
    convert(html, TagContext::Untagged)
}

/// Two conversions of the same markup give the same Markdown: what
/// `html_to_markdown` returns depends on the text it is given and on nothing else.
pub proof fn lemma_conversion_repeats(first: Seq<char>, second: Seq<char>, a: String, b: String)
    requires
        first == second,
        a@ == markdown_of(first),
        b@ == markdown_of(second),
    ensures
        a@ == b@,
{
}

/// Converting nothing, or white space alone, gives nothing.
pub proof fn lemma_blank_page(html: Seq<char>)
    requires
        forall|i: int| 0 <= i < html.len() ==> crate::text::is_space(#[trigger] html[i]),
    ensures
        markdown_of(html) == Seq::<char>::empty(),
{
    reveal(convert);
    crate::text::lemma_lead(html, CharSet::Except('<'));
    crate::text::lemma_lead(html, CharSet::Space);
    let n = lead(html, CharSet::Except('<'));
    if n < html.len() {
        assert(html[n as int] == '<');
        assert(crate::text::is_space(html[n as int]));
    }
}

/// Appends to `out` what the text `v[from..to]` turns into in context `ctx`.
fn flush_into(out: &mut String, ctx: TagContext, v: &Vec<char>, from: usize, to: usize)
    requires
        from <= to <= v.len(),
    ensures
        final(out)@ == old(out)@ + flush(ctx, v@.subrange(from as int, to as int)),
{
    let (a, b) = trim_range(v, from, to);
    let ghost c = v@.subrange(a as int, b as int);
    if a < b {
        match ctx {
            TagContext::Untagged => {
                push_range(out, v, a, b);
                out.append("\n");
            },
            TagContext::Open(TagKind::H1) => {
                out.append("# ");
                push_range(out, v, a, b);
                out.append("\n\n");
            },
            TagContext::Open(TagKind::H2) => {
                out.append("## ");
                push_range(out, v, a, b);
                out.append("\n\n");
            },
            TagContext::Open(TagKind::P) => {
                push_range(out, v, a, b);
                out.append("\n\n");
            },
            TagContext::Open(TagKind::Li) => {
                out.append("- ");
                push_range(out, v, a, b);
                out.append("\n");
            },
            TagContext::Open(TagKind::A) => {
                out.append("[");
                push_range(out, v, a, b);
                out.append("](");
                push_range(out, v, a, b);
                out.append(")");
            },
            TagContext::Open(TagKind::Img) => {
                out.append("![Image](");
                push_range(out, v, a, b);
                out.append(")\n");
            },
            TagContext::Open(TagKind::Strong) => {
                out.append("**");
                push_range(out, v, a, b);
                out.append("**");
            },
            TagContext::Open(TagKind::Em) => {
                out.append("*");
                push_range(out, v, a, b);
                out.append("*");
            },
            TagContext::Open(TagKind::Blockquote) => {
                out.append("> ");
                push_range(out, v, a, b);
                out.append("\n\n");
            },
        }
    }
    assert(out@ =~= old(out)@ + flush(ctx, v@.subrange(from as int, to as int)));
}

/// The recognised tag that `v[from..to]` names, if it names one.
fn tag_kind_of(v: &Vec<char>, from: usize, to: usize) -> (kind: Option<TagKind>)
    requires
        from <= to <= v.len(),
    ensures
        kind == tag_kind(v@.subrange(from as int, to as int)),
{
    if range_is(v, from, to, "h1") {
        Some(TagKind::H1)
    } else if range_is(v, from, to, "h2") {
        Some(TagKind::H2)
    } else if range_is(v, from, to, "p") {
        Some(TagKind::P)
    } else if range_is(v, from, to, "li") {
        Some(TagKind::Li)
    } else if range_is(v, from, to, "a") {
        Some(TagKind::A)
    } else if range_is(v, from, to, "img") {
        Some(TagKind::Img)
    } else if range_is(v, from, to, "strong") {
        Some(TagKind::Strong)
    } else if range_is(v, from, to, "em") {
        Some(TagKind::Em)
    } else if range_is(v, from, to, "blockquote") {
        Some(TagKind::Blockquote)
    } else {
        None
    }
}

/// Handles the tag whose name is `v[from..to]`: writes to `out` what the tag itself
/// writes and returns the context that it leaves.
fn enter_tag(out: &mut String, ctx: TagContext, v: &Vec<char>, from: usize, to: usize) -> (next:
    TagContext)
    requires
        from <= to <= v.len(),
    ensures
        final(out)@ == old(out)@ + tag_output(v@.subrange(from as int, to as int)),
        next == next_context(ctx, v@.subrange(from as int, to as int)),
{
    let ghost name = v@.subrange(from as int, to as int);
    assert(old(out)@ + Seq::<char>::empty() =~= old(out)@);
    if from < to && v[from] == '/' {
        assert(name[0] == v@[from as int]);
        return TagContext::Untagged;
    }
    assert(!is_closing(name)) by {
        if from < to {
            assert(name[0] == v@[from as int]);
        }
    }
    match tag_kind_of(v, from, to) {
        Some(kind) => TagContext::Open(kind),
        None => {
            if range_is(v, from, to, "br") || range_is(v, from, to, "ul") || range_is(
                v,
                from,
                to,
                "ol",
            ) {
                out.append("\n");
                ctx
            } else {
                TagContext::Untagged
            }
        },
    }
}

/// The conversion of markup that holds no further tag: its text is flushed.
proof fn lemma_convert_text(v: Seq<char>, i: int, ctx: TagContext)
    requires
        0 <= i <= v.len(),
        lead(v.subrange(i, v.len() as int), CharSet::Except('<')) == v.len() - i,
    ensures
        convert(v.skip(i), ctx) == flush(ctx, v.subrange(i, v.len() as int)),
{
    reveal(convert);
    assert(v.subrange(i, v.len() as int) =~= v.skip(i));
}

/// The conversion of markup whose next tag starts at `lt`, has its name end at
/// `name_end` and its `>`, if it has one, at `close`.
proof fn lemma_convert_tag(
    v: Seq<char>,
    i: int,
    lt: int,
    name_end: int,
    close: int,
    ctx: TagContext,
)
    requires
        0 <= i <= lt < v.len(),
        lt + 1 <= name_end <= close <= v.len(),
        lt - i == lead(v.subrange(i, v.len() as int), CharSet::Except('<')),
        name_end - (lt + 1) == lead(
            v.subrange(lt + 1, v.len() as int),
            CharSet::ExceptBoth(' ', '>'),
        ),
        close - name_end == lead(v.subrange(name_end, v.len() as int), CharSet::Except('>')),
    ensures
        convert(v.skip(i), ctx) == flush(ctx, v.subrange(i, lt)) + tag_output(
            v.subrange(lt + 1, name_end),
        ) + convert(
            v.skip(
                if close < v.len() {
                    close + 1
                } else {
                    v.len() as int
                },
            ),
            next_context(ctx, v.subrange(lt + 1, name_end)),
        ),
{
    reveal(convert);
    let n = v.len() as int;
    let s = v.skip(i);
    assert(v.subrange(i, n) =~= s);
    let tag = s.skip(lt - i + 1);
    assert(tag =~= v.subrange(lt + 1, n));
    lemma_lead_resume(tag, CharSet::ExceptBoth(' ', '>'), CharSet::Except('>'));
    assert(tag.skip(name_end - lt - 1) =~= v.subrange(name_end, n));
    assert(lead(tag, CharSet::Except('>')) == close - lt - 1);
    assert(tag.take(name_end - lt - 1) =~= v.subrange(lt + 1, name_end));
    assert(s.take(lt - i) =~= v.subrange(i, lt));
    if close < n {
        assert(tag.skip(close - lt) =~= v.skip(close + 1));
    } else {
        assert(v.skip(n) =~= Seq::<char>::empty());
    }
}

/// The conversion of no markup at all is empty.
proof fn lemma_convert_end(ctx: TagContext)
    ensures
        convert(Seq::<char>::empty(), ctx) == Seq::<char>::empty(),
{
    reveal(convert);
    assert(trim(Seq::<char>::empty()).len() == 0);
}

/// Markdown written so far stays in front of what is written next.
proof fn lemma_written(
    before: Seq<char>,
    text: Seq<char>,
    own: Seq<char>,
    tail: Seq<char>,
)
    ensures
        (before + text + own) + tail == before + (text + own + tail),
        before + text + Seq::<char>::empty() == before + text,
{
    assert((before + text + own) + tail =~= before + (text + own + tail));
    assert(before + text + Seq::<char>::empty() =~= before + text);
}

/// Converts the markup from `v[from]` up to and including the next tag, or up to
/// the end where no tag follows. Returns where the conversion goes on, and in which
/// context.
fn convert_step(md: &mut String, ctx: TagContext, v: &Vec<char>, from: usize) -> (r: (
    usize,
    TagContext,
))
    requires
        from < v.len(),
    ensures
        from < r.0 <= v.len(),
        final(md)@ + convert(v@.skip(r.0 as int), r.1) == old(md)@ + convert(
            v@.skip(from as int),
            ctx,
        ),
{
    let n = v.len();
    let lt = scan_forward(v, from, n, CharSet::Except('<'));
    flush_into(md, ctx, v, from, lt);
    if lt >= n {
        proof {
            lemma_convert_text(v@, from as int, ctx);
            lemma_convert_end(ctx);
            assert(v@.skip(n as int) =~= Seq::<char>::empty());
            lemma_written(
                old(md)@,
                flush(ctx, v@.subrange(from as int, n as int)),
                Seq::empty(),
                Seq::empty(),
            );
        }
        (n, ctx)
    } else {
        let name_end = scan_forward(v, lt + 1, n, CharSet::ExceptBoth(' ', '>'));
        let close = scan_forward(v, name_end, n, CharSet::Except('>'));
        let next = enter_tag(md, ctx, v, lt + 1, name_end);
        let stop = if close < n {
            close + 1
        } else {
            n
        };
        proof {
            lemma_convert_tag(v@, from as int, lt as int, name_end as int, close as int, ctx);
            lemma_written(
                old(md)@,
                flush(ctx, v@.subrange(from as int, lt as int)),
                tag_output(v@.subrange(lt + 1, name_end as int)),
                convert(v@.skip(stop as int), next),
            );
        }
        (stop, next)
    }
}

/// Converts one page's markup into Markdown.
///
/// The conversion never fails: markup that is cut off or not well formed is read as
/// far as the rules above give it a meaning.
pub fn html_to_markdown(html: &str) -> (md: String)
    ensures
        md@ == markdown_of(html@),
{
    let v = chars_of(html);
    let n = v.len();
    let mut md = String::new();
    let mut ctx = TagContext::Untagged;
    let mut i: usize = 0;
    proof {
        assert(v@.skip(0) =~= v@);
        lemma_written(md@, convert(v@, ctx), Seq::empty(), Seq::empty());
        assert(md@ + convert(v@, ctx) =~= convert(v@, ctx));
    }
    while i < n
        invariant
            i <= n == v.len(),
            md@ + convert(v@.skip(i as int), ctx) == markdown_of(v@),
        decreases n - i,
    {
        let (stop, next) = convert_step(&mut md, ctx, &v, i);
        i = stop;
        ctx = next;
    }
    proof {
        lemma_convert_end(ctx);
        assert(v@.skip(n as int) =~= Seq::<char>::empty());
        assert(md@ + Seq::<char>::empty() =~= md@);
    }
    md
}

} // verus!
