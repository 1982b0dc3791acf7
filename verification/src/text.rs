//! Character sets, runs of characters at either end of a text, and trimming.
use vstd::prelude::*;

verus! {

/// A set of characters that a scan can be asked to stay within.
#[derive(Clone, Copy, Debug)]
pub enum CharSet {
    /// The characters with the Unicode property `White_Space`.
    Space,
    /// One character alone.
    Only(char),
    /// Every character but one.
    Except(char),
    /// Every character but two.
    ExceptBoth(char, char),
}

/// Whether `c` has the Unicode property `White_Space`.
pub open spec fn is_space(c: char) -> bool {
    ||| '\u{9}' <= c <= '\u{d}'
    ||| c == ' '
    ||| c == '\u{85}'
    ||| c == '\u{a0}'
    ||| c == '\u{1680}'
    ||| '\u{2000}' <= c <= '\u{200a}'
    ||| c == '\u{2028}'
    ||| c == '\u{2029}'
    ||| c == '\u{202f}'
    ||| c == '\u{205f}'
    ||| c == '\u{3000}'
}

impl CharSet {
    /// Membership of `c` in the set.
    pub open spec fn has(self, c: char) -> bool {
        match self {
            CharSet::Space => is_space(c),
            CharSet::Only(a) => c == a,
            CharSet::Except(a) => c != a,
            CharSet::ExceptBoth(a, b) => c != a && c != b,
        }
    }

    /// Tests membership of `c` in the set.
    pub fn contains(&self, c: char) -> (r: bool)
        ensures
            r == self.has(c),
    {
        match *self {
            CharSet::Space => {
                ('\u{9}' <= c && c <= '\u{d}') || c == ' ' || c == '\u{85}' || c == '\u{a0}'
                    || c == '\u{1680}' || ('\u{2000}' <= c && c <= '\u{200a}') || c == '\u{2028}'
                    || c == '\u{2029}' || c == '\u{202f}' || c == '\u{205f}' || c == '\u{3000}'
            },
            CharSet::Only(a) => c == a,
            CharSet::Except(a) => c != a,
            CharSet::ExceptBoth(a, b) => c != a && c != b,
        }
    }
}

/// Length of the longest prefix of `s` whose characters all lie in `set`.
pub open spec fn lead(s: Seq<char>, set: CharSet) -> nat
    decreases s.len(),
{
    if s.len() > 0 && set.has(s[0]) {
        1 + lead(s.skip(1), set)
    } else {
        0
    }
}

/// Length of the longest suffix of `s` whose characters all lie in `set`.
pub open spec fn trail(s: Seq<char>, set: CharSet) -> nat
    decreases s.len(),
{
    if s.len() > 0 && set.has(s.last()) {
        1 + trail(s.drop_last(), set)
    } else {
        0
    }
}

/// `s` without its leading and trailing white space.
pub open spec fn trim(s: Seq<char>) -> Seq<char> {
    let body = s.skip(lead(s, CharSet::Space) as int);
    body.take(body.len() - trail(body, CharSet::Space))
}

/// Whether `c` is the letter `lower`, in lower or in upper case; for a `lower`
/// that is no letter of `a` to `z`, whether `c` is `lower`.
pub open spec fn same_letter(c: char, lower: char) -> bool {
    c == lower || ('a' <= lower <= 'z' && c as u32 == lower as u32 - 32)
}

/// Whether `s` starts with `word`, letters of either case taken for the same.
/// `word` is given in lower case.
pub open spec fn starts_with_ignoring_case(s: Seq<char>, word: Seq<char>) -> bool {
    word.len() <= s.len() && forall|i: int|
        0 <= i < word.len() ==> same_letter(#[trigger] s[i], word[i])
}

/// The texts held by a vector of strings, in order.
pub open spec fn texts(v: Seq<String>) -> Seq<Seq<char>> {
    Seq::new(v.len(), |i: int| v[i]@)
}

/// `lead` stays within the text, everything before it lies in the set, and the
/// character at it, if there is one, does not.
pub proof fn lemma_lead(s: Seq<char>, set: CharSet)
    ensures
        lead(s, set) <= s.len(),
        forall|i: int| 0 <= i < lead(s, set) ==> set.has(#[trigger] s[i]),
        lead(s, set) < s.len() ==> !set.has(s[lead(s, set) as int]),
    decreases s.len(),
{
    if s.len() > 0 && set.has(s[0]) {
        let rest = s.skip(1);
        lemma_lead(rest, set);
        assert forall|i: int| 0 <= i < lead(s, set) implies set.has(#[trigger] s[i]) by {
            if i > 0 {
                assert(s[i] == rest[i - 1]);
            }
        }
        if lead(s, set) < s.len() {
            assert(s[lead(s, set) as int] == rest[lead(rest, set) as int]);
        }
    }
}

/// `trail` stays within the text, everything in the suffix it measures lies in the
/// set, and the character just before that suffix, if there is one, does not.
pub proof fn lemma_trail(s: Seq<char>, set: CharSet)
    ensures
        trail(s, set) <= s.len(),
        forall|i: int| s.len() - trail(s, set) <= i < s.len() ==> set.has(#[trigger] s[i]),
        trail(s, set) < s.len() ==> !set.has(s[s.len() - trail(s, set) - 1]),
    decreases s.len(),
{
    if s.len() > 0 && set.has(s.last()) {
        let rest = s.drop_last();
        lemma_trail(rest, set);
        assert forall|i: int| s.len() - trail(s, set) <= i < s.len() implies set.has(
            #[trigger] s[i],
        ) by {
            if i < s.len() - 1 {
                assert(s[i] == rest[i]);
            }
        }
        if trail(s, set) < s.len() {
            assert(s[s.len() - trail(s, set) - 1] == rest[rest.len() - trail(rest, set) - 1]);
        }
    }
}

/// A scan that stopped may be resumed where it stopped with a wider set: the two
/// runs together are the run of the wider set.
pub proof fn lemma_lead_resume(s: Seq<char>, inner: CharSet, outer: CharSet)
    requires
        forall|c: char| #[trigger] inner.has(c) ==> outer.has(c),
    ensures
        lead(s, inner) <= s.len(),
        lead(s, outer) == lead(s, inner) + lead(s.skip(lead(s, inner) as int), outer),
    decreases s.len(),
{
    lemma_lead(s, inner);
    if s.len() > 0 && inner.has(s[0]) {
        let rest = s.skip(1);
        lemma_lead_resume(rest, inner, outer);
        assert(rest.skip(lead(rest, inner) as int) =~= s.skip(lead(s, inner) as int));
    } else {
        assert(s.skip(0) =~= s);
    }
}

/// A trimmed text neither starts nor ends with white space.
pub proof fn lemma_trim(s: Seq<char>)
    ensures
        trim(s).len() <= s.len(),
        trim(s).len() > 0 ==> !is_space(trim(s)[0]) && !is_space(trim(s).last()),
{
    let body = s.skip(lead(s, CharSet::Space) as int);
    lemma_lead(s, CharSet::Space);
    lemma_trail(body, CharSet::Space);
    if trim(s).len() > 0 {
        assert(trim(s)[0] == s[lead(s, CharSet::Space) as int]);
        assert(trim(s).last() == body[body.len() - trail(body, CharSet::Space) - 1]);
    }
}

/// `String::push` of the standard library: the string's text grows by the one
/// character `c` at its end, and nothing else of it changes.
pub assume_specification[ String::push ](s: &mut String, c: char)
    ensures
        final(s)@ == old(s)@.push(c),
;

/// The characters of `s`, one element for each.
pub fn chars_of(s: &str) -> (v: Vec<char>)
    ensures
        v@ == s@,
{
    let mut v: Vec<char> = Vec::new();
    for c in it: s.chars()
        invariant
            it.seq() == s@,
            v@ == it.seq().take(it.index() as int),
    {
        v.push(c);
    }
    v
}

/// Appends `v[from..to]` to `out`.
pub fn push_range(out: &mut String, v: &Vec<char>, from: usize, to: usize)
    requires
        from <= to <= v.len(),
    ensures
        final(out)@ == old(out)@ + v@.subrange(from as int, to as int),
{
    let mut i: usize = from;
    while i < to
        invariant
            from <= i <= to <= v.len(),
            out@ == old(out)@ + v@.subrange(from as int, i as int),
        decreases to - i,
    {
        out.push(v[i]);
        i += 1;
    }
}

/// The string that holds `v[from..to]`.
pub fn string_of_range(v: &Vec<char>, from: usize, to: usize) -> (s: String)
    requires
        from <= to <= v.len(),
    ensures
        s@ == v@.subrange(from as int, to as int),
{
    let mut s = String::new();
    push_range(&mut s, v, from, to);
    s
}

/// The end of the longest run of characters of `set` that starts at `from` and stays
/// before `to`.
pub fn scan_forward(v: &Vec<char>, from: usize, to: usize, set: CharSet) -> (k: usize)
    requires
        from <= to <= v.len(),
    ensures
        from <= k <= to,
        k - from == lead(v@.subrange(from as int, to as int), set),
{
    let mut k: usize = from;
    while k < to && set.contains(v[k])
        invariant
            from <= k <= to <= v.len(),
            lead(v@.subrange(from as int, to as int), set) == (k - from) + lead(
                v@.subrange(k as int, to as int),
                set,
            ),
        decreases to - k,
    {
        assert(v@.subrange(k as int, to as int).skip(1) =~= v@.subrange(k + 1, to as int));
        k += 1;
    }
    k
}

/// The start of the longest run of characters of `set` that ends at `to` and stays at
/// or after `from`.
pub fn scan_backward(v: &Vec<char>, from: usize, to: usize, set: CharSet) -> (k: usize)
    requires
        from <= to <= v.len(),
    ensures
        from <= k <= to,
        to - k == trail(v@.subrange(from as int, to as int), set),
{
    let mut k: usize = to;
    while k > from && set.contains(v[k - 1])
        invariant
            from <= k <= to <= v.len(),
            trail(v@.subrange(from as int, to as int), set) == (to - k) + trail(
                v@.subrange(from as int, k as int),
                set,
            ),
        decreases k,
    {
        assert(v@.subrange(from as int, k as int).drop_last() =~= v@.subrange(
            from as int,
            k - 1,
        ));
        k -= 1;
    }
    k
}

/// The bounds of `v[from..to]` without its leading and trailing white space. What
/// lies between them, if anything, starts and ends with a character that is no
/// white space.
pub fn trim_range(v: &Vec<char>, from: usize, to: usize) -> (r: (usize, usize))
    requires
        from <= to <= v.len(),
    ensures
        from <= r.0 <= r.1 <= to,
        v@.subrange(r.0 as int, r.1 as int) == trim(v@.subrange(from as int, to as int)),
        r.0 < r.1 ==> !is_space(v@[r.0 as int]) && !is_space(v@[r.1 - 1]),
{
    let a = scan_forward(v, from, to, CharSet::Space);
    let b = scan_backward(v, a, to, CharSet::Space);
    proof {
        let s = v@.subrange(from as int, to as int);
        let body = s.skip(lead(s, CharSet::Space) as int);
        assert(body =~= v@.subrange(a as int, to as int));
        let kept = v@.subrange(a as int, b as int);
        assert(kept =~= body.take(body.len() - trail(body, CharSet::Space)));
        lemma_trim(s);
        if a < b {
            assert(kept[0] == v@[a as int]);
            assert(kept.last() == v@[b - 1]);
        }
    }
    (a, b)
}

/// Whether `v[from..to]` is the text `word`.
pub fn range_is(v: &Vec<char>, from: usize, to: usize, word: &str) -> (r: bool)
    requires
        from <= to <= v.len(),
    ensures
        r == (v@.subrange(from as int, to as int) == word@),
{
    let ghost s = v@.subrange(from as int, to as int);
    let mut i: usize = from;
    for c in it: word.chars()
        invariant
            it.seq() == word@,
            s == v@.subrange(from as int, to as int),
            from <= i <= to <= v.len(),
            i - from == it.index(),
            s.take(it.index() as int) == word@.take(it.index() as int),
    {
        if i >= to || v[i] != c {
            proof {
                if i < to {
                    assert(s[i - from] != word@[i - from]);
                }
            }
            return false;
        }
        assert(s.take(it.index() + 1) =~= s.take(it.index() as int).push(s[i - from]));
        assert(word@.take(it.index() + 1) =~= word@.take(it.index() as int).push(c));
        i += 1;
    }
    proof {
        assert(word@.take(word@.len() as int) =~= word@);
        if i == to {
            assert(s.take(s.len() as int) =~= s);
        }
    }
    i == to
}

/// Where `v[from..to]` goes on after `word` at its start, letters of either case
/// taken for the same, or `None` where it does not start with `word`.
pub fn range_strip_prefix(v: &Vec<char>, from: usize, to: usize, word: &str) -> (r: Option<usize>)
    requires
        from <= to <= v.len(),
    ensures
        match r {
            Some(k) => {
                &&& starts_with_ignoring_case(v@.subrange(from as int, to as int), word@)
                &&& k == from + word@.len()
                &&& k <= to
            },
            None => !starts_with_ignoring_case(v@.subrange(from as int, to as int), word@),
        },
{
    let ghost s = v@.subrange(from as int, to as int);
    let mut i: usize = from;
    for c in it: word.chars()
        invariant
            it.seq() == word@,
            s == v@.subrange(from as int, to as int),
            from <= i <= to <= v.len(),
            i - from == it.index(),
            forall|j: int| 0 <= j < it.index() ==> same_letter(#[trigger] s[j], word@[j]),
    {
        if i >= to {
            return None;
        }
        let d = v[i];
        let same = d == c || ('a' <= c && c <= 'z' && (d as u32) == (c as u32) - 32);
        if !same {
            assert(!same_letter(s[i - from], word@[i - from]));
            return None;
        }
        assert(s[i - from] == d);
        i += 1;
    }
    Some(i)
}

} // verus!
