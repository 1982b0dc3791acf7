//! A set of URLs that remembers the order in which its members arrived.
use crate::text::texts;
use vstd::hash_set::StringHashSet;
use vstd::prelude::*;

verus! {

/// `list` with `item` at its end, unless `list` holds `item` already.
pub open spec fn insert_new(list: Seq<Seq<char>>, item: Seq<char>) -> Seq<Seq<char>> {
    if list.contains(item) {
        list
    } else {
        list.push(item)
    }
}

/// A list without duplicates keeps being one when a member is added with
/// `insert_new`; it stays a prefix of the result, and the result's members are its
/// own and the new one.
pub proof fn lemma_insert_new(list: Seq<Seq<char>>, item: Seq<char>)
    requires
        list.no_duplicates(),
    ensures
        insert_new(list, item).no_duplicates(),
        list.is_prefix_of(insert_new(list, item)),
        forall|u: Seq<char>| #[trigger]
            insert_new(list, item).contains(u) <==> list.contains(u) || u == item,
{
    let after = insert_new(list, item);
    if !list.contains(item) {
        assert(after.last() == item);
        assert forall|i: int, j: int| 0 <= i < after.len() && 0 <= j < after.len() && i != j implies after[i]
            != after[j] by {
            if i < list.len() && j < list.len() {
                assert(list[i] != list[j]);
            } else if i < list.len() {
                assert(list.contains(list[i]));
            } else {
                assert(list.contains(list[j]));
            }
        }
        assert forall|u: Seq<char>| #[trigger] after.contains(u) <==> list.contains(u) || u
            == item by {
            if after.contains(u) {
                let i = choose|i: int| 0 <= i < after.len() && after[i] == u;
                if i < list.len() {
                    assert(list[i] == u);
                }
            }
            if list.contains(u) {
                let i = choose|i: int| 0 <= i < list.len() && list[i] == u;
                assert(after[i] == u);
            }
            if u == item {
                assert(after[list.len() as int] == u);
            }
        }
    }
}

/// URLs in the order of their first arrival, each held once.
pub struct UrlSet {
    order: Vec<String>,
    seen: StringHashSet,
}

impl View for UrlSet {
    type V = Seq<Seq<char>>;

    closed spec fn view(&self) -> Seq<Seq<char>> {
        texts(self.order@)
    }
}

impl UrlSet {
    /// The set's invariant: no URL is held twice, and the index of members agrees
    /// with the list. It holds of every set that `new` made, and the methods keep
    /// it.
    pub closed spec fn wf(&self) -> bool {
        &&& texts(self.order@).no_duplicates()
        &&& self.seen@ =~= texts(self.order@).to_set()
    }

    /// A well-formed set holds no URL twice.
    pub proof fn lemma_distinct(&self)
        requires
            self.wf(),
        ensures
            self@.no_duplicates(),
    {
    }

    /// The empty set.
    pub fn new() -> (s: UrlSet)
        ensures
            s.wf(),
            s@ == Seq::<Seq<char>>::empty(),
    {
        let s = UrlSet { order: Vec::new(), seen: StringHashSet::new() };
        assert(texts(s.order@) =~= Seq::<Seq<char>>::empty());
        assert(s.seen@ =~= texts(s.order@).to_set());
        s
    }

    /// Whether `url` is a member.
    pub fn contains(&self, url: &str) -> (r: bool)
        requires
            self.wf(),
        ensures
            r == self@.contains(url@),
    {
        self.seen.contains(url)
    }

    /// Adds `url` as the last member unless it is one already. Returns whether it
    /// was added.
    pub fn insert(&mut self, url: String) -> (added: bool)
        requires
            old(self).wf(),
        ensures
            final(self).wf(),
            final(self)@ == insert_new(old(self)@, url@),
            added == !old(self)@.contains(url@),
    {
        if self.seen.contains(url.as_str()) {
            false
        } else {
            proof {
                lemma_insert_new(old(self)@, url@);
            }
            self.seen.insert(url.clone());
            self.order.push(url);
            assert(texts(self.order@) =~= texts(old(self).order@).push(url@));
            assert(self.seen@ =~= texts(self.order@).to_set());
            true
        }
    }

    /// The number of members.
    pub fn len(&self) -> (n: usize)
        ensures
            n == self@.len(),
    {
        self.order.len()
    }

    /// Whether the set has no member.
    pub fn is_empty(&self) -> (r: bool)
        ensures
            r == (self@.len() == 0),
    {
        self.order.len() == 0
    }

    /// The member that arrived as number `i`, counted from 0.
    pub fn get(&self, i: usize) -> (url: &String)
        requires
            i < self@.len(),
        ensures
            url@ == self@[i as int],
    {
        &self.order[i]
    }

    /// The members in the order of their arrival.
    pub fn as_vec(&self) -> (v: &Vec<String>)
        ensures
            texts(v@) == self@,
    {
        &self.order
    }

    /// The members in the order of their arrival, the set given up.
    pub fn into_vec(self) -> (v: Vec<String>)
        ensures
            texts(v@) == self@,
    {
        self.order
    }
}

} // verus!
