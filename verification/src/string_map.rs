//! A map from strings to strings, as the configuration holds user
//! credentials and command-line options.
use vstd::prelude::*;
use crate::text::{views, str_eq};

verus! {

/// The map that a list of key/value pairs describes: each pair inserted in
/// order, so that a later pair replaces an earlier one with the same key.
pub open spec fn pairs_map(s: Seq<(Seq<char>, Seq<char>)>) -> Map<Seq<char>, Seq<char>>
    decreases s.len(),
{
    if s.len() == 0 {
        Map::empty()
    } else {
        pairs_map(s.drop_last()).insert(s.last().0, s.last().1)
    }
}

/// A finite map from strings to strings.
pub struct StringMap {
    entries: Vec<(String, String)>,
}

impl View for StringMap {
    type V = Map<Seq<char>, Seq<char>>;

    closed spec fn view(&self) -> Map<Seq<char>, Seq<char>> {
        pairs_map(views(self.entries@))
    }
}

proof fn lemma_pairs_map_nonempty(s: Seq<(Seq<char>, Seq<char>)>)
    requires
        s.len() > 0,
    ensures
        pairs_map(s).dom().contains(s.last().0),
{
}

impl StringMap {
    /// The empty map.
    pub fn new() -> (m: StringMap)
        ensures
            m@ == Map::<Seq<char>, Seq<char>>::empty(),
    {
        let entries: Vec<(String, String)> = Vec::new();
        assert(views(entries@) =~= Seq::<(Seq<char>, Seq<char>)>::empty());
        StringMap { entries }
    }

    /// Maps `key` to `value`, replacing what `key` was mapped to.
    pub fn insert(&mut self, key: String, value: String)
        ensures
            final(self)@ == old(self)@.insert(key@, value@),
    {
        let ghost before = self.entries@;
        let ghost pair = (key@, value@);
        self.entries.push((key, value));
        assert(views(self.entries@) =~= views(before).push(pair));
        assert(views(self.entries@).drop_last() =~= views(before));
    }

    /// Whether the map holds no key.
    pub fn is_empty(&self) -> (r: bool)
        ensures
            r == (self@ == Map::<Seq<char>, Seq<char>>::empty()),
    {
        proof {
            if self.entries@.len() > 0 {
                lemma_pairs_map_nonempty(views(self.entries@));
                assert(!Map::<Seq<char>, Seq<char>>::empty().dom().contains(views(self.entries@).last().0));
            }
        }
        self.entries.len() == 0
    }

    /// The key/value pairs the map was built from, in insertion order; a
    /// later pair replaces an earlier one with the same key.
    pub fn pairs(&self) -> (r: &Vec<(String, String)>)
        ensures
            pairs_map(views(r@)) == self@,
    {
        &self.entries
    }

    /// What `key` is mapped to, if anything.
    pub fn get(&self, key: &str) -> (r: Option<&String>)
        ensures
            match r {
                Some(v) => self@.dom().contains(key@) && self@[key@] == v@,
                None => !self@.dom().contains(key@),
            },
    {
        let ghost vs = views(self.entries@);
        let mut i: usize = self.entries.len();
        assert(vs.take(i as int) =~= vs);
        while i > 0
            invariant
                i <= vs.len(),
                vs == views(self.entries@),
                forall|k: int| i <= k < vs.len() ==> vs[k].0 != key@,
                pairs_map(vs).dom().contains(key@) == pairs_map(vs.take(i as int)).dom().contains(key@),
                pairs_map(vs).dom().contains(key@) ==> pairs_map(vs)[key@] == pairs_map(vs.take(i as int))[key@],
            decreases i,
        {
            assert(vs.take(i as int).drop_last() =~= vs.take(i - 1));
            assert(vs[i - 1] == (self.entries@[i - 1].0@, self.entries@[i - 1].1@));
            if str_eq(self.entries[i - 1].0.as_str(), key) {
                return Some(&self.entries[i - 1].1);
            }
            i = i - 1;
        }
        None
    }
}


/// After `insert(key, value)`, `get(key)` gives `value`, and every other
/// key gives what it gave before.
pub proof fn lemma_get_after_insert(
    m: Map<Seq<char>, Seq<char>>,
    key: Seq<char>,
    value: Seq<char>,
    other: Seq<char>,
)
    ensures
        m.insert(key, value).dom().contains(key),
        m.insert(key, value)[key] == value,
        other != key ==> m.insert(key, value).dom().contains(other) == m.dom().contains(other),
        other != key && m.dom().contains(other) ==> m.insert(key, value)[other] == m[other],
{
}

/// A finite set of strings.
pub struct StringSet {
    items: Vec<String>,
}

impl View for StringSet {
    type V = Set<Seq<char>>;

    closed spec fn view(&self) -> Set<Seq<char>> {
        views(self.items@).to_set()
    }
}

impl StringSet {
    /// The empty set.
    pub fn new() -> (s: StringSet)
        ensures
            s@ == Set::<Seq<char>>::empty(),
    {
        let items: Vec<String> = Vec::new();
        assert(views(items@) =~= Seq::<Seq<char>>::empty());
        assert(views(items@).to_set() =~= Set::<Seq<char>>::empty());
        StringSet { items }
    }

    /// Whether the set holds the text of `x`.
    pub fn contains(&self, x: &str) -> (r: bool)
        ensures
            r == self@.contains(x@),
    {
        let ghost vs = views(self.items@);
        let mut i: usize = 0;
        while i < self.items.len()
            invariant
                i <= vs.len(),
                vs == views(self.items@),
                forall|k: int| 0 <= k < i ==> vs[k] != x@,
            decreases vs.len() - i,
        {
            assert(vs[i as int] == self.items@[i as int]@);
            if str_eq(self.items[i].as_str(), x) {
                assert(vs.contains(x@));
                return true;
            }
            i = i + 1;
        }
        false
    }

    /// Adds the text of `x` to the set.
    pub fn insert(&mut self, x: String)
        ensures
            final(self)@ == old(self)@.insert(x@),
    {
        let ghost before = views(self.items@);
        if !self.contains(x.as_str()) {
            let ghost xv = x@;
            let ghost old_items = self.items@;
            self.items.push(x);
            assert(views(self.items@) =~= before.push(xv));
            assert forall|y: Seq<char>| before.push(xv).contains(y) == (before.contains(y) || y == xv) by {
                if before.contains(y) {
                    let k = choose|k: int| 0 <= k < before.len() && before[k] == y;
                    assert(before.push(xv)[k] == y);
                }
                if y == xv {
                    assert(before.push(xv)[before.len() as int] == xv);
                }
                if before.push(xv).contains(y) && y != xv {
                    let k = choose|k: int| 0 <= k < before.len() + 1 && before.push(xv)[k] == y;
                    assert(before[k] == y);
                }
            }
            assert(before.push(xv).to_set() =~= before.to_set().insert(xv));
        } else {
            assert(before.to_set().insert(x@) =~= before.to_set());
        }
    }
}

} // verus!
