//! The header table of a response: names mapped to values. Insertion order
//! carries no meaning; inserting a name again replaces its value, as the
//! wire codec needs when a server repeats a header.

use vstd::prelude::*;

use crate::text::str_eq;

verus! {

/// A header table, viewed as a `Map` from name to value.
pub struct Headers {
    entries: Vec<(String, String)>,
}

/// The map an association list denotes; a later pair wins over an earlier
/// one with the same key.
pub open spec fn assoc_map(s: Seq<(Seq<char>, Seq<char>)>) -> Map<Seq<char>, Seq<char>>
    decreases s.len(),
{
    if s.len() == 0 {
        Map::empty()
    } else {
        assoc_map(s.drop_last()).insert(s.last().0, s.last().1)
    }
}

pub open spec fn distinct_keys(s: Seq<(Seq<char>, Seq<char>)>) -> bool {
    forall|i: int, j: int| 0 <= i < j < s.len() ==> (#[trigger] s[i]).0 != (#[trigger] s[j]).0
}

pub proof fn lemma_assoc_contains(s: Seq<(Seq<char>, Seq<char>)>, k: Seq<char>)
    ensures
        assoc_map(s).contains_key(k) <==> exists|i: int| 0 <= i < s.len() && (#[trigger] s[i]).0 == k,
        assoc_map(s).dom().finite(),
    decreases s.len(),
{
    if s.len() > 0 {
        lemma_assoc_contains(s.drop_last(), k);
        if s.last().0 == k {
            assert(s[s.len() - 1].0 == k);
        } else if assoc_map(s).contains_key(k) {
            let i = choose|i: int| 0 <= i < s.drop_last().len() && (#[trigger] s.drop_last()[i]).0 == k;
            assert(s[i].0 == k);
        } else {
            assert forall|i: int| 0 <= i < s.len() implies (#[trigger] s[i]).0 != k by {
                if i < s.len() - 1 {
                    assert(s.drop_last()[i] == s[i]);
                }
            }
        }
    }
}

pub proof fn lemma_assoc_get(s: Seq<(Seq<char>, Seq<char>)>, i: int)
    requires
        distinct_keys(s),
        0 <= i < s.len(),
    ensures
        assoc_map(s).contains_key(s[i].0),
        assoc_map(s)[s[i].0] == s[i].1,
    decreases s.len(),
{
    if i == s.len() - 1 {
        assert(s.last() == s[i]);
    } else {
        assert(distinct_keys(s.drop_last())) by {
            assert(forall|a: int, b: int|
                0 <= a < b < s.len() - 1 ==> s.drop_last()[a] == s[a] && s.drop_last()[b] == s[b]);
        }
        assert(s.drop_last()[i] == s[i]);
        lemma_assoc_get(s.drop_last(), i);
        assert(s[i].0 != s.last().0);
    }
}

pub proof fn lemma_assoc_remove_idx(s: Seq<(Seq<char>, Seq<char>)>, i: int)
    requires
        distinct_keys(s),
        0 <= i < s.len(),
    ensures
        assoc_map(s.remove(i)) == assoc_map(s).remove(s[i].0),
        distinct_keys(s.remove(i)),
    decreases s.len(),
{
    assert(distinct_keys(s.remove(i))) by {
        assert(forall|a: int|
            0 <= a < s.len() - 1 ==> #[trigger] s.remove(i)[a] == (if a < i {
                s[a]
            } else {
                s[a + 1]
            }));
    }
    if i == s.len() - 1 {
        assert(s.remove(i) =~= s.drop_last());
        lemma_assoc_contains(s.drop_last(), s[i].0);
        assert(!assoc_map(s.drop_last()).contains_key(s[i].0)) by {
            if assoc_map(s.drop_last()).contains_key(s[i].0) {
                let a = choose|a: int|
                    0 <= a < s.drop_last().len() && (#[trigger] s.drop_last()[a]).0 == s[i].0;
                assert(s[a].0 == s[i].0);
            }
        }
        assert(assoc_map(s.remove(i)) =~= assoc_map(s).remove(s[i].0));
    } else {
        assert(distinct_keys(s.drop_last())) by {
            assert(forall|a: int, b: int|
                0 <= a < b < s.len() - 1 ==> s.drop_last()[a] == s[a] && s.drop_last()[b] == s[b]);
        }
        assert(s.drop_last()[i] == s[i]);
        lemma_assoc_remove_idx(s.drop_last(), i);
        assert(s.remove(i).drop_last() =~= s.drop_last().remove(i));
        assert(s.remove(i).last() == s.last());
        assert(s[i].0 != s.last().0);
        assert(assoc_map(s.remove(i)) == assoc_map(s.drop_last().remove(i)).insert(
            s.last().0,
            s.last().1,
        ));
        assert(assoc_map(s.remove(i)) =~= assoc_map(s).remove(s[i].0));
    }
}

/// With distinct keys, the table holds as many entries as the map has keys.
pub proof fn lemma_assoc_len(s: Seq<(Seq<char>, Seq<char>)>)
    requires
        distinct_keys(s),
    ensures
        assoc_map(s).dom().finite(),
        assoc_map(s).dom().len() == s.len(),
    decreases s.len(),
{
    lemma_assoc_contains(s, Seq::empty());
    if s.len() > 0 {
        assert(distinct_keys(s.drop_last())) by {
            assert(forall|a: int, b: int|
                0 <= a < b < s.len() - 1 ==> s.drop_last()[a] == s[a] && s.drop_last()[b] == s[b]);
        }
        lemma_assoc_len(s.drop_last());
        lemma_assoc_contains(s.drop_last(), s.last().0);
        assert(!assoc_map(s.drop_last()).contains_key(s.last().0)) by {
            if assoc_map(s.drop_last()).contains_key(s.last().0) {
                let a = choose|a: int|
                    0 <= a < s.drop_last().len() && (#[trigger] s.drop_last()[a]).0 == s.last().0;
                assert(s[a].0 == s[s.len() - 1].0);
            }
        }
        assert(assoc_map(s).dom() =~= assoc_map(s.drop_last()).dom().insert(s.last().0));
        vstd::set::axiom_set_insert_len(assoc_map(s.drop_last()).dom(), s.last().0);
    }
}

impl View for Headers {
    type V = Map<Seq<char>, Seq<char>>;

    closed spec fn view(&self) -> Map<Seq<char>, Seq<char>> {
        assoc_map(self.entries_view())
    }
}

impl Headers {
    pub closed spec fn entries_view(&self) -> Seq<(Seq<char>, Seq<char>)> {
        self.entries@.map(|i: int, e: (String, String)| (e.0@, e.1@))
    }

    /// Each name occurs at most once; every method keeps this.
    pub closed spec fn wf(&self) -> bool {
        distinct_keys(self.entries_view())
    }

    pub fn new() -> (r: Headers)
        ensures
            r@ == Map::<Seq<char>, Seq<char>>::empty(),
            r.wf(),
    {
        let r = Headers { entries: Vec::new() };
        proof {
            assert(r.entries_view() =~= Seq::empty());
        }
        r
    }

    /// The index of a name's entry, if the table holds it.
    fn find_idx(&self, name: &str) -> (r: Option<usize>)
        ensures
            match r {
                Some(i) => i < self.entries_view().len() && self.entries_view()[i as int].0
                    == name@,
                None => forall|i: int|
                    0 <= i < self.entries_view().len() ==> (#[trigger] self.entries_view()[i]).0
                        != name@,
            },
    {
        let n = self.entries.len();
        let mut i: usize = 0;
        while i < n
            invariant
                0 <= i <= n,
                n == self.entries.len(),
                self.entries_view().len() == n,
                forall|j: int|
                    0 <= j < i ==> (#[trigger] self.entries_view()[j]).0 != name@,
            decreases n - i,
        {
            let e: &(String, String) = &self.entries[i];
            if str_eq(e.0.as_str(), name) {
                assert(self.entries_view()[i as int].0 == name@);
                return Some(i);
            }
            assert(self.entries_view()[i as int].0 != name@);
            i = i + 1;
        }
        None
    }

    /// Whether the table holds `name`.
    pub fn contains(&self, name: &str) -> (r: bool)
        requires
            self.wf(),
        ensures
            r == self@.contains_key(name@),
    {
        proof {
            lemma_assoc_contains(self.entries_view(), name@);
        }
        match self.find_idx(name) {
            Some(_) => true,
            None => false,
        }
    }

    /// The value under `name`, if any.
    pub fn get(&self, name: &str) -> (r: Option<&String>)
        requires
            self.wf(),
        ensures
            match r {
                Some(v) => self@.contains_key(name@) && v@ == self@[name@],
                None => !self@.contains_key(name@),
            },
    {
        proof {
            lemma_assoc_contains(self.entries_view(), name@);
        }
        match self.find_idx(name) {
            Some(i) => {
                proof {
                    lemma_assoc_get(self.entries_view(), i as int);
                }
                let e: &(String, String) = &self.entries[i];
                Some(&e.1)
            },
            None => None,
        }
    }

    /// Maps `name` to `value`, replacing any earlier value under `name`.
    pub fn insert(&mut self, name: String, value: String)
        requires
            old(self).wf(),
        ensures
            final(self).wf(),
            final(self)@ == old(self)@.insert(name@, value@),
    {
        let ghost pre = self.entries_view();
        let found = self.find_idx(name.as_str());
        match found {
            Some(i) => {
                proof {
                    lemma_assoc_remove_idx(pre, i as int);
                }
                self.entries.remove(i);
                proof {
                    assert(self.entries_view() =~= pre.remove(i as int));
                }
            },
            None => {
                proof {
                    lemma_assoc_contains(pre, name@);
                    assert(assoc_map(pre).remove(name@) =~= assoc_map(pre));
                }
            },
        }
        let ghost mid = self.entries_view();
        self.entries.push((name, value));
        proof {
            assert(self.entries_view().drop_last() =~= mid);
            assert(self.entries_view().last() == (name@, value@));
            assert(distinct_keys(self.entries_view())) by {
                lemma_assoc_contains(mid, name@);
                assert(forall|a: int|
                    0 <= a < mid.len() ==> #[trigger] self.entries_view()[a] == mid[a]);
                assert(forall|a: int| 0 <= a < mid.len() ==> (#[trigger] mid[a]).0 != name@);
            }
            assert(assoc_map(self.entries_view()) == assoc_map(mid).insert(name@, value@));
            assert(assoc_map(mid) == assoc_map(pre).remove(name@));
            assert(assoc_map(pre).remove(name@).insert(name@, value@) =~= assoc_map(pre).insert(
                name@,
                value@,
            ));
        }
    }

    /// Takes the value under `name` out of the table.
    pub fn remove(&mut self, name: &str) -> (r: Option<String>)
        requires
            old(self).wf(),
        ensures
            final(self).wf(),
            final(self)@ == old(self)@.remove(name@),
            match r {
                Some(v) => old(self)@.contains_key(name@) && v@ == old(self)@[name@],
                None => !old(self)@.contains_key(name@) && final(self)@ == old(self)@,
            },
    {
        let ghost pre = self.entries_view();
        proof {
            lemma_assoc_contains(pre, name@);
        }
        let found = self.find_idx(name);
        match found {
            Some(i) => {
                proof {
                    lemma_assoc_get(pre, i as int);
                    lemma_assoc_remove_idx(pre, i as int);
                }
                let e: (String, String) = self.entries.remove(i);
                proof {
                    assert(self.entries_view() =~= pre.remove(i as int));
                }
                Some(e.1)
            },
            None => {
                proof {
                    assert(assoc_map(pre).remove(name@) =~= assoc_map(pre));
                }
                None
            },
        }
    }

    /// How many headers the table holds.
    pub fn len(&self) -> (r: usize)
        requires
            self.wf(),
        ensures
            r == self@.dom().len(),
            self@.dom().finite(),
    {
        proof {
            lemma_assoc_len(self.entries_view());
        }
        self.entries.len()
    }
}

} // verus!
