//! The header map: string keys to string values, keys unique, a later
//! insert for an existing key overwriting the earlier value.
//!
//! The map is held as a vector of pairs whose keys are pairwise distinct
//! (a type invariant), and is viewed as a `Map<Seq<char>, Seq<char>>`.

use vstd::prelude::*;

use crate::text::str_eq;

verus! {

/// A mapping from header names to header values.
#[derive(Debug)]
pub struct Headers {
    pairs: Vec<(String, String)>,
}

/// The map a pair sequence stands for: inserts applied left to right, so
/// that for a repeated key the rightmost pair wins.
spec fn map_of(ps: Seq<(String, String)>) -> Map<Seq<char>, Seq<char>>
    decreases ps.len(),
{
    if ps.len() == 0 {
        Map::<Seq<char>, Seq<char>>::empty()
    } else {
        map_of(ps.drop_last()).insert(ps.last().0@, ps.last().1@)
    }
}

/// Pairwise distinct keys.
spec fn unique_keys(ps: Seq<(String, String)>) -> bool {
    forall|i: int, j: int| 0 <= i < j < ps.len() ==> ps[i].0@ != ps[j].0@
}

impl View for Headers {
    type V = Map<Seq<char>, Seq<char>>;

    closed spec fn view(&self) -> Map<Seq<char>, Seq<char>> {
        map_of(self.pairs@)
    }
}

proof fn lemma_unique_keys_drop_last(ps: Seq<(String, String)>)
    requires
        unique_keys(ps),
        ps.len() > 0,
    ensures
        unique_keys(ps.drop_last()),
{
    assert(forall|x: int, y: int|
        0 <= x < y < ps.len() - 1 ==> ps.drop_last()[x] == ps[x] && ps.drop_last()[y] == ps[y]);
}

proof fn lemma_map_of_contains(ps: Seq<(String, String)>, k: Seq<char>)
    ensures
        map_of(ps).contains_key(k) <==> exists|i: int| 0 <= i < ps.len() && ps[i].0@ == k,
    decreases ps.len(),
{
    if ps.len() > 0 {
        lemma_map_of_contains(ps.drop_last(), k);
        if ps.last().0@ == k {
            assert(ps[ps.len() - 1].0@ == k);
        } else {
            if exists|i: int| 0 <= i < ps.len() && ps[i].0@ == k {
                let i = choose|i: int| 0 <= i < ps.len() && ps[i].0@ == k;
                assert(ps.drop_last()[i] == ps[i]);
            }
        }
    }
}

proof fn lemma_map_of_get(ps: Seq<(String, String)>, i: int)
    requires
        unique_keys(ps),
        0 <= i < ps.len(),
    ensures
        map_of(ps).contains_key(ps[i].0@),
        map_of(ps)[ps[i].0@] == ps[i].1@,
    decreases ps.len(),
{
    if i < ps.len() - 1 {
        lemma_unique_keys_drop_last(ps);
        lemma_map_of_get(ps.drop_last(), i);
        assert(ps.drop_last()[i] == ps[i]);
        assert(ps.last().0@ != ps[i].0@);
    }
}

proof fn lemma_map_of_len(ps: Seq<(String, String)>)
    requires
        unique_keys(ps),
    ensures
        map_of(ps).dom().finite(),
        map_of(ps).dom().len() == ps.len(),
    decreases ps.len(),
{
    if ps.len() == 0 {
        assert(map_of(ps).dom() =~= Set::<Seq<char>>::empty());
    } else {
        lemma_unique_keys_drop_last(ps);
        lemma_map_of_len(ps.drop_last());
        lemma_map_of_contains(ps.drop_last(), ps.last().0@);
        assert(!map_of(ps.drop_last()).contains_key(ps.last().0@)) by {
            if exists|i: int| 0 <= i < ps.len() - 1 && ps.drop_last()[i].0@ == ps.last().0@ {
                let i = choose|i: int|
                    0 <= i < ps.len() - 1 && ps.drop_last()[i].0@ == ps.last().0@;
                assert(ps[i].0@ == ps[ps.len() - 1].0@);
            }
        }
        assert(map_of(ps).dom() =~= map_of(ps.drop_last()).dom().insert(ps.last().0@));
    }
}

proof fn lemma_map_of_update(ps: Seq<(String, String)>, i: int, k: String, v: String)
    requires
        unique_keys(ps),
        0 <= i < ps.len(),
        ps[i].0@ == k@,
    ensures
        map_of(ps.update(i, (k, v))) == map_of(ps).insert(k@, v@),
    decreases ps.len(),
{
    let u = ps.update(i, (k, v));
    if i == ps.len() - 1 {
        assert(u.drop_last() =~= ps.drop_last());
        assert(u.last() == (k, v));
        assert(map_of(u) =~= map_of(ps).insert(k@, v@));
    } else {
        lemma_unique_keys_drop_last(ps);
        assert(u.drop_last() =~= ps.drop_last().update(i, (k, v)));
        assert(ps.drop_last()[i] == ps[i]);
        lemma_map_of_update(ps.drop_last(), i, k, v);
        assert(u.last() == ps.last());
        assert(ps.last().0@ != k@);
        assert(map_of(u) =~= map_of(ps).insert(k@, v@));
    }
}

impl Headers {
    #[verifier::type_invariant]
    spec fn wf(&self) -> bool {
        unique_keys(self.pairs@)
    }

    /// The empty header map.
    pub fn new() -> (h: Headers)
        ensures
            h@ == Map::<Seq<char>, Seq<char>>::empty(),
    {
        Headers { pairs: Vec::new() }
    }

    /// The index of the pair holding `key`, if one does.
    fn find_key(ps: &Vec<(String, String)>, key: &str) -> (r: Option<usize>)
        ensures
            match r {
                Some(i) => i < ps@.len() && ps@[i as int].0@ == key@,
                None => forall|j: int| 0 <= j < ps@.len() ==> ps@[j].0@ != key@,
            },
    {
        let n: usize = ps.len();
        let mut i: usize = 0;
        while i < n
            invariant
                n == ps@.len(),
                i <= n,
                forall|j: int| 0 <= j < i ==> ps@[j].0@ != key@,
            decreases n - i,
        {
            if str_eq(ps[i].0.as_str(), key) {
                return Some(i);
            }
            i += 1;
        }
        None
    }

    /// Insert `value` under `key`; an existing value under the same key is
    /// overwritten.
    pub fn insert(&mut self, key: String, value: String)
        ensures
            final(self)@ == old(self)@.insert(key@, value@),
    {
        proof {
            use_type_invariant(&*self);
        }
        let mut ps: Vec<(String, String)> = Vec::new();
        std::mem::swap(&mut ps, &mut self.pairs);
        match Self::find_key(&ps, key.as_str()) {
            Some(i) => {
                proof {
                    lemma_map_of_update(ps@, i as int, key, value);
                }
                ps[i] = (key, value);
            },
            None => {
                let ghost ps0 = ps@;
                ps.push((key, value));
                proof {
                    assert(ps@.drop_last() =~= ps0);
                }
            },
        }
        self.pairs = ps;
    }

    /// The value stored under `key`, if any.
    pub fn get(&self, key: &str) -> (r: Option<&String>)
        ensures
            match r {
                Some(v) => self@.contains_key(key@) && v@ == self@[key@],
                None => !self@.contains_key(key@),
            },
    {
        proof {
            use_type_invariant(self);
        }
        match Self::find_key(&self.pairs, key) {
            Some(i) => {
                proof {
                    lemma_map_of_get(self.pairs@, i as int);
                }
                Some(&self.pairs[i].1)
            },
            None => {
                proof {
                    lemma_map_of_contains(self.pairs@, key@);
                }
                None
            },
        }
    }

    /// The number of keys held.
    pub fn len(&self) -> (n: usize)
        ensures
            n == self@.dom().len(),
    {
        proof {
            use_type_invariant(self);
            lemma_map_of_len(self.pairs@);
        }
        self.pairs.len()
    }

    /// Whether the map holds no keys.
    pub fn is_empty(&self) -> (r: bool)
        ensures
            r == (self@.dom().len() == 0),
    {
        self.len() == 0
    }
}

} // verus!
