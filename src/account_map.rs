//! A map from account id to account blob, held as a vector of pairs with
//! distinct keys.
use vstd::prelude::*;
use crate::blob::copy_blob;

verus! {

/// The keys of `s` are pairwise distinct.
pub open spec fn keys_unique<V>(s: Seq<(u32, V)>) -> bool {
    forall|i: int, j: int|
        0 <= i < s.len() && 0 <= j < s.len() && #[trigger] s[i].0 == #[trigger] s[j].0 ==> i == j
}

/// `k` is the key of some pair of `s`.
pub open spec fn has_key<V>(s: Seq<(u32, V)>, k: u32) -> bool {
    exists|i: int| 0 <= i < s.len() && #[trigger] s[i].0 == k
}

/// The map that a sequence of pairs with distinct keys stands for.
pub open spec fn keyed_map<V>(s: Seq<(u32, V)>) -> Map<u32, V> {
    Map::new(
        |k: u32| has_key(s, k),
        |k: u32| s[choose|i: int| 0 <= i < s.len() && #[trigger] s[i].0 == k].1,
    )
}

pub proof fn lemma_keyed_map_at<V>(s: Seq<(u32, V)>, i: int)
    requires
        keys_unique(s),
        0 <= i < s.len(),
    ensures
        keyed_map(s).contains_key(s[i].0),
        keyed_map(s)[s[i].0] == s[i].1,
{
    let k = s[i].0;
    assert(has_key(s, k));
    let j = choose|j: int| 0 <= j < s.len() && #[trigger] s[j].0 == k;
    assert(j == i);
}

pub proof fn lemma_keyed_map_all<V>(s: Seq<(u32, V)>)
    requires
        keys_unique(s),
    ensures
        forall|i: int|
            0 <= i < s.len() ==> #[trigger] keyed_map(s).contains_key(s[i].0) && keyed_map(s)[s[i].0]
                == s[i].1,
{
    assert forall|i: int| 0 <= i < s.len() implies #[trigger] keyed_map(s).contains_key(s[i].0)
        && keyed_map(s)[s[i].0] == s[i].1 by {
        lemma_keyed_map_at(s, i);
    }
}

pub proof fn lemma_keyed_map_push<V>(s: Seq<(u32, V)>, k: u32, v: V)
    requires
        keys_unique(s),
        !has_key(s, k),
    ensures
        keys_unique(s.push((k, v))),
        keyed_map(s.push((k, v))) == keyed_map(s).insert(k, v),
{
    let t = s.push((k, v));
    assert(forall|i: int| 0 <= i < s.len() ==> t[i] == s[i]);
    assert(keys_unique(t));
    lemma_keyed_map_all(s);
    lemma_keyed_map_all(t);
    assert forall|q: u32| #[trigger] has_key(t, q) <==> has_key(s, q) || q == k by {
        if has_key(t, q) {
            let i = choose|i: int| 0 <= i < t.len() && #[trigger] t[i].0 == q;
            if i < s.len() {
                assert(s[i].0 == q);
            }
        }
        if has_key(s, q) {
            let i = choose|i: int| 0 <= i < s.len() && #[trigger] s[i].0 == q;
            assert(t[i].0 == q);
        }
        if q == k {
            assert(t[s.len() as int].0 == q);
        }
    }
    assert forall|q: u32| #[trigger] keyed_map(t).contains_key(q) implies keyed_map(t)[q] == keyed_map(
        s,
    ).insert(k, v)[q] by {
        let i = choose|i: int| 0 <= i < t.len() && #[trigger] t[i].0 == q;
        assert(keyed_map(t)[t[i].0] == t[i].1);
        if i < s.len() {
            assert(keyed_map(s)[s[i].0] == s[i].1);
        }
    }
    assert(keyed_map(t) =~= keyed_map(s).insert(k, v));
}

pub proof fn lemma_keyed_map_update<V>(s: Seq<(u32, V)>, i: int, v: V)
    requires
        keys_unique(s),
        0 <= i < s.len(),
    ensures
        keys_unique(s.update(i, (s[i].0, v))),
        keyed_map(s.update(i, (s[i].0, v))) == keyed_map(s).insert(s[i].0, v),
{
    let k = s[i].0;
    let t = s.update(i, (k, v));
    assert(forall|j: int| 0 <= j < s.len() ==> t[j].0 == s[j].0);
    assert(keys_unique(t));
    lemma_keyed_map_all(s);
    lemma_keyed_map_all(t);
    assert forall|q: u32| #[trigger] has_key(t, q) <==> has_key(s, q) by {
        if has_key(t, q) {
            let j = choose|j: int| 0 <= j < t.len() && #[trigger] t[j].0 == q;
            assert(s[j].0 == q);
        }
        if has_key(s, q) {
            let j = choose|j: int| 0 <= j < s.len() && #[trigger] s[j].0 == q;
            assert(t[j].0 == q);
        }
    }
    assert forall|q: u32| #[trigger] keyed_map(t).contains_key(q) implies keyed_map(t)[q] == keyed_map(
        s,
    ).insert(k, v)[q] by {
        let j = choose|j: int| 0 <= j < t.len() && #[trigger] t[j].0 == q;
        assert(keyed_map(t)[t[j].0] == t[j].1);
        assert(keyed_map(s)[s[j].0] == s[j].1);
    }
    assert(keyed_map(t) =~= keyed_map(s).insert(k, v));
}

pub proof fn lemma_keyed_map_len<V>(s: Seq<(u32, V)>)
    requires
        keys_unique(s),
    ensures
        keyed_map(s).dom().finite(),
        keyed_map(s).len() == s.len(),
    decreases s.len(),
{
    if s.len() == 0 {
        assert(keyed_map(s) =~= Map::<u32, V>::empty());
    } else {
        let p = s.drop_last();
        let last = s.last();
        assert(p.push(last) =~= s);
        assert(keys_unique(p));
        if has_key(p, last.0) {
            let i = choose|i: int| 0 <= i < p.len() && #[trigger] p[i].0 == last.0;
            assert(s[i].0 == s[s.len() - 1].0);
        }
        lemma_keyed_map_len(p);
        lemma_keyed_map_push(p, last.0, last.1);
    }
}

/// Finds the position of key `k` in `s`.
pub fn find_key<V>(s: &Vec<(u32, V)>, k: u32) -> (r: Option<usize>)
    ensures
        match r {
            Some(i) => i < s@.len() && s@[i as int].0 == k,
            None => !has_key(s@, k),
        },
{
    let mut i: usize = 0;
    while i < s.len()
        invariant
            i <= s@.len(),
            forall|j: int| 0 <= j < i ==> #[trigger] s@[j].0 != k,
        decreases s@.len() - i,
    {
        if s[i].0 == k {
            return Some(i);
        }
        i = i + 1;
    }
    None
}

/// Accounts by id, each with its data blob.
pub struct AccountMap {
    entries: Vec<(u32, serde_json::Value)>,
}

impl View for AccountMap {
    type V = Map<u32, serde_json::Value>;

    open spec fn view(&self) -> Map<u32, serde_json::Value> {
        keyed_map(self.pairs())
    }
}

impl AccountMap {
    /// The pairs held, in the order they were first inserted.
    pub closed spec fn pairs(&self) -> Seq<(u32, serde_json::Value)> {
        self.entries@
    }

    /// No key is held twice.
    pub open spec fn wf(&self) -> bool {
        keys_unique(self.pairs())
    }

    /// An empty map.
    pub fn new() -> (r: AccountMap)
        ensures
            r.wf(),
            r@ == Map::<u32, serde_json::Value>::empty(),
            r.pairs().len() == 0,
    {
        let r = AccountMap { entries: Vec::new() };
        assert(r@ =~= Map::<u32, serde_json::Value>::empty());
        r
    }

    /// The number of accounts held.
    pub fn len(&self) -> (r: usize)
        requires
            self.wf(),
        ensures
            r == self@.len(),
            r == self.pairs().len(),
    {
        proof {
            lemma_keyed_map_len(self.pairs());
        }
        self.entries.len()
    }

    /// The data of account `id`, if held.
    pub fn get(&self, id: &u32) -> (r: Option<&serde_json::Value>)
        requires
            self.wf(),
        ensures
            match r {
                Some(v) => self@.contains_key(*id) && *v == self@[*id],
                None => !self@.contains_key(*id),
            },
    {
        match find_key(&self.entries, *id) {
            Some(i) => {
                proof {
                    lemma_keyed_map_at(self.pairs(), i as int);
                }
                Some(&self.entries[i].1)
            },
            None => None,
        }
    }

    /// Sets the data of account `id`, replacing what was held for it.
    pub fn insert(&mut self, id: u32, data: serde_json::Value)
        requires
            old(self).wf(),
        ensures
            final(self).wf(),
            final(self)@ == old(self)@.insert(id, data),
    {
        match find_key(&self.entries, id) {
            Some(i) => {
                proof {
                    lemma_keyed_map_update(self.pairs(), i as int, data);
                }
                self.entries.set(i, (id, data));
            },
            None => {
                proof {
                    lemma_keyed_map_push(self.pairs(), id, data);
                }
                self.entries.push((id, data));
            },
        }
    }

    /// The id held at position `i`.
    pub fn id_at(&self, i: usize) -> (r: u32)
        requires
            i < self.pairs().len(),
        ensures
            r == self.pairs()[i as int].0,
    {
        self.entries[i].0
    }

    /// The data held at position `i`.
    pub fn data_at(&self, i: usize) -> (r: &serde_json::Value)
        requires
            i < self.pairs().len(),
        ensures
            *r == self.pairs()[i as int].1,
    {
        &self.entries[i].1
    }

    /// An equal copy of the map.
    pub fn duplicate(&self) -> (r: AccountMap)
        ensures
            r.pairs() == self.pairs(),
            r@ == self@,
    {
        let mut entries: Vec<(u32, serde_json::Value)> = Vec::new();
        let mut i: usize = 0;
        while i < self.entries.len()
            invariant
                i <= self.entries@.len(),
                entries@ == self.entries@.take(i as int),
            decreases self.entries@.len() - i,
        {
            let d = copy_blob(&self.entries[i].1);
            entries.push((self.entries[i].0, d));
            assert(self.entries@.take(i as int + 1) =~= self.entries@.take(i as int).push(self.entries@[i as int]));
            i = i + 1;
        }
        assert(self.entries@.take(self.entries@.len() as int) =~= self.entries@);
        AccountMap { entries }
    }
}

} // verus!
