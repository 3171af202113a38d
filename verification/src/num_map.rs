use vstd::prelude::*;

verus! {

/// The map that a list of numeric keys and a list of values describe; a later
/// key overrides an earlier one.
pub open spec fn to_num_map<V>(ks: Seq<u128>, vs: Seq<V>) -> Map<u128, V>
    decreases ks.len(),
{
    if ks.len() == 0 || vs.len() == 0 {
        Map::empty()
    } else {
        to_num_map(ks.drop_last(), vs.drop_last()).insert(ks.last(), vs.last())
    }
}

/// No key occurs twice.
pub open spec fn distinct_nums(ks: Seq<u128>) -> bool {
    forall|i: int, j: int| 0 <= i < j < ks.len() ==> ks[i] != ks[j]
}

proof fn lemma_num_map_dom<V>(ks: Seq<u128>, vs: Seq<V>)
    requires
        ks.len() == vs.len(),
    ensures
        forall|k: u128| #[trigger] to_num_map(ks, vs).dom().contains(k) <==> ks.contains(k),
        to_num_map(ks, vs).dom().finite(),
    decreases ks.len(),
{
    if ks.len() > 0 {
        lemma_num_map_dom(ks.drop_last(), vs.drop_last());
        assert forall|k: u128| #[trigger] to_num_map(ks, vs).dom().contains(k) <==> ks.contains(k) by {
            if ks.drop_last().contains(k) {
                let i = choose|i: int| 0 <= i < ks.drop_last().len() && ks.drop_last()[i] == k;
                assert(ks[i] == k);
            }
            if ks.contains(k) && k != ks.last() {
                let i = choose|i: int| 0 <= i < ks.len() && ks[i] == k;
                assert(ks.drop_last()[i] == k);
            }
        }
    }
}

proof fn lemma_num_map_index<V>(ks: Seq<u128>, vs: Seq<V>, i: int)
    requires
        ks.len() == vs.len(),
        distinct_nums(ks),
        0 <= i < ks.len(),
    ensures
        to_num_map(ks, vs).dom().contains(ks[i]),
        to_num_map(ks, vs)[ks[i]] == vs[i],
    decreases ks.len(),
{
    if i < ks.len() - 1 {
        lemma_num_map_index(ks.drop_last(), vs.drop_last(), i);
    }
}

proof fn lemma_num_map_len<V>(ks: Seq<u128>, vs: Seq<V>)
    requires
        ks.len() == vs.len(),
        distinct_nums(ks),
    ensures
        to_num_map(ks, vs).len() == ks.len(),
    decreases ks.len(),
{
    if ks.len() > 0 {
        lemma_num_map_len(ks.drop_last(), vs.drop_last());
        lemma_num_map_dom(ks.drop_last(), vs.drop_last());
        assert(!ks.drop_last().contains(ks.last()));
    }
}

proof fn lemma_num_map_update<V>(ks: Seq<u128>, vs: Seq<V>, i: int, v: V)
    requires
        ks.len() == vs.len(),
        distinct_nums(ks),
        0 <= i < ks.len(),
    ensures
        to_num_map(ks, vs.update(i, v)) == to_num_map(ks, vs).insert(ks[i], v),
    decreases ks.len(),
{
    let n = ks.len() - 1;
    if i == n {
        assert(vs.update(i, v).drop_last() =~= vs.drop_last());
        lemma_num_map_dom(ks.drop_last(), vs.drop_last());
        assert(!ks.drop_last().contains(ks[i]));
        assert(to_num_map(ks, vs.update(i, v)) =~= to_num_map(ks, vs).insert(ks[i], v));
    } else {
        lemma_num_map_update(ks.drop_last(), vs.drop_last(), i, v);
        assert(vs.update(i, v).drop_last() =~= vs.drop_last().update(i, v));
        assert(to_num_map(ks, vs.update(i, v)) =~= to_num_map(ks, vs).insert(ks[i], v));
    }
}

proof fn lemma_num_map_remove<V>(ks: Seq<u128>, vs: Seq<V>, i: int)
    requires
        ks.len() == vs.len(),
        distinct_nums(ks),
        0 <= i < ks.len(),
    ensures
        to_num_map(ks.remove(i), vs.remove(i)) == to_num_map(ks, vs).remove(ks[i]),
    decreases ks.len(),
{
    let n = ks.len() - 1;
    if i == n {
        assert(ks.remove(i) =~= ks.drop_last());
        assert(vs.remove(i) =~= vs.drop_last());
        lemma_num_map_dom(ks.drop_last(), vs.drop_last());
        assert(!ks.drop_last().contains(ks[i]));
        assert(to_num_map(ks.remove(i), vs.remove(i)) =~= to_num_map(ks, vs).remove(ks[i]));
    } else {
        lemma_num_map_remove(ks.drop_last(), vs.drop_last(), i);
        assert(ks.remove(i).drop_last() =~= ks.drop_last().remove(i));
        assert(vs.remove(i).drop_last() =~= vs.drop_last().remove(i));
        assert(ks.remove(i).last() == ks.last());
        assert(vs.remove(i).last() == vs.last());
        assert(ks[i] != ks.last());
        assert(to_num_map(ks.remove(i), vs.remove(i)) =~= to_num_map(ks, vs).remove(ks[i]));
    }
}

/// What a sequence holds after a push: what it held, and the new element.
pub proof fn lemma_push_contains<T>(s: Seq<T>, x: T)
    ensures
        forall|y: T| #[trigger] s.push(x).contains(y) <==> (s.contains(y) || y == x),
{
    assert forall|y: T| #[trigger] s.push(x).contains(y) <==> (s.contains(y) || y == x) by {
        let t = s.push(x);
        if t.contains(y) {
            let j = choose|j: int| 0 <= j < t.len() && t[j] == y;
            if j < s.len() {
                assert(s[j] == y);
            }
        }
        if s.contains(y) {
            let j = choose|j: int| 0 <= j < s.len() && s[j] == y;
            assert(t[j] == y);
        }
        if y == x {
            assert(t[s.len() as int] == y);
        }
    }
}

/// What a prefix one element longer holds: the shorter prefix and that element.
pub proof fn lemma_take_one_more<T>(s: Seq<T>, i: int)
    requires
        0 <= i < s.len(),
    ensures
        forall|x: T| #[trigger] s.take(i + 1).contains(x) <==> (s.take(i).contains(x) || x == s[i]),
{
    let a = s.take(i);
    let b = s.take(i + 1);
    assert forall|x: T| #[trigger] b.contains(x) <==> (a.contains(x) || x == s[i]) by {
        if b.contains(x) {
            let j = choose|j: int| 0 <= j < b.len() && b[j] == x;
            if j < i {
                assert(a[j] == x);
            }
        }
        if a.contains(x) {
            let j = choose|j: int| 0 <= j < a.len() && a[j] == x;
            assert(b[j] == x);
        }
        if x == s[i] {
            assert(b[i] == x);
        }
    }
}

/// A map keyed by numbers, kept as a list of distinct keys and their values in
/// insertion order.
pub struct NumMap<V> {
    keys: Vec<u128>,
    vals: Vec<V>,
}

impl<V> NumMap<V> {
    /// The keys, in order.
    pub closed spec fn key_seq(&self) -> Seq<u128> {
        self.keys@
    }

    /// The values, in the order of their keys.
    pub closed spec fn val_seq(&self) -> Seq<V> {
        self.vals@
    }

    /// The map.
    pub open spec fn view(&self) -> Map<u128, V> {
        to_num_map(self.key_seq(), self.val_seq())
    }

    pub open spec fn wf(&self) -> bool {
        &&& self.key_seq().len() == self.val_seq().len()
        &&& distinct_nums(self.key_seq())
    }

    /// The map of a well-formed list: its domain is finite and its size is the
    /// number of keys; each key maps to its value.
    pub proof fn lemma_view(&self)
        requires
            self.wf(),
        ensures
            self.view().dom().finite(),
            self.view().len() == self.key_seq().len(),
            forall|k: u128| #[trigger] self.view().dom().contains(k) <==> self.key_seq().contains(k),
            forall|i: int| 0 <= i < self.key_seq().len() ==> #[trigger] self.view()[self.key_seq()[i]] == self.val_seq()[i],
    {
        lemma_num_map_dom(self.key_seq(), self.val_seq());
        lemma_num_map_len(self.key_seq(), self.val_seq());
        assert forall|i: int| 0 <= i < self.key_seq().len() implies #[trigger] self.view()[self.key_seq()[i]] == self.val_seq()[i] by {
            lemma_num_map_index(self.key_seq(), self.val_seq(), i);
        }
    }

    pub fn new() -> (m: NumMap<V>)
        ensures
            m.wf(),
            m.view() == Map::<u128, V>::empty(),
            m.key_seq().len() == 0,
    {
        let m = NumMap { keys: Vec::new(), vals: Vec::new() };
        assert(m.key_seq().len() == 0);
        m
    }

    /// The number of entries.
    pub fn len(&self) -> (n: usize)
        requires
            self.wf(),
        ensures
            n == self.view().len(),
            n == self.key_seq().len(),
    {
        proof {
            self.lemma_view();
        }
        self.keys.len()
    }

    /// The position of `key`.
    fn find(&self, key: u128) -> (r: Option<usize>)
        requires
            self.wf(),
        ensures
            r matches Some(i) ==> i < self.key_seq().len() && self.key_seq()[i as int] == key,
            r is None ==> !self.key_seq().contains(key),
    {
        let mut i: usize = 0;
        while i < self.keys.len()
            invariant
                self.wf(),
                0 <= i <= self.key_seq().len(),
                forall|j: int| 0 <= j < i ==> self.key_seq()[j] != key,
            decreases self.key_seq().len() - i,
        {
            if self.keys[i] == key {
                return Some(i);
            }
            i += 1;
        }
        None
    }

    /// The value under `key`.
    pub fn get(&self, key: u128) -> (r: Option<&V>)
        requires
            self.wf(),
        ensures
            r matches Some(v) ==> self.view().dom().contains(key) && *v == self.view()[key],
            r is None ==> !self.view().dom().contains(key),
    {
        proof {
            self.lemma_view();
        }
        match self.find(key) {
            Some(i) => Some(&self.vals[i]),
            None => None,
        }
    }

    /// Whether `key` has a value.
    pub fn contains_key(&self, key: u128) -> (r: bool)
        requires
            self.wf(),
        ensures
            r == self.view().dom().contains(key),
    {
        proof {
            self.lemma_view();
        }
        self.find(key).is_some()
    }

    /// Put `value` under `key`, giving back the value it replaces.
    pub fn insert(&mut self, key: u128, value: V) -> (r: Option<V>)
        requires
            old(self).wf(),
        ensures
            final(self).wf(),
            final(self).view() == old(self).view().insert(key, value),
            r matches Some(v) ==> old(self).view().dom().contains(key) && v == old(self).view()[key],
            r is None ==> !old(self).view().dom().contains(key),
    {
        proof {
            self.lemma_view();
        }
        match self.find(key) {
            Some(i) => {
                let ghost ks = self.key_seq();
                let ghost vs = self.val_seq();
                let mut old_v = value;
                std::mem::swap(&mut self.vals[i], &mut old_v);
                proof {
                    assert(self.key_seq() == ks);
                    assert(self.val_seq() =~= vs.update(i as int, value));
                    lemma_num_map_update(ks, vs, i as int, value);
                }
                Some(old_v)
            },
            None => {
                let ghost ks = self.key_seq();
                let ghost vs = self.val_seq();
                let ghost kv = key;
                self.keys.push(key);
                self.vals.push(value);
                proof {
                    assert(self.key_seq() =~= ks.push(kv));
                    assert(self.val_seq() =~= vs.push(value));
                    assert(self.key_seq().drop_last() =~= ks);
                    assert(self.val_seq().drop_last() =~= vs);
                }
                None
            },
        }
    }

    /// Take out the value under `key`.
    pub fn remove(&mut self, key: u128) -> (r: Option<V>)
        requires
            old(self).wf(),
        ensures
            final(self).wf(),
            final(self).view() == old(self).view().remove(key),
            r matches Some(v) ==> old(self).view().dom().contains(key) && v == old(self).view()[key],
            r is None ==> !old(self).view().dom().contains(key),
    {
        proof {
            self.lemma_view();
        }
        match self.find(key) {
            Some(i) => {
                let ghost ks = self.key_seq();
                let ghost vs = self.val_seq();
                self.keys.remove(i);
                let v = self.vals.remove(i);
                proof {
                    assert(self.key_seq() =~= ks.remove(i as int));
                    assert(self.val_seq() =~= vs.remove(i as int));
                    lemma_num_map_remove(ks, vs, i as int);
                    assert forall|a: int, b: int| 0 <= a < b < self.key_seq().len() implies self.key_seq()[a] != self.key_seq()[b] by {
                        let a2 = if a < i { a } else { a + 1 };
                        let b2 = if b < i { b } else { b + 1 };
                        assert(self.key_seq()[a] == ks[a2]);
                        assert(self.key_seq()[b] == ks[b2]);
                    }
                }
                Some(v)
            },
            None => {
                proof {
                    assert(self.view() =~= self.view().remove(key));
                }
                None
            },
        }
    }

    /// The keys, in order.
    pub fn keys(&self) -> (r: Vec<u128>)
        requires
            self.wf(),
        ensures
            r@ == self.key_seq(),
            r@.no_duplicates(),
            forall|k: u128| #[trigger] self.view().dom().contains(k) <==> r@.contains(k),
    {
        proof {
            self.lemma_view();
            let ks = self.key_seq();
            assert forall|a: int, b: int| 0 <= a < ks.len() && 0 <= b < ks.len() && a != b implies ks[a] != ks[b] by {
                if a > b {
                    assert(ks[b] != ks[a]);
                }
            }
        }
        self.keys.clone()
    }

    /// References to the values, in the order of their keys.
    pub fn values(&self) -> (r: Vec<&V>)
        requires
            self.wf(),
        ensures
            r@.len() == self.val_seq().len(),
            r@.len() == self.view().len(),
            r@.len() == self.key_seq().len(),
            forall|i: int| 0 <= i < r@.len() ==> *(#[trigger] r@[i]) == self.val_seq()[i],
            forall|i: int| 0 <= i < r@.len() ==> self.view().dom().contains(#[trigger] self.key_seq()[i]) && *r@[i] == self.view()[self.key_seq()[i]],
    {
        proof {
            self.lemma_view();
            assert forall|i: int| 0 <= i < self.key_seq().len() implies self.view().dom().contains(#[trigger] self.key_seq()[i]) by {
                assert(self.key_seq().contains(self.key_seq()[i]));
            }
        }
        let mut r: Vec<&V> = Vec::new();
        for i in 0..self.vals.len()
            invariant
                r@.len() == i,
                forall|j: int| 0 <= j < i ==> *(#[trigger] r@[j]) == self.val_seq()[j],
        {
            r.push(&self.vals[i]);
        }
        r
    }
}

} // verus!
