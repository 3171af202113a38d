use vstd::prelude::*;

use crate::clock::now_millis;
use crate::contact::Contact;
use crate::node_id::{highest_set_bit, lemma_lex_order, lex_lt, xor_bytes, NodeId};

verus! {

broadcast use crate::node_id::lemma_node_id_len;

/// Capacity of a k-bucket (the Kademlia parameter k).
pub const K: usize = 20;

/// Number of k-buckets: one per bit of an identifier.
pub const BUCKET_COUNT: usize = 160;

/// `i` is the first position of a contact with identifier `id`.
pub open spec fn first_with_id(s: Seq<Contact>, id: Seq<u8>, i: int) -> bool {
    &&& 0 <= i < s.len()
    &&& s[i].node_id@ == id
    &&& forall|j: int| 0 <= j < i ==> s[j].node_id@ != id
}

/// The first position of a contact with identifier `id`, if any.
pub open spec fn id_position(s: Seq<Contact>, id: Seq<u8>) -> Option<int> {
    if exists|i: int| first_with_id(s, id, i) {
        Some(choose|i: int| first_with_id(s, id, i))
    } else {
        None
    }
}

/// The contact marked as seen at `now`.
pub open spec fn seen_at(c: Contact, now: u64) -> Contact {
    Contact { last_seen: Some(now), ..c }
}

/// A bucket after adding `c` at time `now`, and whether `c` is in it: a known
/// identifier moves to the back as most recently seen (keeping its address), a
/// new one is appended while the bucket has room, and a full bucket refuses it.
pub open spec fn bucket_add(b: Seq<Contact>, c: Contact, now: u64) -> (Seq<Contact>, bool) {
    match id_position(b, c.node_id@) {
        Some(i) => (b.remove(i).push(seen_at(b[i], now)), true),
        None => if b.len() < K {
            (b.push(c), true)
        } else {
            (b, false)
        },
    }
}

/// A bucket after removing the contact with identifier `id`, and whether there was one.
pub open spec fn bucket_remove(b: Seq<Contact>, id: Seq<u8>) -> (Seq<Contact>, bool) {
    match id_position(b, id) {
        Some(i) => (b.remove(i), true),
        None => (b, false),
    }
}

/// The buckets' contacts one after another.
pub open spec fn concat_all(s: Seq<Seq<Contact>>) -> Seq<Contact>
    decreases s.len(),
{
    if s.len() == 0 {
        Seq::empty()
    } else {
        concat_all(s.drop_last()) + s.last()
    }
}

/// The distance of a contact to a target.
pub open spec fn dist(c: Contact, target: Seq<u8>) -> Seq<u8> {
    xor_bytes(c.node_id@, target)
}

/// Contacts in order of increasing distance to the target.
pub open spec fn sorted_by_dist(s: Seq<Contact>, target: Seq<u8>) -> bool {
    forall|i: int, j: int|
        0 <= i < j < s.len() ==> !lex_lt(#[trigger] dist(s[j], target), #[trigger] dist(s[i], target))
}

/// `res` is the `count` contacts of `all` closest to the target, closest
/// first: a prefix of `all` sorted by distance.
pub open spec fn closest_contacts(all: Seq<Contact>, target: Seq<u8>, count: int, res: Seq<Contact>) -> bool {
    &&& res.len() == if count < all.len() { count } else { all.len() as int }
    &&& exists|s: Seq<Contact>|
        #![trigger s.to_multiset()]
        s.to_multiset() == all.to_multiset() && sorted_by_dist(s, target) && res == s.take(res.len() as int)
}

/// Whether the contacts of a bucket are well formed: at most k of them, all
/// with the bucket's index from `local`, and no identifier twice.
pub open spec fn bucket_wf(local: NodeId, index: int, s: Seq<Contact>) -> bool {
    &&& s.len() <= K
    &&& forall|i: int| 0 <= i < s.len() ==> highest_set_bit(xor_bytes(local@, #[trigger] s[i].node_id@)) == Some(index)
    &&& forall|i: int, j: int| 0 <= i < j < s.len() ==> #[trigger] s[i].node_id@ != #[trigger] s[j].node_id@
}

/// A k-bucket stores up to k contacts, least recently seen first.
#[derive(Clone)]
struct KBucket {
    contacts: Vec<Contact>,
}

impl KBucket {
    fn new() -> (b: KBucket)
        ensures
            b.contacts@ == Seq::<Contact>::empty(),
    {
        KBucket { contacts: Vec::new() }
    }

    fn position(&self, node_id: &NodeId) -> (r: Option<usize>)
        ensures
            r matches Some(i) ==> id_position(self.contacts@, node_id@) == Some(i as int),
            r is None ==> id_position(self.contacts@, node_id@) is None,
    {
        let ghost s = self.contacts@;
        let ghost id = node_id@;
        let mut i: usize = 0;
        while i < self.contacts.len()
            invariant
                0 <= i <= s.len(),
                s == self.contacts@,
                id == node_id@,
                forall|j: int| 0 <= j < i ==> s[j].node_id@ != id,
            decreases s.len() - i,
        {
            if self.contacts[i].node_id == *node_id {
                assert(first_with_id(s, id, i as int));
                proof {
                    let k = choose|k: int| first_with_id(s, id, k);
                    assert(k == i as int);
                }
                return Some(i);
            }
            i += 1;
        }
        None
    }

    fn add_contact(&mut self, contact: Contact, now: u64) -> (added: bool)
        ensures
            (final(self).contacts@, added) == bucket_add(old(self).contacts@, contact, now),
    {
        match self.position(&contact.node_id) {
            Some(pos) => {
                let mut existing = self.contacts.remove(pos);
                existing.update_last_seen_at(now);
                self.contacts.push(existing);
                true
            },
            None => {
                if self.contacts.len() < K {
                    self.contacts.push(contact);
                    true
                } else {
                    false
                }
            },
        }
    }

    fn remove_contact(&mut self, node_id: &NodeId) -> (removed: bool)
        ensures
            (final(self).contacts@, removed) == bucket_remove(old(self).contacts@, node_id@),
    {
        match self.position(node_id) {
            Some(pos) => {
                self.contacts.remove(pos);
                true
            },
            None => false,
        }
    }

    fn get_contacts(&self) -> (r: Vec<Contact>)
        ensures
            r@ == self.contacts@,
    {
        let mut r: Vec<Contact> = Vec::new();
        for i in 0..self.contacts.len()
            invariant
                r@ == self.contacts@.take(i as int),
        {
            r.push(self.contacts[i]);
            assert(r@ =~= self.contacts@.take(i + 1));
        }
        assert(self.contacts@.take(self.contacts@.len() as int) =~= self.contacts@);
        r
    }
}

/// Adding to a well-formed bucket a contact of that bucket keeps it well formed.
proof fn lemma_bucket_add_wf(local: NodeId, index: int, b: Seq<Contact>, c: Contact, now: u64)
    requires
        bucket_wf(local, index, b),
        highest_set_bit(xor_bytes(local@, c.node_id@)) == Some(index),
    ensures
        bucket_wf(local, index, bucket_add(b, c, now).0),
{
    let r = bucket_add(b, c, now).0;
    match id_position(b, c.node_id@) {
        Some(p) => {
            let k = choose|i: int| first_with_id(b, c.node_id@, i);
            assert(first_with_id(b, c.node_id@, k));
            let rest = b.remove(p);
            assert forall|i: int, j: int| 0 <= i < j < r.len() implies #[trigger] r[i].node_id@ != #[trigger] r[j].node_id@ by {
                if j == r.len() - 1 {
                    if i < p {
                        assert(r[i] == b[i]);
                    } else {
                        assert(r[i] == b[i + 1]);
                    }
                } else {
                    let bi = if i < p { i } else { i + 1 };
                    let bj = if j < p { j } else { j + 1 };
                    assert(r[i] == b[bi]);
                    assert(r[j] == b[bj]);
                }
            }
            assert forall|i: int| 0 <= i < r.len() implies highest_set_bit(xor_bytes(local@, #[trigger] r[i].node_id@)) == Some(index) by {
                if i == r.len() - 1 {
                } else if i < p {
                    assert(r[i] == b[i]);
                } else {
                    assert(r[i] == b[i + 1]);
                }
            }
        },
        None => {
            if b.len() < K {
                assert forall|i: int, j: int| 0 <= i < j < r.len() implies #[trigger] r[i].node_id@ != #[trigger] r[j].node_id@ by {
                    if j == r.len() - 1 {
                        if r[i].node_id@ == c.node_id@ {
                            assert(exists|q: int| 0 <= q < b.len() && b[q].node_id@ == c.node_id@);
                            lemma_first_exists(b, c.node_id@, i);
                        }
                    }
                }
            }
        },
    }
}

/// The k-bucket rule. In a bucket of at most k contacts with distinct
/// identifiers, adding a contact succeeds exactly when its identifier is
/// already there (that entry moves to the back, keeping its address, marked as
/// seen now) or the bucket has room (the contact goes at the back); a refused
/// contact leaves the bucket as it was. The bucket still holds at most k
/// contacts with distinct identifiers.
pub proof fn lemma_bucket_add_rule(b: Seq<Contact>, c: Contact, now: u64)
    requires
        b.len() <= K,
        forall|i: int, j: int| 0 <= i < j < b.len() ==> #[trigger] b[i].node_id@ != #[trigger] b[j].node_id@,
    ensures
        bucket_add(b, c, now).1 <==> ((exists|i: int| 0 <= i < b.len() && #[trigger] b[i].node_id@ == c.node_id@) || b.len() < K),
        forall|i: int| 0 <= i < b.len() && #[trigger] b[i].node_id@ == c.node_id@ ==> bucket_add(b, c, now).0 == b.remove(i).push(
            seen_at(b[i], now),
        ),
        (forall|i: int| 0 <= i < b.len() ==> #[trigger] b[i].node_id@ != c.node_id@) && b.len() < K ==> bucket_add(b, c, now).0
            == b.push(c),
        !bucket_add(b, c, now).1 ==> bucket_add(b, c, now).0 == b,
        bucket_add(b, c, now).0.len() <= K,
        forall|i: int, j: int|
            0 <= i < j < bucket_add(b, c, now).0.len() ==> #[trigger] bucket_add(b, c, now).0[i].node_id@
                != #[trigger] bucket_add(b, c, now).0[j].node_id@,
{
    let r = bucket_add(b, c, now).0;
    match id_position(b, c.node_id@) {
        Some(p) => {
            let k = choose|i: int| first_with_id(b, c.node_id@, i);
            assert(first_with_id(b, c.node_id@, k));
            assert forall|i: int| 0 <= i < b.len() && #[trigger] b[i].node_id@ == c.node_id@ implies i == p by {
                if i < p {
                    assert(b[i].node_id@ != c.node_id@);
                } else if i > p {
                    assert(b[p].node_id@ != b[i].node_id@);
                }
            }
            assert(b[p].node_id@ == c.node_id@);
            assert forall|i: int, j: int| 0 <= i < j < r.len() implies #[trigger] r[i].node_id@ != #[trigger] r[j].node_id@ by {
                if j == r.len() - 1 {
                    if i < p {
                        assert(r[i] == b[i]);
                    } else {
                        assert(r[i] == b[i + 1]);
                    }
                } else {
                    let bi = if i < p { i } else { i + 1 };
                    let bj = if j < p { j } else { j + 1 };
                    assert(r[i] == b[bi]);
                    assert(r[j] == b[bj]);
                }
            }
        },
        None => {
            assert forall|i: int| 0 <= i < b.len() implies #[trigger] b[i].node_id@ != c.node_id@ by {
                if b[i].node_id@ == c.node_id@ {
                    lemma_first_exists(b, c.node_id@, i);
                }
            }
            if b.len() < K {
                assert forall|i: int, j: int| 0 <= i < j < r.len() implies #[trigger] r[i].node_id@ != #[trigger] r[j].node_id@ by {
                    if j == r.len() - 1 {
                        assert(r[i] == b[i]);
                    } else {
                        assert(r[i] == b[i]);
                        assert(r[j] == b[j]);
                    }
                }
            }
        },
    }
}

/// Every bucket of a table holds at most k contacts, with distinct identifiers.
pub proof fn lemma_bucket_limits(t: RoutingTable)
    requires
        t.wf(),
    ensures
        forall|b: int| 0 <= b < BUCKET_COUNT ==> (#[trigger] t.bucket_seqs()[b]).len() <= K,
        forall|b: int, i: int, j: int|
            0 <= b < BUCKET_COUNT && 0 <= i < j < t.bucket_seqs()[b].len() ==> #[trigger] t.bucket_seqs()[b][i].node_id@
                != #[trigger] t.bucket_seqs()[b][j].node_id@,
{
    assert forall|b: int, i: int, j: int|
        0 <= b < BUCKET_COUNT && 0 <= i < j < t.bucket_seqs()[b].len() implies #[trigger] t.bucket_seqs()[b][i].node_id@
            != #[trigger] t.bucket_seqs()[b][j].node_id@ by {
        assert(bucket_wf(t.local(), b, t.bucket_seqs()[b]));
    }
}

/// Identifiers at the same distance from a target are equal.
proof fn lemma_xor_injective(a: Seq<u8>, b: Seq<u8>, t: Seq<u8>)
    requires
        a.len() == t.len(),
        b.len() == t.len(),
        xor_bytes(a, t) == xor_bytes(b, t),
    ensures
        a == b,
{
    assert forall|i: int| 0 <= i < a.len() implies a[i] == b[i] by {
        let x = a[i];
        let y = b[i];
        let z = t[i];
        assert(xor_bytes(a, t)[i] == x ^ z);
        assert(xor_bytes(b, t)[i] == y ^ z);
        assert(x ^ z == y ^ z ==> x == y) by (bit_vector);
    }
    assert(a =~= b);
}

/// The closest-contacts law. What `find_closest_contacts` returns are
/// contacts of the table, no identifier twice, strictly closer to the target
/// than those after them; and every contact of the table left out is farther
/// than the last one returned.
pub proof fn lemma_closest_law(t: RoutingTable, target: Seq<u8>, count: int, res: Seq<Contact>)
    requires
        t.wf(),
        target.len() == 20,
        closest_contacts(t.all_contacts(), target, count, res),
    ensures
        forall|i: int| 0 <= i < res.len() ==> t.all_contacts().contains(#[trigger] res[i]),
        forall|i: int, j: int| 0 <= i < j < res.len() ==> #[trigger] res[i].node_id@ != #[trigger] res[j].node_id@,
        forall|i: int, j: int| 0 <= i < j < res.len() ==> lex_lt(dist(#[trigger] res[i], target), dist(#[trigger] res[j], target)),
        res.len() > 0 ==> forall|c: Contact|
            #[trigger] t.all_contacts().contains(c) && !res.contains(c) ==> lex_lt(dist(res.last(), target), dist(c, target)),
{
    let all = t.all_contacts();
    lemma_ids_distinct(t);
    let s = choose|s: Seq<Contact>|
        #![trigger s.to_multiset()]
        s.to_multiset() == all.to_multiset() && sorted_by_dist(s, target) && res == s.take(res.len() as int);
    assert(all.no_duplicates()) by {
        assert forall|i: int, j: int| 0 <= i < all.len() && 0 <= j < all.len() && i != j implies all[i] != all[j] by {
            if i < j {
                assert(all[i].node_id@ != all[j].node_id@);
            } else {
                assert(all[j].node_id@ != all[i].node_id@);
            }
        }
    }
    all.lemma_multiset_has_no_duplicates();
    s.lemma_multiset_has_no_duplicates_conv();
    vstd::seq_lib::to_multiset_len(s);
    vstd::seq_lib::to_multiset_len(all);
    assert(res.len() <= s.len());
    assert forall|x: Contact| s.contains(x) <==> all.contains(x) by {
        vstd::seq_lib::to_multiset_contains(s, x);
        vstd::seq_lib::to_multiset_contains(all, x);
    }
    // Positions of `s` hold contacts of distinct identifiers.
    assert forall|i: int, j: int| 0 <= i < j < s.len() implies #[trigger] s[i].node_id@ != #[trigger] s[j].node_id@ by {
        assert(s.contains(s[i]) && s.contains(s[j]));
        let a = choose|a: int| 0 <= a < all.len() && all[a] == s[i];
        let b = choose|b: int| 0 <= b < all.len() && all[b] == s[j];
        if a < b {
            assert(all[a].node_id@ != all[b].node_id@);
        } else if b < a {
            assert(all[b].node_id@ != all[a].node_id@);
        }
    }
    // Distinct identifiers are at distinct distances, so the order is strict.
    assert forall|i: int, j: int| 0 <= i < j < s.len() implies lex_lt(dist(#[trigger] s[i], target), dist(#[trigger] s[j], target)) by {
        let di = dist(s[i], target);
        let dj = dist(s[j], target);
        lemma_lex_order(di, dj, dj);
        if di =~= dj {
            lemma_xor_injective(s[i].node_id@, s[j].node_id@, target);
        }
    }
    assert forall|i: int| 0 <= i < res.len() implies all.contains(#[trigger] res[i]) by {
        assert(res[i] == s[i]);
        assert(s.contains(s[i]));
    }
    assert forall|i: int, j: int| 0 <= i < j < res.len() implies #[trigger] res[i].node_id@ != #[trigger] res[j].node_id@ by {
        assert(res[i] == s[i] && res[j] == s[j]);
    }
    assert forall|i: int, j: int| 0 <= i < j < res.len() implies lex_lt(dist(#[trigger] res[i], target), dist(#[trigger] res[j], target)) by {
        assert(res[i] == s[i] && res[j] == s[j]);
    }
    if res.len() > 0 {
        let n = res.len() as int;
        assert forall|c: Contact| #[trigger] all.contains(c) && !res.contains(c) implies lex_lt(dist(res.last(), target), dist(c, target)) by {
            assert(s.contains(c));
            let k = choose|k: int| 0 <= k < s.len() && s[k] == c;
            if k < n {
                assert(res[k] == c);
            }
            assert(res.last() == s[n - 1]);
            assert(lex_lt(dist(s[n - 1], target), dist(s[k], target)));
        }
    }
}

/// If some contact has the identifier, a first one does.
proof fn lemma_first_exists(s: Seq<Contact>, id: Seq<u8>, i: int)
    requires
        0 <= i < s.len(),
        s[i].node_id@ == id,
    ensures
        id_position(s, id) is Some,
    decreases i,
{
    if forall|j: int| 0 <= j < i ==> s[j].node_id@ != id {
        assert(first_with_id(s, id, i));
    } else {
        let j2 = choose|j: int| 0 <= j < i && s[j].node_id@ == id;
        lemma_first_exists(s, id, j2);
    }
}

/// Removing from a well-formed bucket keeps it well formed.
proof fn lemma_bucket_remove_wf(local: NodeId, index: int, b: Seq<Contact>, id: Seq<u8>)
    requires
        bucket_wf(local, index, b),
    ensures
        bucket_wf(local, index, bucket_remove(b, id).0),
{
    match id_position(b, id) {
        Some(p) => {
            let k = choose|i: int| first_with_id(b, id, i);
            assert(first_with_id(b, id, k));
            let r = b.remove(p);
            assert forall|i: int, j: int| 0 <= i < j < r.len() implies #[trigger] r[i].node_id@ != #[trigger] r[j].node_id@ by {
                let bi = if i < p { i } else { i + 1 };
                let bj = if j < p { j } else { j + 1 };
                assert(r[i] == b[bi]);
                assert(r[j] == b[bj]);
            }
            assert forall|i: int| 0 <= i < r.len() implies highest_set_bit(xor_bytes(local@, #[trigger] r[i].node_id@)) == Some(index) by {
                if i < p {
                    assert(r[i] == b[i]);
                } else {
                    assert(r[i] == b[i + 1]);
                }
            }
        },
        None => {},
    }
}

/// Routing table of the DHT: one k-bucket per bit of the identifier space,
/// bucket `i` holding contacts whose distance from the local identifier has its
/// highest set bit at position `i`.
pub struct RoutingTable {
    local_id: NodeId,
    buckets: Vec<KBucket>,
}

impl RoutingTable {
    /// The local identifier.
    pub closed spec fn local(&self) -> NodeId {
        self.local_id
    }

    /// The contacts of each bucket.
    pub closed spec fn bucket_seqs(&self) -> Seq<Seq<Contact>> {
        Seq::new(self.buckets@.len(), |i: int| self.buckets@[i].contacts@)
    }

    /// All contacts, bucket after bucket.
    pub open spec fn all_contacts(&self) -> Seq<Contact> {
        concat_all(self.bucket_seqs())
    }

    /// Well-formedness: 160 well-formed buckets.
    pub open spec fn wf(&self) -> bool {
        &&& self.bucket_seqs().len() == BUCKET_COUNT
        &&& forall|b: int| 0 <= b < BUCKET_COUNT ==> bucket_wf(self.local(), b, #[trigger] self.bucket_seqs()[b])
    }

    /// An empty routing table for `local_id`.
    pub fn new(local_id: NodeId) -> (t: RoutingTable)
        ensures
            t.wf(),
            t.local() == local_id,
            forall|b: int| 0 <= b < BUCKET_COUNT ==> #[trigger] t.bucket_seqs()[b].len() == 0,
    {
        let mut buckets: Vec<KBucket> = Vec::with_capacity(BUCKET_COUNT);
        let mut i: usize = 0;
        while i < BUCKET_COUNT
            invariant
                0 <= i <= BUCKET_COUNT,
                buckets@.len() == i,
                forall|b: int| 0 <= b < i ==> #[trigger] buckets@[b].contacts@.len() == 0,
            decreases BUCKET_COUNT - i,
        {
            let nb = KBucket::new();
            let ghost prev = buckets@;
            buckets.push(nb);
            assert(buckets@ == prev.push(nb));
            assert(nb.contacts@.len() == 0);
            assert(buckets@[i as int].contacts@.len() == 0);
            assert forall|b: int| 0 <= b < i + 1 implies #[trigger] buckets@[b].contacts@.len() == 0 by {
                if b < i {
                    assert(buckets@[b] == prev[b]);
                    assert(prev[b].contacts@.len() == 0);
                }
            }
            i += 1;
        }
        let t = RoutingTable { local_id, buckets };
        assert forall|b: int| 0 <= b < BUCKET_COUNT implies bucket_wf(t.local(), b, #[trigger] t.bucket_seqs()[b]) by {
            assert(t.bucket_seqs()[b] == t.buckets@[b].contacts@);
        }
        t
    }

    /// Add or refresh a contact, seen now; see `add_contact_at`.
    pub fn add_contact(&mut self, contact: Contact) -> (added: bool)
        requires
            old(self).wf(),
        ensures
            final(self).wf(),
            final(self).local() == old(self).local(),
            exists|now: u64| #[trigger] add_result(*old(self), *final(self), contact, now, added),
    {
        let now = now_millis();
        self.add_contact_at(contact, now)
    }

    /// Add or refresh a contact seen at `now`. The local identifier is never
    /// added; otherwise the contact's bucket changes as `bucket_add` says and
    /// every other bucket stays as it was.
    pub fn add_contact_at(&mut self, contact: Contact, now: u64) -> (added: bool)
        requires
            old(self).wf(),
        ensures
            final(self).wf(),
            final(self).local() == old(self).local(),
            add_result(*old(self), *final(self), contact, now, added),
    {
        if contact.node_id == self.local_id {
            proof {
                crate::node_id::lemma_distance_laws(self.local_id, contact.node_id);
            }
            return false;
        }
        match self.local_id.bucket_index(&contact.node_id) {
            Some(b) => {
                proof {
                    assert(b < BUCKET_COUNT) by {
                        lemma_bucket_index_bound(xor_bytes(self.local_id@, contact.node_id@));
                    }
                    lemma_bucket_add_wf(self.local_id, b as int, self.bucket_seqs()[b as int], contact, now);
                }
                let ghost before = self.bucket_seqs();
                let added = self.buckets[b].add_contact(contact, now);
                proof {
                    assert(self.bucket_seqs() =~= before.update(b as int, bucket_add(before[b as int], contact, now).0));
                }
                added
            },
            None => {
                proof {
                    crate::node_id::lemma_distance_laws(self.local_id, contact.node_id);
                }
                false
            },
        }
    }

    /// Remove the contact with identifier `node_id`; whether there was one.
    pub fn remove_contact(&mut self, node_id: &NodeId) -> (removed: bool)
        requires
            old(self).wf(),
        ensures
            final(self).wf(),
            final(self).local() == old(self).local(),
            match highest_set_bit(xor_bytes(old(self).local()@, node_id@)) {
                Some(b) => {
                    &&& 0 <= b < BUCKET_COUNT
                    &&& final(self).bucket_seqs() == old(self).bucket_seqs().update(b, bucket_remove(old(self).bucket_seqs()[b], node_id@).0)
                    &&& removed == bucket_remove(old(self).bucket_seqs()[b], node_id@).1
                },
                None => final(self).bucket_seqs() == old(self).bucket_seqs() && !removed,
            },
    {
        match self.local_id.bucket_index(node_id) {
            Some(b) => {
                proof {
                    assert(b < BUCKET_COUNT) by {
                        lemma_bucket_index_bound(xor_bytes(self.local_id@, node_id@));
                    }
                    lemma_bucket_remove_wf(self.local_id, b as int, self.bucket_seqs()[b as int], node_id@);
                }
                let ghost before = self.bucket_seqs();
                let removed = self.buckets[b].remove_contact(node_id);
                proof {
                    assert(self.bucket_seqs() =~= before.update(b as int, bucket_remove(before[b as int], node_id@).0));
                }
                removed
            },
            None => false,
        }
    }
}

impl RoutingTable {
    /// The number of contacts.
    pub fn contact_count(&self) -> (n: usize)
        requires
            self.wf(),
        ensures
            n == self.all_contacts().len(),
    {
        let ghost bs = self.bucket_seqs();
        let mut n: usize = 0;
        for i in 0..self.buckets.len()
            invariant
                self.wf(),
                bs == self.bucket_seqs(),
                self.buckets@.len() == BUCKET_COUNT,
                n == concat_all(bs.take(i as int)).len(),
                n <= K * i,
        {
            proof {
                assert(bs.take(i + 1).drop_last() =~= bs.take(i as int));
                assert(bs[i as int] == self.buckets@[i as int].contacts@);
                assert(bucket_wf(self.local(), i as int, bs[i as int]));
            }
            n = n + self.buckets[i].contacts.len();
        }
        assert(bs.take(BUCKET_COUNT as int) =~= bs);
        n
    }

    /// All contacts, bucket after bucket, least recently seen first in each.
    pub fn get_all_contacts(&self) -> (r: Vec<Contact>)
        requires
            self.wf(),
        ensures
            r@ == self.all_contacts(),
    {
        let ghost bs = self.bucket_seqs();
        let mut r: Vec<Contact> = Vec::new();
        for i in 0..self.buckets.len()
            invariant
                bs == self.bucket_seqs(),
                self.buckets@.len() == BUCKET_COUNT,
                r@ == concat_all(bs.take(i as int)),
        {
            proof {
                assert(bs.take(i + 1).drop_last() =~= bs.take(i as int));
                assert(bs[i as int] == self.buckets@[i as int].contacts@);
            }
            let mut contacts = self.buckets[i].get_contacts();
            r.append(&mut contacts);
        }
        assert(bs.take(BUCKET_COUNT as int) =~= bs);
        r
    }

    /// The `count` contacts closest to `target` by XOR distance, closest first.
    pub fn find_closest_contacts(&self, target: &NodeId, count: usize) -> (r: Vec<Contact>)
        requires
            self.wf(),
        ensures
            closest_contacts(self.all_contacts(), target@, count as int, r@),
    {
        broadcast use vstd::seq_lib::group_to_multiset_ensures;

        let all = self.get_all_contacts();
        let ghost all_s = all@;
        let mut sorted = sort_by_distance(all, target);
        let ghost s = sorted@;
        if count < sorted.len() {
            sorted.truncate(count);
        }
        proof {
            s.to_multiset_ensures();
            all_s.to_multiset_ensures();
            assert(s.len() == all_s.len());
            assert(sorted@ =~= s.take(sorted@.len() as int));
            assert(s.to_multiset() == all_s.to_multiset() && sorted_by_dist(s, target@));
            assert(all_s == self.all_contacts());
        }
        sorted
    }
}

/// Identifiers are distinct across the whole table, so contacts have distinct
/// distances to any target and the closest contacts are determined uniquely.
pub proof fn lemma_ids_distinct(t: RoutingTable)
    requires
        t.wf(),
    ensures
        forall|i: int, j: int|
            0 <= i < j < t.all_contacts().len() ==> #[trigger] t.all_contacts()[i].node_id@
                != #[trigger] t.all_contacts()[j].node_id@,
{
    lemma_concat_distinct(t, t.bucket_seqs().len() as int);
    assert(t.bucket_seqs().take(t.bucket_seqs().len() as int) =~= t.bucket_seqs());
}

proof fn lemma_concat_distinct(t: RoutingTable, n: int)
    requires
        t.wf(),
        0 <= n <= BUCKET_COUNT,
    ensures
        forall|i: int, j: int|
            0 <= i < j < concat_all(t.bucket_seqs().take(n)).len() ==> #[trigger] concat_all(t.bucket_seqs().take(n))[i].node_id@
                != #[trigger] concat_all(t.bucket_seqs().take(n))[j].node_id@,
        forall|i: int|
            0 <= i < concat_all(t.bucket_seqs().take(n)).len() ==> exists|b: int|
                0 <= b < n && #[trigger] highest_set_bit(xor_bytes(t.local()@, concat_all(t.bucket_seqs().take(n))[i].node_id@)) == Some(b),
    decreases n,
{
    let bs = t.bucket_seqs();
    if n > 0 {
        lemma_concat_distinct(t, n - 1);
        assert(bs.take(n).drop_last() =~= bs.take(n - 1));
        let prev = concat_all(bs.take(n - 1));
        let cur = concat_all(bs.take(n));
        let last = bs[n - 1];
        assert(cur =~= prev + last);
        assert(bucket_wf(t.local(), n - 1, last));
        assert forall|i: int| 0 <= i < cur.len() implies exists|b: int|
            0 <= b < n && #[trigger] highest_set_bit(xor_bytes(t.local()@, cur[i].node_id@)) == Some(b) by {
            if i >= prev.len() {
                assert(cur[i] == last[i - prev.len()]);
            } else {
                assert(cur[i] == prev[i]);
            }
        }
        assert forall|i: int, j: int| 0 <= i < j < cur.len() implies #[trigger] cur[i].node_id@ != #[trigger] cur[j].node_id@ by {
            if j >= prev.len() {
                assert(cur[j] == last[j - prev.len()]);
                if i >= prev.len() {
                    assert(cur[i] == last[i - prev.len()]);
                } else {
                    assert(cur[i] == prev[i]);
                    let b = choose|b: int| 0 <= b < n - 1 && #[trigger] highest_set_bit(xor_bytes(t.local()@, prev[i].node_id@)) == Some(b);
                }
            } else {
                assert(cur[i] == prev[i]);
                assert(cur[j] == prev[j]);
            }
        }
    } else {
        assert(bs.take(0) =~= Seq::<Seq<Contact>>::empty());
    }
}

/// Sort contacts by increasing distance to `target` (stable insertion sort).
fn sort_by_distance(v: Vec<Contact>, target: &NodeId) -> (r: Vec<Contact>)
    ensures
        r@.to_multiset() == v@.to_multiset(),
        sorted_by_dist(r@, target@),
{
    let mut r: Vec<Contact> = Vec::new();
    assert(r@ =~= v@.take(0));
    for i in 0..v.len()
        invariant
            r@.to_multiset() == v@.take(i as int).to_multiset(),
            sorted_by_dist(r@, target@),
    {
        let x = v[i];
        let dx = x.node_id.distance(target);
        let mut p: usize = 0;
        let mut stop = false;
        while p < r.len() && !stop
            invariant
                0 <= p <= r@.len(),
                dx@ == dist(x, target@),
                forall|q: int| 0 <= q < p ==> !lex_lt(dx@, #[trigger] dist(r@[q], target@)),
                stop ==> p < r@.len() && lex_lt(dx@, dist(r@[p as int], target@)),
            decreases 2 * (r@.len() - p) + if stop { 0int } else { 1int },
        {
            let dp = r[p].node_id.distance(target);
            if dx.less_than(&dp) {
                stop = true;
            } else {
                p += 1;
            }
        }
        let ghost old_r = r@;
        r.insert(p, x);
        proof {
            lemma_insert_sorted(old_r, p as int, x, target@);
            lemma_insert_multiset(old_r, p as int, x);
            assert(v@.take(i + 1) =~= v@.take(i as int).push(x));
            v@.take(i as int).to_multiset_ensures();
            assert(v@.take(i as int).push(x).to_multiset() =~= v@.take(i as int).to_multiset().insert(x));
        }
    }
    assert(v@.take(v@.len() as int) =~= v@);
    r
}

/// Inserting a contact before the first contact strictly farther than it keeps
/// a sorted sequence sorted, and adds the contact to its multiset.
proof fn lemma_insert_sorted(old_r: Seq<Contact>, p: int, x: Contact, target: Seq<u8>)
    requires
        0 <= p <= old_r.len(),
        target.len() == 20,
        sorted_by_dist(old_r, target),
        forall|q: int| 0 <= q < p ==> !lex_lt(dist(x, target), #[trigger] dist(old_r[q], target)),
        p < old_r.len() ==> lex_lt(dist(x, target), dist(old_r[p], target)),
    ensures
        sorted_by_dist(old_r.insert(p, x), target),
{
    let nr = old_r.insert(p, x);
    let dx = dist(x, target);
    old_r.insert_ensures(p, x);
    assert forall|a: int, b: int| 0 <= a < b < nr.len() implies !lex_lt(#[trigger] dist(nr[b], target), #[trigger] dist(nr[a], target)) by {
        if a < p && b < p {
            assert(nr[a] == old_r[a] && nr[b] == old_r[b]);
        } else if a < p && b == p {
            assert(nr[a] == old_r[a]);
        } else if a < p {
            assert(nr[a] == old_r[a] && nr[b] == old_r[b - 1]);
        } else if a == p {
            assert(nr[b] == old_r[b - 1]);
            let dp = dist(old_r[p], target);
            let db = dist(old_r[b - 1], target);
            lemma_lex_order(dx, dp, db);
            lemma_lex_order(dp, db, dx);
            lemma_lex_order(db, dx, dp);
        } else {
            assert(nr[a] == old_r[a - 1] && nr[b] == old_r[b - 1]);
        }
    }
}

/// Inserting an element adds it to the multiset.
proof fn lemma_insert_multiset(old_r: Seq<Contact>, p: int, x: Contact)
    requires
        0 <= p <= old_r.len(),
    ensures
        old_r.insert(p, x).to_multiset() == old_r.to_multiset().insert(x),
{
    let nr = old_r.insert(p, x);
    old_r.insert_ensures(p, x);
    assert(nr.remove(p) =~= old_r);
    assert(nr[p] == x);
    nr.to_multiset_ensures();
    assert(nr.remove(p).to_multiset() =~= nr.to_multiset().remove(nr[p]));
    assert(nr.contains(x));
    assert(nr.to_multiset().count(x) > 0);
    assert(nr.to_multiset() =~= old_r.to_multiset().insert(x));
}

/// The outcome of adding `contact` at `now` to table `old`, giving `new`.
pub open spec fn add_result(old: RoutingTable, new: RoutingTable, contact: Contact, now: u64, added: bool) -> bool {
    match highest_set_bit(xor_bytes(old.local()@, contact.node_id@)) {
        Some(b) => {
            &&& 0 <= b < BUCKET_COUNT
            &&& new.bucket_seqs() == old.bucket_seqs().update(b, bucket_add(old.bucket_seqs()[b], contact, now).0)
            &&& added == bucket_add(old.bucket_seqs()[b], contact, now).1
        },
        None => new.bucket_seqs() == old.bucket_seqs() && !added,
    }
}

/// A bucket index of a 20-byte distance is below 160.
pub proof fn lemma_bucket_index_bound(d: Seq<u8>)
    requires
        d.len() == 20,
    ensures
        highest_set_bit(d) matches Some(b) ==> 0 <= b < BUCKET_COUNT,
{
    lemma_highest_set_bit_bound(d);
}

proof fn lemma_highest_set_bit_bound(d: Seq<u8>)
    ensures
        highest_set_bit(d) matches Some(b) ==> 0 <= b < 8 * d.len(),
    decreases d.len(),
{
    if d.len() > 0 && d[0] == 0 {
        lemma_highest_set_bit_bound(d.drop_first());
    }
}

} // verus!
