//! A map keyed by short fixed-length byte strings (addresses, info-hashes, compact peers).
//!
//! The key is folded into a pair of integers, big-endian, which an ordered map then holds; keys
//! come out in ascending order of their bytes. The model is a `Map` from byte strings to values.

use std::collections::btree_map::Iter;
use std::collections::BTreeMap;
use vstd::prelude::*;

use crate::wire;

verus! {

/// Longest key that the integer pair can hold.
pub const MAX_KEY: usize = 20;

/// The integer pair that stands for a key: its first 16 bytes, then the rest.
pub open spec fn wide(s: Seq<u8>) -> (u128, u32) {
    if s.len() <= 16 {
        (wire::be_nat(s) as u128, 0)
    } else {
        (wire::be_nat(s.take(16)) as u128, wire::be_nat(s.skip(16)) as u32)
    }
}

proof fn pow256_monotone(a: nat, b: nat)
    requires
        a <= b,
    ensures
        wire::pow256(a) <= wire::pow256(b),
    decreases b,
{
    if a < b {
        pow256_monotone(a, (b - 1) as nat);
    }
}

proof fn be_nat_fits_u128(s: Seq<u8>)
    requires
        s.len() <= 16,
    ensures
        wire::be_nat(s) <= u128::MAX,
{
    wire::be_nat_bound(s);
    pow256_monotone(s.len(), 16);
    reveal_with_fuel(wire::pow256, 17);
}

proof fn be_nat_fits_u32(s: Seq<u8>)
    requires
        s.len() <= 4,
    ensures
        wire::be_nat(s) <= u32::MAX,
{
    wire::be_nat_bound(s);
    pow256_monotone(s.len(), 4);
    reveal_with_fuel(wire::pow256, 5);
}

/// Keys of one length are told apart by their integer pairs.
pub proof fn wide_injective(a: Seq<u8>, b: Seq<u8>)
    requires
        a.len() == b.len(),
        a.len() <= MAX_KEY,
        wide(a) == wide(b),
    ensures
        a == b,
{
    if a.len() <= 16 {
        be_nat_fits_u128(a);
        be_nat_fits_u128(b);
        wire::be_nat_injective(a, b);
    } else {
        be_nat_fits_u128(a.take(16));
        be_nat_fits_u128(b.take(16));
        be_nat_fits_u32(a.skip(16));
        be_nat_fits_u32(b.skip(16));
        wire::be_nat_injective(a.take(16), b.take(16));
        wire::be_nat_injective(a.skip(16), b.skip(16));
        assert(a =~= a.take(16) + a.skip(16));
        assert(b =~= b.take(16) + b.skip(16));
    }
}

/// Fold a key into its integer pair.
fn wide_key(b: &[u8]) -> (r: (u128, u32))
    requires
        b@.len() <= MAX_KEY,
    ensures
        r == wide(b@),
{
    let split: usize = if b.len() <= 16 {
        b.len()
    } else {
        16
    };
    let mut hi: u128 = 0;
    let mut i: usize = 0;
    while i < split
        invariant
            i <= split <= 16,
            split <= b@.len(),
            hi == wire::be_nat(b@.take(i as int)),
        decreases split - i,
    {
        proof {
            assert(b@.take(i as int + 1) =~= b@.take(i as int).push(b@[i as int]));
            wire::be_nat_push(b@.take(i as int), b@[i as int]);
            be_nat_fits_u128(b@.take(i as int + 1));
        }
        hi = hi * 256 + b[i] as u128;
        i = i + 1;
    }
    let mut lo: u32 = 0;
    while i < b.len()
        invariant
            split <= i <= b@.len() <= MAX_KEY,
            b@.len() > 16 ==> split == 16,
            b@.len() <= 16 ==> split == b@.len(),
            lo == wire::be_nat(b@.subrange(split as int, i as int)),
        decreases b@.len() - i,
    {
        proof {
            assert(b@.subrange(split as int, i as int + 1) =~= b@.subrange(
                split as int,
                i as int,
            ).push(b@[i as int]));
            wire::be_nat_push(b@.subrange(split as int, i as int), b@[i as int]);
            be_nat_fits_u32(b@.subrange(split as int, i as int + 1));
        }
        lo = lo * 256 + b[i] as u32;
        i = i + 1;
    }
    proof {
        if b@.len() <= 16 {
            assert(b@.take(split as int) =~= b@);
        } else {
            assert(b@.subrange(16, b@.len() as int) =~= b@.skip(16));
        }
    }
    (hi, lo)
}

/// Ascending order of keys.
pub open spec fn before(a: Seq<u8>, b: Seq<u8>) -> bool {
    wide(a).0 < wide(b).0 || (wide(a).0 == wide(b).0 && wide(a).1 < wide(b).1)
}

/// Whether `ks` holds the members of `dom`, each once, in ascending order.
pub open spec fn is_listing(ks: Seq<Seq<u8>>, dom: Set<Seq<u8>>) -> bool {
    &&& forall|i: int| 0 <= i < ks.len() ==> dom.contains(#[trigger] ks[i])
    &&& forall|k: Seq<u8>| #[trigger] dom.contains(k) ==> ks.contains(k)
    &&& forall|i: int, j: int|
        0 <= i < j < ks.len() ==> before(#[trigger] ks[i], #[trigger] ks[j])
}

/// The members of `dom` in ascending order.
pub open spec fn listing(dom: Set<Seq<u8>>) -> Seq<Seq<u8>> {
    choose|ks: Seq<Seq<u8>>| is_listing(ks, dom)
}

proof fn listing_prefix(a: Seq<Seq<u8>>, b: Seq<Seq<u8>>, dom: Set<Seq<u8>>, n: int)
    requires
        is_listing(a, dom),
        is_listing(b, dom),
        0 <= n <= a.len(),
        n <= b.len(),
    ensures
        forall|i: int| 0 <= i < n ==> a[i] == b[i],
    decreases n,
{
    if n > 0 {
        listing_prefix(a, b, dom, n - 1);
        let i = n - 1;
        assert(dom.contains(a[i]));
        assert(dom.contains(b[i]));
        let j = choose|j: int| 0 <= j < b.len() && b[j] == a[i];
        let k = choose|k: int| 0 <= k < a.len() && a[k] == b[i];
        assert(b[j] == a[i]);
        assert(a[k] == b[i]);
        if j < i {
            assert(a[j] == a[i]);
            assert(before(a[j], a[i]));
        }
        if k < i {
            assert(b[k] == b[i]);
            assert(before(b[k], b[i]));
        }
        if j > i {
            assert(before(b[i], b[j]));
            if k > i {
                assert(before(a[i], a[k]));
            }
        }
    }
}

/// There is only one ascending listing of a set of keys.
pub proof fn listing_unique(ks: Seq<Seq<u8>>, dom: Set<Seq<u8>>)
    requires
        is_listing(ks, dom),
    ensures
        listing(dom) == ks,
{
    let c = listing(dom);
    assert(is_listing(c, dom));
    if ks.len() < c.len() {
        listing_prefix(ks, c, dom, ks.len() as int);
        assert(dom.contains(c[ks.len() as int]));
        let j = choose|j: int| 0 <= j < ks.len() && ks[j] == c[ks.len() as int];
        assert(c[j] == c[ks.len() as int]);
        assert(before(c[j], c[ks.len() as int]));
    } else if c.len() < ks.len() {
        listing_prefix(ks, c, dom, c.len() as int);
        assert(dom.contains(ks[c.len() as int]));
        let j = choose|j: int| 0 <= j < c.len() && c[j] == ks[c.len() as int];
        assert(ks[j] == ks[c.len() as int]);
        assert(before(ks[j], ks[c.len() as int]));
    } else {
        listing_prefix(ks, c, dom, c.len() as int);
        assert(ks =~= c);
    }
}

/// A listing has as many items as the set.
pub proof fn listing_len(dom: Set<Seq<u8>>)
    requires
        is_listing(listing(dom), dom),
    ensures
        listing(dom).len() == dom.len(),
        dom.finite(),
{
    let ks = listing(dom);
    assert(ks.no_duplicates()) by {
        assert forall|i: int, j: int| 0 <= i < ks.len() && 0 <= j < ks.len() && i != j implies ks[i]
            != ks[j] by {
            if i < j {
                assert(before(ks[i], ks[j]));
            } else {
                assert(before(ks[j], ks[i]));
            }
        }
    }
    ks.unique_seq_to_set();
    assert(ks.to_set() =~= dom);
}

/// Every finite set of keys of one length has a listing.
pub proof fn listing_exists(dom: Set<Seq<u8>>, n: nat)
    requires
        dom.finite(),
        n <= MAX_KEY,
        forall|k: Seq<u8>| #[trigger] dom.contains(k) ==> k.len() == n,
    ensures
        is_listing(listing(dom), dom),
    decreases dom.len(),
{
    if dom.len() == 0 {
        assert(is_listing(Seq::empty(), dom));
    } else {
        let k = dom.choose();
        let rest = dom.remove(k);
        listing_exists(rest, n);
        let ks = listing(rest);
        listing_insert(ks, rest, k, n, 0);
    }
}

/// A key that comes after the first `i` of a listing finds its place in it.
proof fn listing_insert(ks: Seq<Seq<u8>>, dom: Set<Seq<u8>>, k: Seq<u8>, n: nat, i: int)
    requires
        is_listing(ks, dom),
        !dom.contains(k),
        k.len() == n,
        n <= MAX_KEY,
        forall|x: Seq<u8>| #[trigger] dom.contains(x) ==> x.len() == n,
        0 <= i <= ks.len(),
        forall|j: int| 0 <= j < i ==> before(#[trigger] ks[j], k),
    ensures
        exists|r: Seq<Seq<u8>>| is_listing(r, dom.insert(k)),
    decreases ks.len() - i,
{
    if i < ks.len() && !before(k, ks[i]) {
        assert(dom.contains(ks[i]));
        if wide(ks[i]) == wide(k) {
            wide_injective(ks[i], k);
        }
        listing_insert(ks, dom, k, n, i + 1);
    } else {
        let r = ks.insert(i, k);
        let grown = dom.insert(k);
        assert forall|j: int| 0 <= j < r.len() implies grown.contains(#[trigger] r[j]) by {
            if j < i {
                assert(dom.contains(ks[j]));
            } else if j > i {
                assert(dom.contains(ks[j - 1]));
            }
        }
        assert forall|x: Seq<u8>| #[trigger] grown.contains(x) implies r.contains(x) by {
            if x == k {
                assert(r[i] == k);
            } else {
                assert(dom.contains(x));
                let j = choose|j: int| 0 <= j < ks.len() && ks[j] == x;
                if j < i {
                    assert(r[j] == x);
                } else {
                    assert(r[j + 1] == x);
                }
            }
        }
        assert forall|a: int, b: int| 0 <= a < b < r.len() implies before(
            #[trigger] r[a],
            #[trigger] r[b],
        ) by {
            let fa = if a < i { a } else { a - 1 };
            let fb = if b < i { b } else { b - 1 };
            if a == i {
                assert(before(k, ks[i]));
                if fb > i {
                    assert(before(ks[i], ks[fb]));
                }
            } else if b == i {
                assert(before(ks[a], k));
            } else {
                assert(before(ks[fa], ks[fb]));
            }
        }
        assert(is_listing(r, grown));
    }
}

/// A map from `N`-byte keys to `V`.
pub struct ByteMap<const N: usize, V> {
    map: BTreeMap<(u128, u32), ([u8; N], V)>,
}

impl<const N: usize, V> View for ByteMap<N, V> {
    type V = Map<Seq<u8>, V>;

    closed spec fn view(&self) -> Map<Seq<u8>, V> {
        Map::new(
            |s: Seq<u8>| s.len() == N && self.map@.contains_key(wide(s)),
            |s: Seq<u8>| self.map@[wide(s)].1,
        )
    }
}

impl<const N: usize, V> ByteMap<N, V> {
    /// Every entry is filed under the integer pair of its key.
    pub closed spec fn wf(&self) -> bool {
        &&& N <= MAX_KEY
        &&& forall|k: (u128, u32)| #[trigger]
            self.map@.contains_key(k) ==> wide(self.map@[k].0@) == k
    }

    /// Keys have `N` bytes and there are finitely many.
    pub proof fn keys_finite(&self)
        requires
            self.wf(),
        ensures
            self@.dom().finite(),
            forall|s: Seq<u8>| #[trigger] self@.contains_key(s) ==> s.len() == N,
    {
        self.same_size();
    }

    /// The model has as many keys as the ordered map.
    proof fn same_size(&self)
        requires
            self.wf(),
        ensures
            self@.dom().finite(),
            self@.dom().len() == self.map@.dom().len(),
    {
        broadcast use vstd::std_specs::btree::group_btree_axioms;

        let f = |k: (u128, u32)| self.map@[k].0@;
        assert(self.map@.dom().finite());
        assert forall|x: (u128, u32), y: (u128, u32)|
            self.map@.dom().contains(x) && self.map@.dom().contains(y) && #[trigger] f(x)
                == #[trigger] f(y) implies x == y by {
            assert(self.map@.contains_key(x));
            assert(self.map@.contains_key(y));
        }
        assert(self.map@.dom().map(f) =~= self@.dom()) by {
            assert forall|s: Seq<u8>| #[trigger]
                self@.dom().contains(s) implies self.map@.dom().map(f).contains(s) by {
                let k = wide(s);
                assert(self.map@.contains_key(k));
                wide_injective(self.map@[k].0@, s);
                assert(f(k) == s);
            }
            assert forall|s: Seq<u8>| #[trigger]
                self.map@.dom().map(f).contains(s) implies self@.dom().contains(s) by {
                let k = choose|k: (u128, u32)| self.map@.dom().contains(k) && f(k) == s;
                assert(self.map@.contains_key(k));
            }
        }
        vstd::set_lib::lemma_map_size(self.map@.dom(), self@.dom(), f);
    }

    /// An empty map.
    pub fn new() -> (r: Self)
        requires
            N <= MAX_KEY,
        ensures
            r.wf(),
            r@ == Map::<Seq<u8>, V>::empty(),
    {
        let r = ByteMap { map: BTreeMap::new() };
        assert(r@ =~= Map::<Seq<u8>, V>::empty());
        r
    }

    /// Number of entries.
    pub fn len(&self) -> (r: usize)
        requires
            self.wf(),
        ensures
            r == self@.len(),
    {
        broadcast use vstd::std_specs::btree::group_btree_axioms;
        broadcast use vstd::laws_cmp::group_laws_cmp;

        proof {
            self.same_size();
        }
        self.map.len()
    }

    /// Look a key up.
    pub fn get(&self, key: &[u8; N]) -> (r: Option<&V>)
        requires
            self.wf(),
        ensures
            match r {
                Some(v) => self@.contains_key(key@) && *v == self@[key@],
                None => !self@.contains_key(key@),
            },
    {
        broadcast use vstd::std_specs::btree::group_btree_axioms;
        broadcast use vstd::laws_cmp::group_laws_cmp;

        let k = wide_key(key);
        match self.map.get(&k) {
            Some(entry) => Some(&entry.1),
            None => None,
        }
    }

    /// Add an entry or replace the value of a key.
    pub fn insert(&mut self, key: [u8; N], value: V)
        requires
            old(self).wf(),
        ensures
            final(self).wf(),
            final(self)@ == old(self)@.insert(key@, value),
    {
        broadcast use vstd::std_specs::btree::group_btree_axioms;
        broadcast use vstd::laws_cmp::group_laws_cmp;

        let k = wide_key(&key);
        self.map.insert(k, (key, value));
        proof {
            assert forall|s: Seq<u8>| s.len() == N && wide(s) == k implies s == key@ by {
                wide_injective(s, key@);
            }
            assert(self@ =~= old(self)@.insert(key@, value));
        }
    }

    /// Take an entry out.
    pub fn remove(&mut self, key: &[u8; N]) -> (r: Option<V>)
        requires
            old(self).wf(),
        ensures
            final(self).wf(),
            final(self)@ == old(self)@.remove(key@),
            match r {
                Some(v) => old(self)@.contains_key(key@) && v == old(self)@[key@],
                None => !old(self)@.contains_key(key@),
            },
    {
        broadcast use vstd::std_specs::btree::group_btree_axioms;
        broadcast use vstd::laws_cmp::group_laws_cmp;

        let k = wide_key(key);
        let r = self.map.remove(&k);
        proof {
            assert forall|s: Seq<u8>| s.len() == N && wide(s) == k implies s == key@ by {
                wide_injective(s, key@);
            }
            assert(self@ =~= old(self)@.remove(key@));
        }
        match r {
            Some(entry) => Some(entry.1),
            None => None,
        }
    }

    /// Walk the entries in ascending order of their keys.
    pub fn entries(&self) -> (iter: Iter<'_, (u128, u32), ([u8; N], V)>)
        requires
            self.wf(),
        ensures
            vstd::std_specs::iter::IteratorSpec::remaining(&iter).len() == listing(
                self@.dom(),
            ).len(),
            forall|i: int|
                0 <= i < vstd::std_specs::iter::IteratorSpec::remaining(&iter).len() ==> {
                    &&& (#[trigger] vstd::std_specs::iter::IteratorSpec::remaining(
                        &iter,
                    )[i]).1.0@ == listing(self@.dom())[i]
                    &&& self@.contains_key(listing(self@.dom())[i])
                    &&& vstd::std_specs::iter::IteratorSpec::remaining(&iter)[i].1.1
                        == self@[listing(self@.dom())[i]]
                },
            is_listing(listing(self@.dom()), self@.dom()),
            vstd::std_specs::iter::IteratorSpec::decrease(&iter) is Some,
            vstd::std_specs::iter::IteratorSpec::initial_value_relation(&iter, &iter),
    {
        broadcast use vstd::std_specs::btree::group_btree_axioms;
        broadcast use vstd::laws_cmp::group_laws_cmp;

        let iter = self.map.iter();
        proof {
            let items = vstd::std_specs::iter::IteratorSpec::remaining(&iter);
            let wides = items.map_values(|kv: (&(u128, u32), &([u8; N], V))| *kv.0);
            let ks = Seq::new(items.len(), |i: int| items[i].1.0@);
            assert forall|i: int| 0 <= i < items.len() implies self.map@.contains_key(
                *(#[trigger] items[i]).0,
            ) && self.map@[*items[i].0] == *items[i].1 && wide(ks[i]) == *items[i].0 by {
                assert(self.map@.contains_key(*items[i].0));
            }
            assert forall|i: int, j: int| 0 <= i < j < ks.len() implies before(
                #[trigger] ks[i],
                #[trigger] ks[j],
            ) by {
                assert(vstd::std_specs::cmp::OrdSpec::cmp_spec(&wides[i], &wides[j]) is Less);
            }
            assert forall|k: Seq<u8>| #[trigger] self@.dom().contains(k) implies ks.contains(k) by {
                let w = wide(k);
                assert(self.map@.contains_key(w));
                assert(items.contains((&w, &self.map@[w])));
                let i = choose|i: int| 0 <= i < items.len() && items[i] == (&w, &self.map@[w]);
                wide_injective(ks[i], k);
                assert(ks[i] == k);
            }
            assert(is_listing(ks, self@.dom()));
            listing_unique(ks, self@.dom());
        }
        iter
    }

    /// Up to `limit` keys, in ascending order.
    pub fn first_keys(&self, limit: usize) -> (r: Vec<[u8; N]>)
        requires
            self.wf(),
        ensures
            is_listing(listing(self@.dom()), self@.dom()),
            r@.len() == (if limit <= listing(self@.dom()).len() {
                limit as int
            } else {
                listing(self@.dom()).len() as int
            }),
            forall|i: int| 0 <= i < r@.len() ==> (#[trigger] r@[i])@ == listing(self@.dom())[i],
    {
        let mut r: Vec<[u8; N]> = Vec::new();
        let iter = self.entries();
        for entry in it: iter
            invariant
                r@.len() == it.index(),
                r@.len() <= limit,
                is_listing(listing(self@.dom()), self@.dom()),
                it.seq().len() == listing(self@.dom()).len(),
                forall|i: int|
                    0 <= i < it.seq().len() ==> (#[trigger] it.seq()[i]).1.0@ == listing(
                        self@.dom(),
                    )[i],
                forall|i: int| 0 <= i < r@.len() ==> (#[trigger] r@[i])@ == listing(self@.dom())[i],
        {
            if r.len() == limit {
                return r;
            }
            r.push(entry.1.0);
        }
        r
    }
}

} // verus!
