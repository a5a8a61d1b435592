//! The commitment tree: an ordered map from byte-string key to 32-byte value
//! hash, whose root digest is a pure function of the entry set.
//!
//! Entries are kept sorted by key, so the merkle shape — a balanced binary
//! fork over the sorted entries — is deterministic and independent of the
//! order in which keys were inserted.

use vstd::prelude::*;

use crate::hashes::{empty_hash, fork_hash, labeled_hash, leaf_hash, hash_empty, hash_fork,
    hash_labeled, hash_leaf};

verus! {

/// Strict lexicographic order on byte strings: `a` comes before `b` when `a`
/// is a proper prefix of `b` or the first differing byte of `a` is smaller.
pub open spec fn lex_lt(a: Seq<u8>, b: Seq<u8>) -> bool
    decreases a.len(),
{
    if b.len() == 0 {
        false
    } else if a.len() == 0 {
        true
    } else if a[0] != b[0] {
        a[0] < b[0]
    } else {
        lex_lt(a.drop_first(), b.drop_first())
    }
}

pub proof fn lemma_lex_irrefl(a: Seq<u8>)
    ensures
        !lex_lt(a, a),
    decreases a.len(),
{
    if a.len() > 0 {
        lemma_lex_irrefl(a.drop_first());
    }
}

pub proof fn lemma_lex_asym(a: Seq<u8>, b: Seq<u8>)
    requires
        lex_lt(a, b),
    ensures
        !lex_lt(b, a),
        a != b,
    decreases a.len(),
{
    lemma_lex_irrefl(a);
    if a.len() > 0 && b.len() > 0 && a[0] == b[0] {
        lemma_lex_asym(a.drop_first(), b.drop_first());
        assert(a != b) by {
            if a == b {
                lemma_lex_irrefl(a);
            }
        }
    }
}

pub proof fn lemma_lex_total(a: Seq<u8>, b: Seq<u8>)
    ensures
        lex_lt(a, b) || lex_lt(b, a) || a == b,
    decreases a.len(),
{
    if a.len() > 0 && b.len() > 0 && a[0] == b[0] {
        lemma_lex_total(a.drop_first(), b.drop_first());
        if a.drop_first() == b.drop_first() {
            assert(a =~= b) by {
                assert forall|i: int| 0 <= i < a.len() implies a[i] == b[i] by {
                    if i > 0 {
                        assert(a.drop_first()[i - 1] == b.drop_first()[i - 1]);
                    }
                }
            }
        }
    } else if a.len() == 0 && b.len() == 0 {
        assert(a =~= b);
    }
}

pub proof fn lemma_lex_trans(a: Seq<u8>, b: Seq<u8>, c: Seq<u8>)
    requires
        lex_lt(a, b),
        lex_lt(b, c),
    ensures
        lex_lt(a, c),
    decreases a.len(),
{
    if a.len() > 0 && b.len() > 0 && c.len() > 0 && a[0] == b[0] && b[0] == c[0] {
        lemma_lex_trans(a.drop_first(), b.drop_first(), c.drop_first());
    }
}

/// Reports whether `a@` comes strictly before `b@` in lexicographic order.
pub fn bytes_lt(a: &Vec<u8>, b: &Vec<u8>) -> (r: bool)
    ensures
        r == lex_lt(a@, b@),
{
    let mut i: usize = 0;
    proof {
        assert(a@.skip(0) =~= a@);
        assert(b@.skip(0) =~= b@);
    }
    loop
        invariant
            i <= a@.len(),
            i <= b@.len(),
            lex_lt(a@, b@) == lex_lt(a@.skip(i as int), b@.skip(i as int)),
        decreases a@.len() - i,
    {
        if i == a.len() {
            return i < b.len();
        }
        if i == b.len() {
            return false;
        }
        let x = a[i];
        let y = b[i];
        if x != y {
            return x < y;
        }
        proof {
            assert(a@.skip(i as int).drop_first() =~= a@.skip(i + 1));
            assert(b@.skip(i as int).drop_first() =~= b@.skip(i + 1));
        }
        i = i + 1;
    }
}

/// Reports whether two byte strings are equal.
pub fn bytes_eq(a: &Vec<u8>, b: &Vec<u8>) -> (r: bool)
    ensures
        r == (a@ == b@),
{
    if a.len() != b.len() {
        return false;
    }
    let mut i: usize = 0;
    while i < a.len()
        invariant
            i <= a@.len(),
            a@.len() == b@.len(),
            forall|j: int| 0 <= j < i ==> a@[j] == b@[j],
        decreases a@.len() - i,
    {
        if a[i] != b[i] {
            return false;
        }
        i = i + 1;
    }
    proof {
        assert(a@ =~= b@);
    }
    true
}

/// Copies a byte string.
pub fn copy_bytes(v: &Vec<u8>) -> (r: Vec<u8>)
    ensures
        r@ == v@,
{
    let mut r: Vec<u8> = Vec::new();
    let mut i: usize = 0;
    while i < v.len()
        invariant
            i <= v@.len(),
            r@ =~= v@.take(i as int),
        decreases v@.len() - i,
    {
        r.push(v[i]);
        i = i + 1;
        proof {
            assert(r@ =~= v@.take(i as int));
        }
    }
    proof {
        assert(v@.take(v@.len() as int) =~= v@);
    }
    r
}

/// One committed entry: a key and the 32-byte hash of the content stored
/// under it.
pub struct CommitEntry {
    pub key: Vec<u8>,
    pub hash: Vec<u8>,
}

/// The commitment tree.  The vector is sorted by key and holds at most one
/// entry per key.
pub struct CommitmentTree {
    pub entries: Vec<CommitEntry>,
}

impl View for CommitmentTree {
    type V = Seq<(Seq<u8>, Seq<u8>)>;

    open spec fn view(&self) -> Seq<(Seq<u8>, Seq<u8>)> {
        self.entries@.map_values(|e: CommitEntry| (e.key@, e.hash@))
    }
}

/// The keys occur in strictly increasing order.
pub open spec fn entries_sorted(s: Seq<(Seq<u8>, Seq<u8>)>) -> bool {
    forall|i: int, j: int| #![trigger s[i], s[j]] 0 <= i < j < s.len() ==> lex_lt(s[i].0, s[j].0)
}

/// Every value hash is 32 bytes long.
pub open spec fn entries_hashes_sized(s: Seq<(Seq<u8>, Seq<u8>)>) -> bool {
    forall|i: int| 0 <= i < s.len() ==> (#[trigger] s[i]).1.len() == 32
}

/// The map held by a sequence of entries; later entries win.
pub open spec fn entries_map(s: Seq<(Seq<u8>, Seq<u8>)>) -> Map<Seq<u8>, Seq<u8>>
    decreases s.len(),
{
    if s.len() == 0 {
        Map::empty()
    } else {
        entries_map(s.drop_last()).insert(s.last().0, s.last().1)
    }
}

/// The merkle hash of a sequence of entries: the hash of the empty tree for
/// no entries, the labeled leaf hash for one, and otherwise a fork of the two
/// halves of the sequence.
pub open spec fn subtree_hash(s: Seq<(Seq<u8>, Seq<u8>)>) -> Seq<u8>
    decreases s.len(),
{
    if s.len() == 0 {
        empty_hash()
    } else if s.len() == 1 {
        labeled_hash(s[0].0, leaf_hash(s[0].1))
    } else {
        fork_hash(
            subtree_hash(s.take(s.len() as int / 2)),
            subtree_hash(s.skip(s.len() as int / 2)),
        )
    }
}

pub proof fn lemma_map_contains_index(s: Seq<(Seq<u8>, Seq<u8>)>, i: int)
    requires
        0 <= i < s.len(),
    ensures
        entries_map(s).contains_key(s[i].0),
    decreases s.len(),
{
    if i < s.len() - 1 {
        assert(s.drop_last()[i] == s[i]);
        lemma_map_contains_index(s.drop_last(), i);
    }
}

pub proof fn lemma_map_key_exists(s: Seq<(Seq<u8>, Seq<u8>)>, k: Seq<u8>)
    requires
        entries_map(s).contains_key(k),
    ensures
        exists|i: int| 0 <= i < s.len() && (#[trigger] s[i]).0 == k,
    decreases s.len(),
{
    if s.len() > 0 {
        if k == s.last().0 {
            assert(s[s.len() - 1].0 == k);
        } else {
            assert(entries_map(s.drop_last()).contains_key(k));
            lemma_map_key_exists(s.drop_last(), k);
            let i = choose|i: int|
                0 <= i < s.drop_last().len() && (#[trigger] s.drop_last()[i]).0 == k;
            assert(s[i] == s.drop_last()[i]);
            assert(s[i].0 == k);
        }
    }
}

pub proof fn lemma_map_absent(s: Seq<(Seq<u8>, Seq<u8>)>, k: Seq<u8>)
    requires
        forall|j: int| 0 <= j < s.len() ==> (#[trigger] s[j]).0 != k,
    ensures
        !entries_map(s).contains_key(k),
{
    if entries_map(s).contains_key(k) {
        lemma_map_key_exists(s, k);
    }
}

/// No two entries share a key.
pub open spec fn entries_distinct(s: Seq<(Seq<u8>, Seq<u8>)>) -> bool {
    forall|i: int, j: int| #![trigger s[i], s[j]] 0 <= i < j < s.len() ==> s[i].0 != s[j].0
}

pub proof fn lemma_sorted_distinct(s: Seq<(Seq<u8>, Seq<u8>)>)
    requires
        entries_sorted(s),
    ensures
        entries_distinct(s),
{
    assert forall|i: int, j: int| #![trigger s[i], s[j]] 0 <= i < j < s.len() implies s[i].0
        != s[j].0 by {
        lemma_lex_asym(s[i].0, s[j].0);
    }
}

pub proof fn lemma_map_index(s: Seq<(Seq<u8>, Seq<u8>)>, i: int)
    requires
        entries_distinct(s),
        0 <= i < s.len(),
    ensures
        entries_map(s).contains_key(s[i].0),
        entries_map(s)[s[i].0] == s[i].1,
    decreases s.len(),
{
    if i == s.len() - 1 {
    } else {
        assert(s.drop_last()[i] == s[i]);
        lemma_map_index(s.drop_last(), i);
        assert(s[i].0 != s.last().0);
    }
}

pub proof fn lemma_map_insert_mid(s: Seq<(Seq<u8>, Seq<u8>)>, i: int, e: (Seq<u8>, Seq<u8>))
    requires
        0 <= i <= s.len(),
        forall|j: int| 0 <= j < s.len() ==> (#[trigger] s[j]).0 != e.0,
    ensures
        entries_map(s.insert(i, e)) == entries_map(s).insert(e.0, e.1),
    decreases s.len(),
{
    let t = s.insert(i, e);
    if i == s.len() {
        assert(t.drop_last() =~= s);
        assert(t.last() == e);
    } else {
        assert(t.drop_last() =~= s.drop_last().insert(i, e));
        assert(t.last() == s.last());
        lemma_map_insert_mid(s.drop_last(), i, e);
        assert(entries_map(t) =~= entries_map(s).insert(e.0, e.1)) by {
            assert(entries_map(t) == entries_map(s.drop_last()).insert(e.0, e.1).insert(
                s.last().0,
                s.last().1,
            ));
            assert(s[s.len() - 1].0 != e.0);
        }
    }
}

pub proof fn lemma_map_update(s: Seq<(Seq<u8>, Seq<u8>)>, i: int, e: (Seq<u8>, Seq<u8>))
    requires
        entries_distinct(s),
        0 <= i < s.len(),
        s[i].0 == e.0,
    ensures
        entries_map(s.update(i, e)) == entries_map(s).insert(e.0, e.1),
    decreases s.len(),
{
    let t = s.update(i, e);
    if i == s.len() - 1 {
        assert(t.drop_last() =~= s.drop_last());
        assert(entries_map(t) =~= entries_map(s).insert(e.0, e.1));
    } else {
        assert(t.drop_last() =~= s.drop_last().update(i, e));
        assert(t.last() == s.last());
        assert(s.drop_last()[i] == s[i]);
        lemma_map_update(s.drop_last(), i, e);
        assert(s[i].0 != s[s.len() - 1].0);
        assert(entries_map(t) =~= entries_map(s).insert(e.0, e.1));
    }
}

pub proof fn lemma_map_drop_last(s: Seq<(Seq<u8>, Seq<u8>)>)
    requires
        entries_distinct(s),
        s.len() > 0,
    ensures
        entries_map(s.drop_last()) == entries_map(s).remove(s.last().0),
{
    assert forall|j: int| 0 <= j < s.drop_last().len() implies (#[trigger] s.drop_last()[j]).0
        != s.last().0 by {
        assert(s[j] == s.drop_last()[j]);
        assert(s[j].0 != s[s.len() - 1].0);
    }
    lemma_map_absent(s.drop_last(), s.last().0);
    assert(entries_map(s.drop_last()) =~= entries_map(s).remove(s.last().0));
}

/// Two sorted, duplicate-free entry sequences that hold the same map are the
/// same sequence.
pub proof fn lemma_sorted_map_unique(s: Seq<(Seq<u8>, Seq<u8>)>, t: Seq<(Seq<u8>, Seq<u8>)>)
    requires
        entries_sorted(s),
        entries_sorted(t),
        entries_map(s) == entries_map(t),
    ensures
        s == t,
    decreases s.len(),
{
    lemma_sorted_distinct(s);
    lemma_sorted_distinct(t);
    if s.len() == 0 {
        if t.len() > 0 {
            lemma_map_contains_index(t, 0);
            lemma_map_key_exists(s, t[0].0);
        }
        assert(s =~= t);
    } else {
        lemma_map_contains_index(s, s.len() - 1);
        if t.len() == 0 {
            lemma_map_key_exists(t, s.last().0);
        }
        assert(t.len() > 0);
        // the last key of each sequence is its greatest key, and the key sets
        // agree, so the last keys agree
        let ks = s.last().0;
        let kt = t.last().0;
        lemma_map_contains_index(t, t.len() - 1);
        lemma_map_key_exists(t, ks);
        let i = choose|i: int| 0 <= i < t.len() && (#[trigger] t[i]).0 == ks;
        if i < t.len() - 1 {
            assert(lex_lt(ks, kt));
        }
        lemma_map_key_exists(s, kt);
        let j = choose|j: int| 0 <= j < s.len() && (#[trigger] s[j]).0 == kt;
        if j < s.len() - 1 {
            assert(lex_lt(kt, ks));
        }
        assert(ks == kt) by {
            if ks != kt {
                lemma_lex_asym(ks, kt);
            }
        }
        lemma_map_index(s, s.len() - 1);
        lemma_map_index(t, t.len() - 1);
        assert(s.last().1 == t.last().1);
        lemma_map_drop_last(s);
        lemma_map_drop_last(t);
        assert(entries_sorted(s.drop_last())) by {
            assert(forall|i: int, j: int|
                0 <= i < j < s.drop_last().len() ==> s.drop_last()[i] == s[i] && s.drop_last()[j]
                    == s[j]);
        }
        assert(entries_sorted(t.drop_last())) by {
            assert(forall|i: int, j: int|
                0 <= i < j < t.drop_last().len() ==> t.drop_last()[i] == t[i] && t.drop_last()[j]
                    == t[j]);
        }
        lemma_sorted_map_unique(s.drop_last(), t.drop_last());
        assert(s =~= t) by {
            assert(s.len() == t.len());
            assert(forall|x: int| 0 <= x < s.len() - 1 ==> s[x] == s.drop_last()[x]
                && t[x] == t.drop_last()[x]);
            assert(s.last() == t.last());
        }
    }
}

impl CommitmentTree {
    /// The tree is well formed: sorted by key, one entry per key, 32-byte
    /// hashes throughout.
    pub open spec fn wf(self) -> bool {
        &&& entries_sorted(self@)
        &&& entries_hashes_sized(self@)
    }

    /// The committed (key, hash) map.
    pub open spec fn as_map(self) -> Map<Seq<u8>, Seq<u8>> {
        entries_map(self@)
    }

    /// The merkle root of the bare tree, before namespace wrapping.
    pub open spec fn spec_root(self) -> Seq<u8> {
        subtree_hash(self@)
    }

    /// An empty commitment tree.
    pub fn new() -> (r: Self)
        ensures
            r.wf(),
            r.as_map() == Map::<Seq<u8>, Seq<u8>>::empty(),
            r@ == Seq::<(Seq<u8>, Seq<u8>)>::empty(),
    {
        let r = CommitmentTree { entries: Vec::new() };
        proof {
            assert(r@ =~= Seq::<(Seq<u8>, Seq<u8>)>::empty());
        }
        r
    }

    /// Looks for `key`: returns `(i, true)` when entry `i` holds it, and
    /// otherwise `(i, false)` with `i` the position where it belongs.
    fn locate(&self, key: &Vec<u8>) -> (r: (usize, bool))
        requires
            self.wf(),
        ensures
            r.0 <= self@.len(),
            r.1 ==> r.0 < self@.len() && self@[r.0 as int].0 == key@,
            !r.1 ==> forall|j: int| 0 <= j < r.0 ==> lex_lt((#[trigger] self@[j]).0, key@),
            !r.1 ==> (r.0 < self@.len() ==> lex_lt(key@, self@[r.0 as int].0)),
            !r.1 ==> forall|j: int| 0 <= j < self@.len() ==> (#[trigger] self@[j]).0 != key@,
    {
        let n = self.entries.len();
        let mut i: usize = 0;
        loop
            invariant
                self.wf(),
                n == self@.len(),
                i <= n,
                forall|j: int| 0 <= j < i ==> lex_lt((#[trigger] self@[j]).0, key@),
            decreases n - i,
        {
            if i == n {
                proof {
                    assert forall|j: int| 0 <= j < self@.len() implies (#[trigger] self@[j]).0
                        != key@ by {
                        lemma_lex_asym(self@[j].0, key@);
                    }
                }
                return (i, false);
            }
            if bytes_eq(&self.entries[i].key, key) {
                return (i, true);
            }
            if bytes_lt(key, &self.entries[i].key) {
                proof {
                    assert forall|j: int| 0 <= j < self@.len() implies (#[trigger] self@[j]).0
                        != key@ by {
                        if j < i {
                            lemma_lex_asym(self@[j].0, key@);
                        } else if j == i {
                            lemma_lex_asym(key@, self@[j].0);
                        } else {
                            lemma_lex_trans(key@, self@[i as int].0, self@[j].0);
                            lemma_lex_asym(key@, self@[j].0);
                        }
                    }
                }
                return (i, false);
            }
            proof {
                lemma_lex_total(self@[i as int].0, key@);
            }
            i = i + 1;
        }
    }

    /// Commits `hash` under `key`, replacing any hash previously committed
    /// there.
    pub fn insert(&mut self, key: Vec<u8>, hash: Vec<u8>)
        requires
            old(self).wf(),
            hash@.len() == 32,
        ensures
            final(self).wf(),
            final(self).as_map() == old(self).as_map().insert(key@, hash@),
    {
        let (i, found) = self.locate(&key);
        let ghost s0 = self@;
        if found {
            let e = &mut self.entries[i];
            e.key = key;
            e.hash = hash;
            proof {
                assert(self@ =~= s0.update(i as int, (s0[i as int].0, self@[i as int].1)));
                lemma_sorted_distinct(s0);
                lemma_map_update(s0, i as int, self@[i as int]);
                assert(entries_sorted(self@)) by {
                    assert(forall|x: int| 0 <= x < self@.len() ==> (#[trigger] self@[x]).0
                        == s0[x].0);
                }
            }
        } else {
            self.entries.insert(i, CommitEntry { key, hash });
            proof {
                let e = self@[i as int];
                assert(self@ =~= s0.insert(i as int, e));
                lemma_map_insert_mid(s0, i as int, e);
                assert(entries_sorted(self@)) by {
                    assert forall|x: int, y: int| #![trigger self@[x], self@[y]]
                        0 <= x < y < self@.len() implies lex_lt(self@[x].0, self@[y].0) by {
                        let xo = if x < i { x } else { x - 1 };
                        let yo = if y <= i { y } else { y - 1 };
                        if x == i {
                            // e before every later entry
                            if yo > i {
                                lemma_lex_trans(e.0, s0[i as int].0, s0[yo].0);
                            }
                        } else if y == i {
                            // every earlier entry before e
                        } else {
                            assert(self@[x] == s0[xo]);
                            assert(self@[y] == s0[yo]);
                            if xo < i && yo >= i && i < s0.len() {
                                assert(lex_lt(s0[xo].0, s0[yo].0));
                            }
                        }
                    }
                }
            }
        }
    }

    /// The merkle hash of entries `lo .. hi`.
    pub(crate) fn subtree_root(&self, lo: usize, hi: usize) -> (r: Vec<u8>)
        requires
            lo <= hi <= self@.len(),
        ensures
            r@ == subtree_hash(self@.subrange(lo as int, hi as int)),
            r@.len() == 32,
        decreases hi - lo,
    {
        let ghost s = self@.subrange(lo as int, hi as int);
        if hi - lo == 0 {
            hash_empty()
        } else if hi - lo == 1 {
            let lh = hash_leaf(&self.entries[lo].hash);
            let r = hash_labeled(&self.entries[lo].key, &lh);
            proof {
                assert(s[0] == self@[lo as int]);
            }
            r
        } else {
            let mid = lo + (hi - lo) / 2;
            let l = self.subtree_root(lo, mid);
            let r = self.subtree_root(mid, hi);
            let res = hash_fork(&l, &r);
            proof {
                assert(s.take(s.len() as int / 2) =~= self@.subrange(lo as int, mid as int));
                assert(s.skip(s.len() as int / 2) =~= self@.subrange(mid as int, hi as int));
            }
            res
        }
    }

    /// The merkle root of the bare tree.
    pub fn root(&self) -> (r: Vec<u8>)
        ensures
            r@ == self.spec_root(),
            r@.len() == 32,
    {
        let n = self.entries.len();
        let r = self.subtree_root(0, n);
        proof {
            assert(self@.subrange(0, self@.len() as int) =~= self@);
        }
        r
    }

    /// Borrows the entries; used by the witness builder.
    pub(crate) fn entry_at(&self, i: usize) -> (r: &CommitEntry)
        requires
            i < self@.len(),
        ensures
            r.key@ == self@[i as int].0,
            r.hash@ == self@[i as int].1,
    {
        &self.entries[i]
    }

    /// The number of committed keys.
    pub fn len(&self) -> (r: usize)
        ensures
            r == self@.len(),
    {
        self.entries.len()
    }

    /// The hash committed under `key`, if any.
    pub fn get(&self, key: &Vec<u8>) -> (r: Option<&Vec<u8>>)
        requires
            self.wf(),
        ensures
            match r {
                Some(h) => self.as_map().contains_key(key@) && h@ == self.as_map()[key@],
                None => !self.as_map().contains_key(key@),
            },
    {
        let (i, found) = self.locate(key);
        proof {
            lemma_sorted_distinct(self@);
            if found {
                lemma_map_index(self@, i as int);
            } else {
                lemma_map_absent(self@, key@);
            }
        }
        if found {
            Some(&self.entries[i].hash)
        } else {
            None
        }
    }
}

} // verus!
