//! Pruned proof trees.
//!
//! A witness for a key is a pruned copy of the commitment tree: along the
//! path from the root to the key every sibling subtree is replaced by its
//! bare hash, so the witness lets a verifier recompute the root digest from
//! the key's committed hash alone, while revealing no other key's content.

use vstd::prelude::*;

use crate::hashes::{empty_hash, fork_hash, labeled_hash, leaf_hash};
use crate::tree::{CommitmentTree, copy_bytes, lemma_lex_asym, lemma_lex_trans,
    lemma_lex_total, lemma_map_index, lemma_map_key_exists, lemma_sorted_distinct, subtree_hash,
    bytes_eq, bytes_lt};

verus! {

/// A node of a (possibly pruned) hash tree.
pub enum HashTree {
    /// A tree with no entries.
    Empty,
    /// Two branches side by side.
    Fork(Box<HashTree>, Box<HashTree>),
    /// A subtree under a key or namespace label.
    Labeled(Vec<u8>, Box<HashTree>),
    /// A committed value.
    Leaf(Vec<u8>),
    /// A subtree elided from this view; only its hash remains.
    Pruned(Vec<u8>),
}

/// The root hash an independent verifier computes from a hash tree.
pub open spec fn reconstruct(t: HashTree) -> Seq<u8>
    decreases t,
{
    match t {
        HashTree::Empty => empty_hash(),
        HashTree::Fork(l, r) => fork_hash(reconstruct(*l), reconstruct(*r)),
        HashTree::Labeled(lab, s) => labeled_hash(lab@, reconstruct(*s)),
        HashTree::Leaf(b) => leaf_hash(b@),
        HashTree::Pruned(h) => h@,
    }
}

/// The tree carries value material only under the label `key`: every leaf
/// sits directly below a label equal to `key`.
pub open spec fn exposes_only(t: HashTree, key: Seq<u8>) -> bool
    decreases t,
{
    match t {
        HashTree::Empty => true,
        HashTree::Fork(l, r) => exposes_only(*l, key) && exposes_only(*r, key),
        HashTree::Labeled(lab, s) => lab@ == key && matches!(*s, HashTree::Leaf(_)),
        HashTree::Leaf(b) => false,
        HashTree::Pruned(h) => true,
    }
}

/// The tree contains the entry `Labeled(key, Leaf(v))`: it proves that `v`
/// is committed under `key`.
pub open spec fn proves_value(t: HashTree, key: Seq<u8>, v: Seq<u8>) -> bool
    decreases t,
{
    match t {
        HashTree::Fork(l, r) => proves_value(*l, key, v) || proves_value(*r, key, v),
        HashTree::Labeled(lab, s) => lab@ == key && match *s {
            HashTree::Leaf(b) => b@ == v,
            _ => false,
        },
        _ => false,
    }
}

impl CommitmentTree {
    /// A witness over entries `lo .. hi`.
    fn witness_range(&self, lo: usize, hi: usize, key: &Vec<u8>) -> (t: HashTree)
        requires
            self.wf(),
            lo <= hi <= self@.len(),
        ensures
            reconstruct(t) == subtree_hash(self@.subrange(lo as int, hi as int)),
            exposes_only(t, key@),
            forall|i: int| lo <= i < hi && (#[trigger] self@[i]).0 == key@ ==> proves_value(
                t,
                key@,
                self@[i].1,
            ),
        decreases hi - lo,
    {
        let ghost s = self@.subrange(lo as int, hi as int);
        if hi - lo == 0 {
            HashTree::Empty
        } else if hi - lo == 1 {
            let e = self.entry_at(lo);
            proof {
                reveal_with_fuel(reconstruct, 3);
                assert(s[0] == self@[lo as int]);
            }
            if bytes_eq(&e.key, key) {
                HashTree::Labeled(copy_bytes(&e.key), Box::new(HashTree::Leaf(copy_bytes(&e.hash))))
            } else {
                HashTree::Pruned(self.subtree_root(lo, hi))
            }
        } else {
            let mid = lo + (hi - lo) / 2;
            proof {
                assert(s.take(s.len() as int / 2) =~= self@.subrange(lo as int, mid as int));
                assert(s.skip(s.len() as int / 2) =~= self@.subrange(mid as int, hi as int));
            }
            let go_left = bytes_lt(key, &self.entry_at(mid).key);
            if go_left {
                let l = self.witness_range(lo, mid, key);
                let r = HashTree::Pruned(self.subtree_root(mid, hi));
                proof {
                    assert forall|i: int| mid <= i < hi implies (#[trigger] self@[i]).0
                        != key@ by {
                        if i > mid {
                            lemma_lex_trans(key@, self@[mid as int].0, self@[i].0);
                        }
                        lemma_lex_asym(key@, self@[i].0);
                    }
                }
                let t = HashTree::Fork(Box::new(l), Box::new(r));
                proof {
                    reveal_with_fuel(exposes_only, 2);
                    reveal_with_fuel(reconstruct, 2);
                    reveal_with_fuel(proves_value, 2);
                    assert(exposes_only(t, key@));
                    assert(reconstruct(t) == fork_hash(reconstruct(l), reconstruct(r)));
                }
                t
            } else {
                let l = HashTree::Pruned(self.subtree_root(lo, mid));
                let r = self.witness_range(mid, hi, key);
                proof {
                    assert forall|i: int| lo <= i < mid implies (#[trigger] self@[i]).0
                        != key@ by {
                        lemma_lex_total(key@, self@[mid as int].0);
                        if key@ == self@[mid as int].0 {
                            lemma_lex_asym(self@[i].0, self@[mid as int].0);
                        } else {
                            lemma_lex_trans(self@[i].0, self@[mid as int].0, key@);
                            lemma_lex_asym(self@[i].0, key@);
                        }
                    }
                }
                let t = HashTree::Fork(Box::new(l), Box::new(r));
                proof {
                    reveal_with_fuel(exposes_only, 2);
                    reveal_with_fuel(reconstruct, 2);
                    reveal_with_fuel(proves_value, 2);
                    assert(exposes_only(t, key@));
                    assert(reconstruct(t) == fork_hash(reconstruct(l), reconstruct(r)));
                }
                t
            }
        }
    }

    /// Builds the pruned proof for `key`: it always reconstructs to this
    /// tree's root, reveals no other key's value, and, when `key` is
    /// committed, contains `key`'s committed hash as its single leaf.
    pub fn witness(&self, key: &Vec<u8>) -> (t: HashTree)
        requires
            self.wf(),
        ensures
            reconstruct(t) == self.spec_root(),
            exposes_only(t, key@),
            self.as_map().contains_key(key@) ==> proves_value(t, key@, self.as_map()[key@]),
    {
        let n = self.len();
        let t = self.witness_range(0, n, key);
        proof {
            assert(self@.subrange(0, self@.len() as int) =~= self@);
            if self.as_map().contains_key(key@) {
                lemma_map_key_exists(self@, key@);
                let i = choose|i: int| 0 <= i < self@.len() && (#[trigger] self@[i]).0 == key@;
                lemma_sorted_distinct(self@);
                lemma_map_index(self@, i);
            }
        }
        t
    }
}

} // verus!
