//! Content hashing and the node hashes of the commitment tree.
//!
//! Every node hash is a SHA-256 digest of a domain-separated input: a
//! one-byte length prefix, an ASCII tag, then the payload.  The four tags
//! (`ic-hashtree-empty`, `ic-hashtree-fork`, `ic-hashtree-leaf`,
//! `ic-hashtree-labeled`) keep the hashes of the different node kinds from
//! colliding with one another.

use sha2::Digest;
use vstd::prelude::*;

verus! {

/// The SHA-256 digest of a byte sequence, as computed by the `sha2` crate.
pub uninterp spec fn sha256_of(b: Seq<u8>) -> Seq<u8>;

/// Relies on `sha2::Sha256` (`Digest::update` / `finalize`): the digest is 32
/// bytes long and a function of the input bytes alone.
#[verifier::external_body]
pub fn sha256(bytes: &[u8]) -> (r: Vec<u8>)
    ensures
        r@ == sha256_of(bytes@),
        r@.len() == 32,
{
    let mut h = sha2::Sha256::new();
    h.update(bytes);
    h.finalize().to_vec()
}

/// Domain separator for the hash of a node with no entries: `ic-hashtree-empty`.
pub open spec fn empty_sep() -> Seq<u8> {
    seq![17u8, 105, 99, 45, 104, 97, 115, 104, 116, 114, 101, 101, 45, 101, 109, 112, 116, 121]
}

/// Domain separator for the hash of a two-branch node: `ic-hashtree-fork`.
pub open spec fn fork_sep() -> Seq<u8> {
    seq![16u8, 105, 99, 45, 104, 97, 115, 104, 116, 114, 101, 101, 45, 102, 111, 114, 107]
}

/// Domain separator for the hash of a value: `ic-hashtree-leaf`.
pub open spec fn leaf_sep() -> Seq<u8> {
    seq![16u8, 105, 99, 45, 104, 97, 115, 104, 116, 114, 101, 101, 45, 108, 101, 97, 102]
}

/// Domain separator for the hash of a keyed subtree: `ic-hashtree-labeled`.
pub open spec fn labeled_sep() -> Seq<u8> {
    seq![19u8, 105, 99, 45, 104, 97, 115, 104, 116, 114, 101, 101, 45, 108, 97, 98, 101, 108, 101, 100]
}

/// Hash of a tree with no entries.
pub open spec fn empty_hash() -> Seq<u8> {
    sha256_of(empty_sep())
}

/// Hash of a node with two branches.
pub open spec fn fork_hash(l: Seq<u8>, r: Seq<u8>) -> Seq<u8> {
    sha256_of(fork_sep() + l + r)
}

/// Hash of a stored value.
pub open spec fn leaf_hash(b: Seq<u8>) -> Seq<u8> {
    sha256_of(leaf_sep() + b)
}

/// Hash of a subtree wrapped under a key or namespace label.
pub open spec fn labeled_hash(label: Seq<u8>, h: Seq<u8>) -> Seq<u8> {
    sha256_of(labeled_sep() + label + h)
}

fn empty_sep_vec() -> (r: Vec<u8>)
    ensures
        r@ == empty_sep(),
{
    let r: Vec<u8> = vec![17u8, 105, 99, 45, 104, 97, 115, 104, 116, 114, 101, 101, 45, 101, 109, 112, 116, 121];
    assert(r@ =~= empty_sep());
    r
}

fn fork_sep_vec() -> (r: Vec<u8>)
    ensures
        r@ == fork_sep(),
{
    let r: Vec<u8> = vec![16u8, 105, 99, 45, 104, 97, 115, 104, 116, 114, 101, 101, 45, 102, 111, 114, 107];
    assert(r@ =~= fork_sep());
    r
}

fn leaf_sep_vec() -> (r: Vec<u8>)
    ensures
        r@ == leaf_sep(),
{
    let r: Vec<u8> = vec![16u8, 105, 99, 45, 104, 97, 115, 104, 116, 114, 101, 101, 45, 108, 101, 97, 102];
    assert(r@ =~= leaf_sep());
    r
}

fn labeled_sep_vec() -> (r: Vec<u8>)
    ensures
        r@ == labeled_sep(),
{
    let r: Vec<u8> = vec![19u8, 105, 99, 45, 104, 97, 115, 104, 116, 114, 101, 101, 45, 108, 97, 98, 101, 108, 101, 100];
    assert(r@ =~= labeled_sep());
    r
}

/// Computes [`empty_hash`].
pub fn hash_empty() -> (r: Vec<u8>)
    ensures
        r@ == empty_hash(),
        r@.len() == 32,
{
    let buf = empty_sep_vec();
    sha256(buf.as_slice())
}

/// Computes [`fork_hash`] of two branch hashes.
pub fn hash_fork(l: &Vec<u8>, r: &Vec<u8>) -> (res: Vec<u8>)
    ensures
        res@ == fork_hash(l@, r@),
        res@.len() == 32,
{
    let mut buf = fork_sep_vec();
    buf.extend_from_slice(l.as_slice());
    buf.extend_from_slice(r.as_slice());
    assert(buf@ =~= fork_sep() + l@ + r@);
    sha256(buf.as_slice())
}

/// Computes [`leaf_hash`] of a value.
pub fn hash_leaf(b: &Vec<u8>) -> (res: Vec<u8>)
    ensures
        res@ == leaf_hash(b@),
        res@.len() == 32,
{
    let mut buf = leaf_sep_vec();
    buf.extend_from_slice(b.as_slice());
    assert(buf@ =~= leaf_sep() + b@);
    sha256(buf.as_slice())
}

/// Computes [`labeled_hash`] of a label and a subtree hash.
pub fn hash_labeled(label: &Vec<u8>, h: &Vec<u8>) -> (res: Vec<u8>)
    ensures
        res@ == labeled_hash(label@, h@),
        res@.len() == 32,
{
    let mut buf = labeled_sep_vec();
    buf.extend_from_slice(label.as_slice());
    buf.extend_from_slice(h.as_slice());
    assert(buf@ =~= labeled_sep() + label@ + h@);
    sha256(buf.as_slice())
}

} // verus!
