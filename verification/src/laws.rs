//! Laws of the store, proved once and for all: the synchronization of
//! committed hashes with stored bytes, the insertion-order independence of
//! the published digest, and the idempotence of repeated registration.

use vstd::prelude::*;

use crate::hashes::sha256_of;
use crate::store::{spec_add, spec_put, CertifiedAssets, CommitV, HeadersV, StoreV};
use crate::tree::lemma_sorted_map_unique;

verus! {

/// For every registered path, the committed hash equals the hash of the
/// bytes stored for that path.
pub proof fn lemma_committed_hash_matches_content(s: CertifiedAssets, p: Seq<u8>)
    requires
        s.wf(),
        s.store_map().contains_key(p),
    ensures
        s.commit_map().contains_key(p),
        s.commit_map()[p] == sha256_of(s.store_map()[p].1),
{
}

/// The published digest depends only on the committed (key, hash) map:
/// two well-formed stores holding the same map — in whatever order the
/// keys went in — publish the same digest.
pub proof fn lemma_root_hash_order_independent(a: CertifiedAssets, b: CertifiedAssets)
    requires
        a.wf(),
        b.wf(),
        a.commit_map() == b.commit_map(),
    ensures
        a.spec_root_hash() == b.spec_root_hash(),
{
    lemma_sorted_map_unique(a.tree@, b.tree@);
}

/// After a registration, every path of it holds the registered record and
/// hash, and every other key is untouched.
pub proof fn lemma_add_covers(
    s: (StoreV, CommitV),
    paths: Seq<Seq<u8>>,
    headers: HeadersV,
    bytes: Seq<u8>,
)
    ensures
        forall|i: int| 0 <= i < paths.len() ==> {
            let t = spec_add(s, paths, headers, bytes);
            &&& t.0.contains_key(#[trigger] paths[i]) && t.0[paths[i]] == (headers, bytes)
            &&& t.1.contains_key(paths[i]) && t.1[paths[i]] == sha256_of(bytes)
        },
        forall|k: Seq<u8>| #![trigger paths.contains(k)] !paths.contains(k) ==> {
            let t = spec_add(s, paths, headers, bytes);
            &&& t.0.contains_key(k) == s.0.contains_key(k)
            &&& (t.0.contains_key(k) ==> t.0[k] == s.0[k])
            &&& t.1.contains_key(k) == s.1.contains_key(k)
            &&& (t.1.contains_key(k) ==> t.1[k] == s.1[k])
        },
    decreases paths.len(),
{
    if paths.len() > 0 {
        let s1 = spec_put(s, paths[0], headers, bytes);
        lemma_add_covers(s1, paths.drop_first(), headers, bytes);
        assert forall|i: int| 0 <= i < paths.len() implies {
            let t = spec_add(s, paths, headers, bytes);
            &&& t.0.contains_key(#[trigger] paths[i]) && t.0[paths[i]] == (headers, bytes)
            &&& t.1.contains_key(paths[i]) && t.1[paths[i]] == sha256_of(bytes)
        } by {
            if i == 0 {
                if paths.drop_first().contains(paths[0]) {
                } else {
                }
            } else {
                assert(paths.drop_first()[i - 1] == paths[i]);
            }
        }
        assert forall|k: Seq<u8>| #![trigger paths.contains(k)] !paths.contains(k) implies {
            let t = spec_add(s, paths, headers, bytes);
            &&& t.0.contains_key(k) == s.0.contains_key(k)
            &&& (t.0.contains_key(k) ==> t.0[k] == s.0[k])
            &&& t.1.contains_key(k) == s.1.contains_key(k)
            &&& (t.1.contains_key(k) ==> t.1[k] == s.1[k])
        } by {
            assert(k != paths[0]);
            assert(!paths.drop_first().contains(k)) by {
                if paths.drop_first().contains(k) {
                    let j = choose|j: int|
                        0 <= j < paths.drop_first().len() && paths.drop_first()[j] == k;
                    assert(paths[j + 1] == k);
                }
            }
        }
    }
}

/// A registration whose records and hashes are already in place changes
/// nothing.
pub proof fn lemma_add_fixed(
    t: (StoreV, CommitV),
    paths: Seq<Seq<u8>>,
    headers: HeadersV,
    bytes: Seq<u8>,
)
    requires
        forall|i: int| 0 <= i < paths.len() ==> {
            &&& t.0.contains_key(#[trigger] paths[i]) && t.0[paths[i]] == (headers, bytes)
            &&& t.1.contains_key(paths[i]) && t.1[paths[i]] == sha256_of(bytes)
        },
    ensures
        spec_add(t, paths, headers, bytes) == t,
    decreases paths.len(),
{
    if paths.len() > 0 {
        let t1 = spec_put(t, paths[0], headers, bytes);
        assert(t1.0 =~= t.0);
        assert(t1.1 =~= t.1);
        assert(t1 == t);
        assert forall|i: int| 0 <= i < paths.drop_first().len() implies {
            &&& t.0.contains_key(#[trigger] paths.drop_first()[i]) && t.0[paths.drop_first()[i]]
                == (headers, bytes)
            &&& t.1.contains_key(paths.drop_first()[i]) && t.1[paths.drop_first()[i]]
                == sha256_of(bytes)
        } by {
            assert(paths.drop_first()[i] == paths[i + 1]);
        }
        lemma_add_fixed(t, paths.drop_first(), headers, bytes);
    }
}

/// Registering the same paths, headers and bytes twice leaves exactly the
/// state that one registration produces.
pub proof fn lemma_add_idempotent(
    s: (StoreV, CommitV),
    paths: Seq<Seq<u8>>,
    headers: HeadersV,
    bytes: Seq<u8>,
)
    ensures
        spec_add(spec_add(s, paths, headers, bytes), paths, headers, bytes) == spec_add(
            s,
            paths,
            headers,
            bytes,
        ),
{
    lemma_add_covers(s, paths, headers, bytes);
    lemma_add_fixed(spec_add(s, paths, headers, bytes), paths, headers, bytes);
}

} // verus!
