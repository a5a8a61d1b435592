//! The certified content store: paths mapped to content records, kept in
//! lock-step with the commitment tree, plus the anchor certificate injected
//! by the host.

use vstd::prelude::*;
use vstd::string::StringExecFns;
use vstd::string::StrSliceExecFns;
use vstd::utf8::encode_utf8;

use crate::encoding::{certificate_header_value, encode_tree, format_certificate_header,
    tagged_tree_encoding};
use crate::hashes::{hash_labeled, labeled_hash, sha256, sha256_of};
use crate::tree::{CommitmentTree, copy_bytes, bytes_eq, subtree_hash};
use crate::witness::{exposes_only, proves_value, reconstruct, HashTree};

verus! {

/// Response header list: (name, value) pairs.
pub type Headers = Vec<(String, String)>;

/// The mathematical view of a header list.
pub type HeadersV = Seq<(Seq<char>, Seq<char>)>;

/// The mathematical view of the content store: path bytes to (headers, body).
pub type StoreV = Map<Seq<u8>, (HeadersV, Seq<u8>)>;

/// The mathematical view of the commitment tree: path bytes to content hash.
pub type CommitV = Map<Seq<u8>, Seq<u8>>;

/// The namespace label under which the whole tree is committed:
/// `http_assets`.
pub open spec fn label_seq() -> Seq<u8> {
    seq![104u8, 116, 116, 112, 95, 97, 115, 115, 101, 116, 115]
}

/// The namespace label as a byte vector.
pub fn label_vec() -> (r: Vec<u8>)
    ensures
        r@ == label_seq(),
{
    let r: Vec<u8> = vec![104u8, 116, 116, 112, 95, 97, 115, 115, 101, 116, 115];
    proof {
        assert(r@ =~= label_seq());
    }
    r
}

/// One stored record: response headers and the body bytes.
pub struct ContentRecord {
    pub headers: Headers,
    pub bytes: Vec<u8>,
}

/// The view of one record.
pub open spec fn record_view(r: ContentRecord) -> (HeadersV, Seq<u8>) {
    (r.headers.deep_view(), r.bytes@)
}

/// The map held by the record list; the newest record for a path is
/// authoritative.
pub open spec fn store_map_of(s: Seq<(Vec<u8>, ContentRecord)>) -> StoreV
    decreases s.len(),
{
    if s.len() == 0 {
        Map::empty()
    } else {
        store_map_of(s.drop_last()).insert(s.last().0@, record_view(s.last().1))
    }
}

pub proof fn lemma_store_last_match(s: Seq<(Vec<u8>, ContentRecord)>, j: int)
    requires
        0 <= j < s.len(),
        forall|l: int| j < l < s.len() ==> (#[trigger] s[l]).0@ != s[j].0@,
    ensures
        store_map_of(s).contains_key(s[j].0@),
        store_map_of(s)[s[j].0@] == record_view(s[j].1),
    decreases s.len(),
{
    if j < s.len() - 1 {
        assert(s.drop_last()[j] == s[j]);
        assert forall|l: int| j < l < s.drop_last().len() implies (#[trigger] s.drop_last()[l]).0@
            != s.drop_last()[j].0@ by {
            assert(s.drop_last()[l] == s[l]);
        }
        lemma_store_last_match(s.drop_last(), j);
        assert(s[s.len() - 1].0@ != s[j].0@);
    }
}

pub proof fn lemma_store_absent(s: Seq<(Vec<u8>, ContentRecord)>, k: Seq<u8>)
    requires
        forall|j: int| 0 <= j < s.len() ==> (#[trigger] s[j]).0@ != k,
    ensures
        !store_map_of(s).contains_key(k),
    decreases s.len(),
{
    if s.len() > 0 {
        assert forall|j: int| 0 <= j < s.drop_last().len() implies (#[trigger] s.drop_last()[j]).0@
            != k by {
            assert(s.drop_last()[j] == s[j]);
        }
        lemma_store_absent(s.drop_last(), k);
        assert(s[s.len() - 1].0@ != k);
    }
}

/// Registering `bytes` under one path: the record replaces any previous one
/// and the content hash is committed under the same key.
pub open spec fn spec_put(
    s: (StoreV, CommitV),
    path: Seq<u8>,
    headers: HeadersV,
    bytes: Seq<u8>,
) -> (StoreV, CommitV) {
    (s.0.insert(path, (headers, bytes)), s.1.insert(path, sha256_of(bytes)))
}

/// Registering `bytes` under every path of `paths` in turn.
pub open spec fn spec_add(
    s: (StoreV, CommitV),
    paths: Seq<Seq<u8>>,
    headers: HeadersV,
    bytes: Seq<u8>,
) -> (StoreV, CommitV)
    decreases paths.len(),
{
    if paths.len() == 0 {
        s
    } else {
        spec_add(spec_put(s, paths[0], headers, bytes), paths.drop_first(), headers, bytes)
    }
}

pub proof fn lemma_spec_add_snoc(
    s: (StoreV, CommitV),
    paths: Seq<Seq<u8>>,
    p: Seq<u8>,
    headers: HeadersV,
    bytes: Seq<u8>,
)
    ensures
        spec_add(s, paths.push(p), headers, bytes) == spec_put(
            spec_add(s, paths, headers, bytes),
            p,
            headers,
            bytes,
        ),
    decreases paths.len(),
{
    let pp = paths.push(p);
    if paths.len() == 0 {
        assert(pp.drop_first() =~= Seq::<Seq<u8>>::empty());
        assert(pp[0] == p);
        assert(spec_add(s, pp, headers, bytes) == spec_add(
            spec_put(s, p, headers, bytes),
            pp.drop_first(),
            headers,
            bytes,
        ));
        assert(spec_add(spec_put(s, p, headers, bytes), pp.drop_first(), headers, bytes)
            == spec_put(s, p, headers, bytes));
        assert(spec_add(s, paths, headers, bytes) == s);
    } else {
        assert(pp.drop_first() =~= paths.drop_first().push(p));
        assert(pp[0] == paths[0]);
        assert(spec_add(s, pp, headers, bytes) == spec_add(
            spec_put(s, paths[0], headers, bytes),
            paths.drop_first().push(p),
            headers,
            bytes,
        ));
        lemma_spec_add_snoc(spec_put(s, paths[0], headers, bytes), paths.drop_first(), p, headers,
            bytes);
        assert(spec_add(s, paths, headers, bytes) == spec_add(
            spec_put(s, paths[0], headers, bytes),
            paths.drop_first(),
            headers,
            bytes,
        ));
    }
}

/// Why a certified response cannot be produced.
#[derive(Debug, PartialEq, Eq, Structural)]
pub enum StoreError {
    /// The anchor has issued no certificate yet: nothing has been finalized.
    NoCertificate,
    /// The domain configuration names no platform-owned domain.
    NoUnownedDomain,
}

/// The certified asset store.
pub struct CertifiedAssets {
    pub tree: CommitmentTree,
    pub assets: Vec<(Vec<u8>, ContentRecord)>,
    pub certificate: Option<Vec<u8>>,
}

impl CertifiedAssets {
    /// The content store's view.
    pub open spec fn store_map(self) -> StoreV {
        store_map_of(self.assets@)
    }

    /// The commitment tree's view.
    pub open spec fn commit_map(self) -> CommitV {
        self.tree.as_map()
    }

    /// Both views at once, as the specification state.
    pub open spec fn state(self) -> (StoreV, CommitV) {
        (self.store_map(), self.commit_map())
    }

    /// Well-formed: the tree is well-formed and every stored path is
    /// committed under the hash of its current bytes.
    pub open spec fn wf(self) -> bool {
        &&& self.tree.wf()
        &&& forall|k: Seq<u8>| #[trigger] self.store_map().contains_key(k)
            ==> self.commit_map().contains_key(k) && self.commit_map()[k] == sha256_of(
            self.store_map()[k].1,
        )
    }

    /// The published digest: the tree root wrapped under the namespace
    /// label.
    pub open spec fn spec_root_hash(self) -> Seq<u8> {
        labeled_hash(label_seq(), subtree_hash(self.tree@))
    }

    /// An empty store with no certificate.
    pub fn new() -> (r: Self)
        ensures
            r.wf(),
            r.store_map() == Map::<Seq<u8>, (HeadersV, Seq<u8>)>::empty(),
            r.commit_map() == Map::<Seq<u8>, Seq<u8>>::empty(),
            r.certificate is None,
    {
        let r = CertifiedAssets { tree: CommitmentTree::new(), assets: Vec::new(), certificate: None };
        proof {
            assert(store_map_of(r.assets@) =~= Map::<Seq<u8>, (HeadersV, Seq<u8>)>::empty());
        }
        r
    }

    /// Stores the anchor's certificate for the published digest.
    pub fn set_certificate(&mut self, cert: Vec<u8>)
        ensures
            final(self).certificate == Some(cert),
            final(self).tree == old(self).tree,
            final(self).assets == old(self).assets,
    {
        self.certificate = Some(cert);
    }

    /// The published digest: the namespace-wrapped root of the commitment
    /// tree.  This is the value handed to the anchor.
    pub fn root_hash(&self) -> (r: Vec<u8>)
        ensures
            r@ == self.spec_root_hash(),
            r@.len() == 32,
    {
        let t = self.tree.root();
        hash_labeled(&label_vec(), &t)
    }

    /// Recomputes the namespace-wrapped digest for publication; the caller
    /// hands it to the anchor.
    pub fn certify(&self) -> (r: Vec<u8>)
        ensures
            r@ == self.spec_root_hash(),
            r@.len() == 32,
    {
        self.root_hash()
    }

    /// Commits `hash` under `label` without storing content.  When `label`
    /// is a stored path, the hash must be the hash of its bytes, so that
    /// store and tree never disagree.
    pub fn add_value_to_certify(&mut self, label: &str, hash: &Vec<u8>)
        requires
            old(self).wf(),
            hash@.len() == 32,
            old(self).store_map().contains_key(encode_utf8(label@)) ==> hash@ == sha256_of(
                old(self).store_map()[encode_utf8(label@)].1,
            ),
        ensures
            final(self).wf(),
            final(self).commit_map() == old(self).commit_map().insert(encode_utf8(label@), hash@),
            final(self).store_map() == old(self).store_map(),
            final(self).certificate == old(self).certificate,
    {
        let key = label.as_bytes_vec();
        let h = copy_bytes(hash);
        self.tree.insert(key, h);
    }

    /// Commits `hash` under `label` after checking that it agrees with any
    /// bytes stored there: when `label` is a stored path whose content hash
    /// differs from `hash`, nothing is changed and `false` is returned.
    pub fn try_add_value_to_certify(&mut self, label: &str, hash: &Vec<u8>) -> (r: bool)
        requires
            old(self).wf(),
            hash@.len() == 32,
        ensures
            final(self).wf(),
            r == (old(self).store_map().contains_key(encode_utf8(label@)) ==> hash@ == sha256_of(
                old(self).store_map()[encode_utf8(label@)].1,
            )),
            r ==> final(self).commit_map() == old(self).commit_map().insert(
                encode_utf8(label@),
                hash@,
            ),
            !r ==> final(self).commit_map() == old(self).commit_map(),
            final(self).store_map() == old(self).store_map(),
            final(self).certificate == old(self).certificate,
    {
        let ok = match self.asset(label) {
            None => true,
            Some((_, bytes)) => {
                let h = sha256(bytes.as_slice());
                bytes_eq(&h, hash)
            },
        };
        if ok {
            self.add_value_to_certify(label, hash);
        }
        ok
    }

    /// Registers `bytes` under every path of `paths`: each path's record is
    /// replaced and its content hash committed.  Publication is separate;
    /// see [`Self::certify`].
    pub fn add_asset(&mut self, paths: &Vec<Vec<u8>>, headers: Headers, bytes: Vec<u8>)
        requires
            old(self).wf(),
        ensures
            final(self).wf(),
            final(self).state() == spec_add(
                old(self).state(),
                paths.deep_view(),
                headers.deep_view(),
                bytes@,
            ),
            final(self).certificate == old(self).certificate,
    {
        let h = sha256(bytes.as_slice());
        let ghost s0 = self.state();
        let ghost pv = paths.deep_view();
        let mut i: usize = 0;
        proof {
            assert(pv.take(0) =~= Seq::<Seq<u8>>::empty());
        }
        while i < paths.len()
            invariant
                i <= paths@.len(),
                pv == paths.deep_view(),
                pv.len() == paths@.len(),
                forall|j: int| 0 <= j < paths@.len() ==> (#[trigger] pv[j]) == paths@[j]@,
                h@ == sha256_of(bytes@),
                h@.len() == 32,
                self.wf(),
                self.state() == spec_add(s0, pv.take(i as int), headers.deep_view(), bytes@),
                self.certificate == old(self).certificate,
            decreases paths@.len() - i,
        {
            let ghost pre = self.state();
            let ghost a0 = self.assets@;
            let path = copy_bytes(&paths[i]);
            let rec = ContentRecord { headers: copy_headers(&headers), bytes: copy_bytes(&bytes) };
            self.tree.insert(copy_bytes(&path), copy_bytes(&h));
            self.assets.push((path, rec));
            proof {
                assert(self.assets@.drop_last() =~= a0);
                assert(self.assets@.last().0@ == pv[i as int]);
                assert(record_view(self.assets@.last().1) == (headers.deep_view(), bytes@));
                assert(self.store_map() == pre.0.insert(pv[i as int], (headers.deep_view(), bytes@)));
                assert(self.state() == spec_put(pre, pv[i as int], headers.deep_view(), bytes@));
                lemma_spec_add_snoc(s0, pv.take(i as int), pv[i as int], headers.deep_view(), bytes@);
                assert(pv.take(i + 1) =~= pv.take(i as int).push(pv[i as int]));
                assert forall|k: Seq<u8>| #[trigger] self.store_map().contains_key(k) implies self
                    .commit_map()
                    .contains_key(k) && self.commit_map()[k] == sha256_of(
                    self.store_map()[k].1,
                ) by {
                    if k != pv[i as int] {
                        assert(pre.0.contains_key(k));
                    }
                }
            }
            i = i + 1;
        }
        proof {
            assert(pv.take(pv.len() as int) =~= pv);
        }
    }

    /// The stored record for `path`, or nothing when the path is not
    /// registered.
    pub fn asset(&self, path: &str) -> (r: Option<(Headers, Vec<u8>)>)
        ensures
            match r {
                Some(p) => self.store_map().contains_key(encode_utf8(path@))
                    && p.0.deep_view() == self.store_map()[encode_utf8(path@)].0 && p.1@
                    == self.store_map()[encode_utf8(path@)].1,
                None => !self.store_map().contains_key(encode_utf8(path@)),
            },
    {
        let key = path.as_bytes_vec();
        let mut i: usize = self.assets.len();
        loop
            invariant
                i <= self.assets@.len(),
                key@ == encode_utf8(path@),
                forall|l: int| i <= l < self.assets@.len() ==> (#[trigger] self.assets@[l]).0@
                    != key@,
            decreases i,
        {
            if i == 0 {
                proof {
                    lemma_store_absent(self.assets@, key@);
                }
                return None;
            }
            i = i - 1;
            if bytes_eq(&self.assets[i].0, &key) {
                proof {
                    lemma_store_last_match(self.assets@, i as int);
                }
                let rec = &self.assets[i].1;
                return Some((copy_headers(&rec.headers), copy_bytes(&rec.bytes)));
            }
        }
    }

    /// The certificate transport header for `path`: the anchor certificate
    /// and the serialized namespace-wrapped witness, base64-encoded.  Fails
    /// exactly when the anchor has issued no certificate yet, which can only
    /// be the case before the first finalization.
    pub fn certificate_header(&self, path: &str) -> (r: Result<(String, String), StoreError>)
        requires
            self.wf(),
        ensures
            r is Err <==> self.certificate is None,
            r is Err ==> r == Err::<(String, String), StoreError>(StoreError::NoCertificate),
            r matches Ok(h) ==> {
                &&& h.0@ == "IC-Certificate"@
                &&& exists|wt: HashTree|
                    {
                        &&& h.1@ == certificate_header_value(
                            self.certificate.unwrap()@,
                            #[trigger] tagged_tree_encoding(wt),
                        )
                        &&& reconstruct(wt) == self.spec_root_hash()
                        &&& wt matches HashTree::Labeled(lab, sub) && lab@ == label_seq()
                            && exposes_only(*sub, encode_utf8(path@)) && (
                        self.commit_map().contains_key(encode_utf8(path@)) ==> proves_value(
                            *sub,
                            encode_utf8(path@),
                            self.commit_map()[encode_utf8(path@)],
                        ))
                    }
            },
    {
        match &self.certificate {
            None => Err(StoreError::NoCertificate),
            Some(cert) => {
                let key = path.as_bytes_vec();
                let w = self.tree.witness(&key);
                let wrapped = HashTree::Labeled(label_vec(), Box::new(w));
                let tree_bytes = encode_tree(&wrapped);
                let value = format_certificate_header(cert, &tree_bytes);
                proof {
                    reveal_with_fuel(reconstruct, 2);
                    assert(reconstruct(wrapped) == self.spec_root_hash());
                }
                Ok((String::from_str("IC-Certificate"), value))
            },
        }
    }

    /// The stored record for `path` together with its certificate header.
    /// An unregistered path is a normal empty result; a registered path
    /// without an anchor certificate is an error, never an uncertified
    /// response.
    pub fn asset_certified(&self, path: &str) -> (r: Result<
        Option<(Headers, Vec<u8>)>,
        StoreError,
    >)
        requires
            self.wf(),
        ensures
            r matches Ok(None) <==> !self.store_map().contains_key(encode_utf8(path@)),
            r is Err <==> self.store_map().contains_key(encode_utf8(path@))
                && self.certificate is None,
            r is Err ==> r == Err::<Option<(Headers, Vec<u8>)>, StoreError>(
                StoreError::NoCertificate,
            ),
            r matches Ok(Some(p)) ==> {
                &&& self.store_map().contains_key(encode_utf8(path@))
                &&& self.certificate is Some
                &&& p.1@ == self.store_map()[encode_utf8(path@)].1
                &&& p.0.deep_view().len() == self.store_map()[encode_utf8(path@)].0.len() + 1
                &&& p.0.deep_view().drop_last() == self.store_map()[encode_utf8(path@)].0
                &&& p.0.deep_view().last().0 == "IC-Certificate"@
                &&& exists|wt: HashTree|
                    {
                        &&& p.0.deep_view().last().1 == certificate_header_value(
                            self.certificate.unwrap()@,
                            #[trigger] tagged_tree_encoding(wt),
                        )
                        &&& reconstruct(wt) == self.spec_root_hash()
                        &&& wt matches HashTree::Labeled(lab, sub) && lab@ == label_seq()
                            && exposes_only(*sub, encode_utf8(path@)) && proves_value(
                            *sub,
                            encode_utf8(path@),
                            self.commit_map()[encode_utf8(path@)],
                        )
                    }
            },
    {
        match self.asset(path) {
            None => Ok(None),
            Some((mut headers, bytes)) => {
                match self.certificate_header(path) {
                    Err(e) => Err(e),
                    Ok(h) => {
                        let ghost hv0 = headers.deep_view();
                        let ghost hval = h.1@;
                        headers.push(h);
                        proof {
                            assert(headers.deep_view() =~= hv0.push(
                                (("IC-Certificate")@, headers@.last().1@),
                            ));
                            assert(headers.deep_view().drop_last() =~= hv0);
                            assert(headers.deep_view().last().1 == hval);
                            let wt = choose|wt: HashTree|
                                {
                                    &&& hval == certificate_header_value(
                                        self.certificate.unwrap()@,
                                        #[trigger] tagged_tree_encoding(wt),
                                    )
                                    &&& reconstruct(wt) == self.spec_root_hash()
                                    &&& wt matches HashTree::Labeled(lab, sub) && lab@
                                        == label_seq() && exposes_only(*sub, encode_utf8(path@))
                                        && (self.commit_map().contains_key(encode_utf8(path@))
                                        ==> proves_value(
                                        *sub,
                                        encode_utf8(path@),
                                        self.commit_map()[encode_utf8(path@)],
                                    ))
                                };
                            assert(self.commit_map().contains_key(encode_utf8(path@)));
                            assert(hval == certificate_header_value(
                                self.certificate.unwrap()@,
                                tagged_tree_encoding(wt),
                            ));
                        }
                        Ok(Some((headers, bytes)))
                    },
                }
            },
        }
    }
}

/// Copies a header list.
pub fn copy_headers(h: &Headers) -> (r: Headers)
    ensures
        r.deep_view() == h.deep_view(),
{
    let mut r: Headers = Vec::new();
    let mut i: usize = 0;
    while i < h.len()
        invariant
            i <= h@.len(),
            r@.len() == i,
            forall|j: int| 0 <= j < i ==> (#[trigger] r@[j]).deep_view() == h@[j].deep_view(),
        decreases h@.len() - i,
    {
        let name = String::from_str(h[i].0.as_str());
        let value = String::from_str(h[i].1.as_str());
        r.push((name, value));
        i = i + 1;
    }
    proof {
        assert(r.deep_view() =~= h.deep_view()) by {
            assert(forall|j: int| 0 <= j < r@.len() ==> r.deep_view()[j] == (#[trigger] r@[j]).deep_view());
            assert(forall|j: int| 0 <= j < h@.len() ==> h.deep_view()[j] == (#[trigger] h@[j]).deep_view());
        }
    }
    r
}

} // verus!
