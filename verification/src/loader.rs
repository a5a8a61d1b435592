//! Population of the store: the bundled static frontend, the synthesized
//! well-known assets, the domain list, and the token-supply metrics.
//!
//! The host enumerates the bundled resources and hands them in as plain
//! (relative path, bytes) pairs; the entry page's bytes arrive already
//! passed through the host's content transform.

use vstd::prelude::*;
use vstd::string::StringExecFns;
use vstd::string::StrSliceExecFns;
use vstd::string::StringSliceAdditionalSpecFns;
use vstd::utf8::encode_utf8;

use crate::mime::{headers_for, index_html_headers, mime_of};
use crate::numtext::{units_string, units_text};
use crate::store::{spec_add, CertifiedAssets, CommitV, Headers, HeadersV, StoreError, StoreV};
use crate::tree::{bytes_eq, copy_bytes, CommitmentTree};

verus! {

/// Registering one bundled resource: the entry page goes under both root
/// aliases with the entry-page headers; everything else goes under its
/// slash-prefixed route with its extension's Content-Type.
pub open spec fn spec_add_resource(
    s: (StoreV, CommitV),
    name: Seq<char>,
    bytes: Seq<u8>,
) -> (StoreV, CommitV) {
    if encode_utf8(name) == "index.html".spec_bytes() {
        spec_add(
            s,
            seq![encode_utf8("/"@), encode_utf8("/index.html"@)],
            seq![("Content-Type"@, "text/html; charset=UTF-8"@)],
            bytes,
        )
    } else {
        spec_add(
            s,
            seq![encode_utf8("/"@ + name)],
            seq![("Content-Type"@, mime_of(encode_utf8(name)))],
            bytes,
        )
    }
}

/// Registering every bundled resource in turn.
pub open spec fn spec_add_resources(
    s: (StoreV, CommitV),
    rs: Seq<(Seq<char>, Seq<u8>)>,
) -> (StoreV, CommitV)
    decreases rs.len(),
{
    if rs.len() == 0 {
        s
    } else {
        spec_add_resources(spec_add_resource(s, rs[0].0, rs[0].1), rs.drop_first())
    }
}

pub proof fn lemma_add_resources_snoc(
    s: (StoreV, CommitV),
    rs: Seq<(Seq<char>, Seq<u8>)>,
    x: (Seq<char>, Seq<u8>),
)
    ensures
        spec_add_resources(s, rs.push(x)) == spec_add_resource(
            spec_add_resources(s, rs),
            x.0,
            x.1,
        ),
    decreases rs.len(),
{
    let pp = rs.push(x);
    if rs.len() == 0 {
        assert(pp.drop_first() =~= Seq::<(Seq<char>, Seq<u8>)>::empty());
        assert(pp[0] == x);
        assert(spec_add_resources(s, pp) == spec_add_resources(
            spec_add_resource(s, x.0, x.1),
            pp.drop_first(),
        ));
        assert(spec_add_resources(spec_add_resource(s, x.0, x.1), pp.drop_first())
            == spec_add_resource(s, x.0, x.1));
        assert(spec_add_resources(s, rs) == s);
    } else {
        assert(pp.drop_first() =~= rs.drop_first().push(x));
        assert(pp[0] == rs[0]);
        assert(spec_add_resources(s, pp) == spec_add_resources(
            spec_add_resource(s, rs[0].0, rs[0].1),
            rs.drop_first().push(x),
        ));
        lemma_add_resources_snoc(spec_add_resource(s, rs[0].0, rs[0].1), rs.drop_first(), x);
        assert(spec_add_resources(s, rs) == spec_add_resources(
            spec_add_resource(s, rs[0].0, rs[0].1),
            rs.drop_first(),
        ));
    }
}

/// The domain list asset body: the domain names joined by newlines.
pub open spec fn join_lines(ds: Seq<Seq<char>>) -> Seq<char>
    decreases ds.len(),
{
    if ds.len() == 0 {
        Seq::empty()
    } else if ds.len() == 1 {
        ds[0]
    } else {
        ds[0] + seq!['\n'] + join_lines(ds.drop_first())
    }
}

pub proof fn lemma_join_lines_snoc(ds: Seq<Seq<char>>, x: Seq<char>)
    ensures
        join_lines(ds.push(x)) == if ds.len() == 0 {
            x
        } else {
            join_lines(ds) + seq!['\n'] + x
        },
    decreases ds.len(),
{
    let pp = ds.push(x);
    if ds.len() == 0 {
        assert(pp[0] == x);
        assert(join_lines(pp) == x);
    } else if ds.len() == 1 {
        assert(pp[0] == ds[0]);
        assert(pp.drop_first() =~= seq![x]);
        assert(join_lines(pp.drop_first()) == x);
        assert(join_lines(pp) == ds[0] + seq!['\n'] + x);
    } else {
        assert(pp[0] == ds[0]);
        assert(pp.drop_first() =~= ds.drop_first().push(x));
        lemma_join_lines_snoc(ds.drop_first(), x);
        assert(join_lines(pp) == pp[0] + seq!['\n'] + join_lines(pp.drop_first()));
        assert(join_lines(ds) == ds[0] + seq!['\n'] + join_lines(ds.drop_first()));
    }
}

/// The names of the configured domains, in configuration order.
pub open spec fn domain_names(ds: Seq<(Seq<char>, bool)>) -> Seq<Seq<char>> {
    ds.map_values(|p: (Seq<char>, bool)| p.0)
}

/// The allowed-origins JSON body for a platform id.
pub open spec fn origins_json(id: Seq<char>) -> Seq<char> {
    "{\"alternativeOrigins\": [ \"https://"@ + id + ".ic0.app\",\"https://"@ + id
        + ".icp0.io\" ]}"@
}

/// The full initial state: the bundled resources, then the allowed-origins
/// asset, then the domain list.
pub open spec fn spec_load(
    rs: Seq<(Seq<char>, Seq<u8>)>,
    ds: Seq<(Seq<char>, bool)>,
    id: Seq<char>,
) -> (StoreV, CommitV) {
    let s1 = spec_add_resources(
        (Map::<Seq<u8>, (HeadersV, Seq<u8>)>::empty(), Map::<Seq<u8>, Seq<u8>>::empty()),
        rs,
    );
    let s2 = spec_add(
        s1,
        seq![encode_utf8("/.well-known/ii-alternative-origins"@)],
        seq![("Content-Type"@, "application/json"@)],
        encode_utf8(origins_json(id)),
    );
    spec_add(
        s2,
        seq![encode_utf8("/.well-known/ic-domains"@)],
        Seq::<(Seq<char>, Seq<char>)>::empty(),
        encode_utf8(join_lines(domain_names(ds))),
    )
}

/// Headers for a synthesized JSON asset.
fn json_headers() -> (r: Headers)
    ensures
        r.deep_view() == seq![("Content-Type"@, "application/json"@)],
{
    let mut r: Headers = Vec::new();
    r.push((String::from_str("Content-Type"), String::from_str("application/json")));
    proof {
        assert(r.deep_view() =~= seq![("Content-Type"@, "application/json"@)]);
    }
    r
}

fn single_path(p: Vec<u8>) -> (r: Vec<Vec<u8>>)
    ensures
        r.deep_view() == seq![p@],
{
    let mut r: Vec<Vec<u8>> = Vec::new();
    r.push(p);
    proof {
        assert(r.deep_view() =~~= seq![r@[0]@]);
    }
    r
}

impl CertifiedAssets {
    /// Registers the domain list under its well-known path: the names
    /// joined by newlines, with no extra headers.
    pub fn add_domains(&mut self, domains: &Vec<String>)
        requires
            old(self).wf(),
        ensures
            final(self).wf(),
            final(self).state() == spec_add(
                old(self).state(),
                seq![encode_utf8("/.well-known/ic-domains"@)],
                Seq::<(Seq<char>, Seq<char>)>::empty(),
                encode_utf8(join_lines(domains.deep_view())),
            ),
            final(self).certificate == old(self).certificate,
    {
        let ghost dv = domains.deep_view();
        let mut joined = String::from_str("");
        proof {
            reveal_strlit("");
            reveal_strlit("\n");
            assert(dv.take(0) =~= Seq::<Seq<char>>::empty());
        }
        let mut i: usize = 0;
        while i < domains.len()
            invariant
                i <= domains@.len(),
                dv == domains.deep_view(),
                dv.len() == domains@.len(),
                forall|j: int| 0 <= j < domains@.len() ==> (#[trigger] dv[j]) == domains@[j]@,
                joined@ == join_lines(dv.take(i as int)),
                "\n"@ == seq!['\n'],
            decreases domains@.len() - i,
        {
            if i > 0 {
                joined.append("\n");
            }
            joined.append(domains[i].as_str());
            proof {
                lemma_join_lines_snoc(dv.take(i as int), dv[i as int]);
                assert(dv.take(i + 1) =~= dv.take(i as int).push(dv[i as int]));
            }
            i = i + 1;
        }
        proof {
            assert(dv.take(dv.len() as int) =~= dv);
        }
        let bytes = joined.as_str().as_bytes_vec();
        let ps = single_path("/.well-known/ic-domains".as_bytes_vec());
        let empty_headers: Headers = Vec::new();
        proof {
            assert(empty_headers.deep_view() =~= Seq::<(Seq<char>, Seq<char>)>::empty());
        }
        self.add_asset(&ps, empty_headers, bytes);
    }

    /// Registers every bundled resource.  The entry page must arrive with
    /// the host's content transform already applied to its bytes.
    pub fn add_static_frontend(&mut self, resources: &Vec<(String, Vec<u8>)>)
        requires
            old(self).wf(),
        ensures
            final(self).wf(),
            final(self).state() == spec_add_resources(old(self).state(), resources.deep_view()),
            final(self).certificate == old(self).certificate,
    {
        let ghost rv = resources.deep_view();
        let ghost s0 = self.state();
        proof {
            assert(rv.take(0) =~= Seq::<(Seq<char>, Seq<u8>)>::empty());
        }
        let mut i: usize = 0;
        while i < resources.len()
            invariant
                i <= resources@.len(),
                rv == resources.deep_view(),
                rv.len() == resources@.len(),
                forall|j: int| 0 <= j < resources@.len() ==> (#[trigger] rv[j]) == (
                    resources@[j].0@,
                    resources@[j].1@,
                ),
                self.wf(),
                self.state() == spec_add_resources(s0, rv.take(i as int)),
                self.certificate == old(self).certificate,
            decreases resources@.len() - i,
        {
            let name = &resources[i].0;
            let bytes = copy_bytes(&resources[i].1);
            let nb = name.as_str().as_bytes_vec();
            let lit = "index.html".as_bytes_vec();
            if bytes_eq(&nb, &lit) {
                let mut ps: Vec<Vec<u8>> = Vec::new();
                ps.push("/".as_bytes_vec());
                ps.push("/index.html".as_bytes_vec());
                proof {
                    assert(ps.deep_view() =~~= seq![
                        encode_utf8("/"@),
                        encode_utf8("/index.html"@),
                    ]);
                }
                self.add_asset(&ps, index_html_headers(), bytes);
            } else {
                let mut route = String::from_str("/");
                route.append(name.as_str());
                let ps = single_path(route.as_str().as_bytes_vec());
                self.add_asset(&ps, headers_for(name.as_str()), bytes);
            }
            proof {
                lemma_add_resources_snoc(s0, rv.take(i as int), rv[i as int]);
                assert(rv.take(i + 1) =~= rv.take(i as int).push(rv[i as int]));
            }
            i = i + 1;
        }
        proof {
            assert(rv.take(rv.len() as int) =~= rv);
        }
    }

    /// The allowed-origins JSON body for this platform id.
    fn origins_body(canister_id: &str) -> (r: Vec<u8>)
        ensures
            r@ == encode_utf8(origins_json(canister_id@)),
    {
        let mut s = String::from_str("{\"alternativeOrigins\": [ \"https://");
        s.append(canister_id);
        s.append(".ic0.app\",\"https://");
        s.append(canister_id);
        s.append(".icp0.io\" ]}");
        s.as_str().as_bytes_vec()
    }

    /// Builds the initial state from the bundled resources, the domain
    /// configuration and the platform id, then finalizes.  Requires at
    /// least one domain without an explicit owner; otherwise nothing is
    /// changed and the configuration error is returned.  On success the
    /// published digest is returned for the anchor.
    pub fn load(
        &mut self,
        resources: &Vec<(String, Vec<u8>)>,
        domains: &Vec<(String, bool)>,
        canister_id: &str,
    ) -> (r: Result<Vec<u8>, StoreError>)
        requires
            old(self).wf(),
        ensures
            final(self).wf(),
            r is Err <==> (forall|j: int|
                0 <= j < domains.deep_view().len() ==> (#[trigger] domains.deep_view()[j]).1),
            r is Err ==> r == Err::<Vec<u8>, StoreError>(StoreError::NoUnownedDomain)
                && final(self).state() == old(self).state(),
            r matches Ok(d) ==> final(self).state() == spec_load(
                resources.deep_view(),
                domains.deep_view(),
                canister_id@,
            ) && d@ == final(self).spec_root_hash(),
            final(self).certificate == old(self).certificate,
    {
        let ghost dv = domains.deep_view();
        let mut has_unowned = false;
        let mut i: usize = 0;
        while i < domains.len()
            invariant
                i <= domains@.len(),
                dv == domains.deep_view(),
                dv.len() == domains@.len(),
                forall|j: int| 0 <= j < domains@.len() ==> (#[trigger] dv[j]) == (
                    domains@[j].0@,
                    domains@[j].1,
                ),
                has_unowned == exists|j: int| 0 <= j < i && !(#[trigger] dv[j]).1,
            decreases domains@.len() - i,
        {
            if !domains[i].1 {
                has_unowned = true;
                proof {
                    assert(!dv[i as int].1);
                }
            }
            i = i + 1;
        }
        if !has_unowned {
            return Err(StoreError::NoUnownedDomain);
        }
        self.tree = CommitmentTree::new();
        self.assets = Vec::new();
        proof {
            assert(self.store_map() =~= Map::<Seq<u8>, (HeadersV, Seq<u8>)>::empty());
        }
        self.add_static_frontend(resources);
        let ps = single_path("/.well-known/ii-alternative-origins".as_bytes_vec());
        let body = Self::origins_body(canister_id);
        self.add_asset(&ps, json_headers(), body);
        let mut names: Vec<String> = Vec::new();
        let mut k: usize = 0;
        while k < domains.len()
            invariant
                k <= domains@.len(),
                dv == domains.deep_view(),
                dv.len() == domains@.len(),
                forall|j: int| 0 <= j < domains@.len() ==> (#[trigger] dv[j]) == (
                    domains@[j].0@,
                    domains@[j].1,
                ),
                names@.len() == k,
                forall|j: int| 0 <= j < k ==> (#[trigger] names@[j])@ == dv[j].0,
            decreases domains@.len() - k,
        {
            names.push(String::from_str(domains[k].0.as_str()));
            k = k + 1;
        }
        proof {
            assert(names.deep_view() =~= domain_names(dv)) by {
                assert(forall|j: int| 0 <= j < names@.len() ==> names.deep_view()[j]
                    == (#[trigger] names@[j])@);
            }
        }
        self.add_domains(&names);
        Ok(self.certify())
    }

    /// Registers the token-supply metrics as JSON number texts, scaled by
    /// the base unit, and returns the recomputed digest for the anchor.
    pub fn export_token_supply(
        &mut self,
        total_supply: u128,
        maximum_supply: u128,
        base: u128,
    ) -> (r: Vec<u8>)
        requires
            old(self).wf(),
            1 <= base <= u128::MAX / 10,
        ensures
            final(self).wf(),
            final(self).state() == spec_add(
                spec_add(
                    old(self).state(),
                    seq![encode_utf8("/api/v1/total_supply"@)],
                    seq![("Content-Type"@, "application/json"@)],
                    encode_utf8(units_text(total_supply as nat, base as nat)),
                ),
                seq![encode_utf8("/api/v1/maximum_supply"@)],
                seq![("Content-Type"@, "application/json"@)],
                encode_utf8(units_text(maximum_supply as nat, base as nat)),
            ),
            final(self).certificate == old(self).certificate,
            r@ == final(self).spec_root_hash(),
    {
        let ps1 = single_path("/api/v1/total_supply".as_bytes_vec());
        let b1 = units_string(total_supply, base);
        self.add_asset(&ps1, json_headers(), b1.as_str().as_bytes_vec());
        let ps2 = single_path("/api/v1/maximum_supply".as_bytes_vec());
        let b2 = units_string(maximum_supply, base);
        self.add_asset(&ps2, json_headers(), b2.as_str().as_bytes_vec());
        self.certify()
    }
}

} // verus!
