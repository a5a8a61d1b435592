//! Content-Type classification by file extension: a static, exhaustive
//! extension table; anything unmatched is served as an opaque binary type.

use vstd::prelude::*;
use vstd::string::StringExecFns;
use vstd::string::StrSliceExecFns;
use vstd::string::StringSliceAdditionalSpecFns;
use vstd::utf8::encode_utf8;

use crate::store::Headers;
use crate::tree::bytes_eq;

verus! {

/// An ASCII byte lowered to lower case.
pub open spec fn ascii_lower(b: u8) -> u8 {
    if 65 <= b && b <= 90 {
        (b + 32) as u8
    } else {
        b
    }
}

/// A byte string lowered byte by byte.
pub open spec fn lower_seq(s: Seq<u8>) -> Seq<u8> {
    s.map_values(|b: u8| ascii_lower(b))
}

/// The largest index holding `b`, or -1 when `b` does not occur.
pub open spec fn last_index_of(s: Seq<u8>, b: u8) -> int
    decreases s.len(),
{
    if s.len() == 0 {
        -1
    } else if s.last() == b {
        s.len() - 1
    } else {
        last_index_of(s.drop_last(), b)
    }
}

pub proof fn lemma_last_index_at(s: Seq<u8>, b: u8, i: int)
    requires
        0 <= i < s.len(),
        s[i] == b,
        forall|j: int| i < j < s.len() ==> s[j] != b,
    ensures
        last_index_of(s, b) == i,
    decreases s.len(),
{
    if i < s.len() - 1 {
        assert(s.drop_last()[i] == s[i]);
        assert forall|j: int| i < j < s.drop_last().len() implies s.drop_last()[j] != b by {
            assert(s.drop_last()[j] == s[j]);
        }
        lemma_last_index_at(s.drop_last(), b, i);
    }
}

pub proof fn lemma_last_index_none(s: Seq<u8>, b: u8)
    requires
        forall|j: int| 0 <= j < s.len() ==> s[j] != b,
    ensures
        last_index_of(s, b) == -1,
    decreases s.len(),
{
    if s.len() > 0 {
        assert forall|j: int| 0 <= j < s.drop_last().len() implies s.drop_last()[j] != b by {
            assert(s.drop_last()[j] == s[j]);
        }
        lemma_last_index_none(s.drop_last(), b);
    }
}

/// The file extension of a path: the bytes after the last dot of the final
/// path component, provided that dot is neither the component's first byte
/// nor missing.
pub open spec fn ext_of(p: Seq<u8>) -> Option<Seq<u8>> {
    let d = last_index_of(p, 46);
    let s = last_index_of(p, 47);
    if d > s + 1 && d > 0 {
        Some(p.skip(d + 1))
    } else {
        None
    }
}

/// The Content-Type for a path, by its lowered extension.
pub open spec fn mime_of(p: Seq<u8>) -> Seq<char> {
    match ext_of(p) {
        None => "application/octet-stream"@,
        Some(e0) => {
            let e = lower_seq(e0);
            if e == "html".spec_bytes() {
                "text/html; charset=UTF-8"@
            } else if e == "css".spec_bytes() {
                "text/css"@
            } else if e == "js".spec_bytes() {
                "application/javascript"@
            } else if e == "json".spec_bytes() {
                "application/json"@
            } else if e == "svg".spec_bytes() {
                "image/svg+xml"@
            } else if e == "png".spec_bytes() {
                "image/png"@
            } else if e == "jpg".spec_bytes() || e == "jpeg".spec_bytes() {
                "image/jpeg"@
            } else if e == "webp".spec_bytes() {
                "image/webp"@
            } else if e == "ico".spec_bytes() {
                "image/vnd.microsoft.icon"@
            } else if e == "woff2".spec_bytes() {
                "application/font-woff2"@
            } else if e == "md".spec_bytes() {
                "text/markdown; charset=UTF-8"@
            } else if e == "txt".spec_bytes() {
                "text/plain; charset=UTF-8"@
            } else {
                "application/octet-stream"@
            }
        },
    }
}

/// The largest index of `b` in `v`, if it occurs at all.
fn rfind_byte(v: &Vec<u8>, b: u8) -> (r: Option<usize>)
    ensures
        match r {
            Some(i) => i < v@.len() && last_index_of(v@, b) == i,
            None => last_index_of(v@, b) == -1,
        },
{
    let mut i: usize = v.len();
    loop
        invariant
            i <= v@.len(),
            forall|j: int| i <= j < v@.len() ==> v@[j] != b,
        decreases i,
    {
        if i == 0 {
            proof {
                lemma_last_index_none(v@, b);
            }
            return None;
        }
        i = i - 1;
        if v[i] == b {
            proof {
                lemma_last_index_at(v@, b, i as int);
            }
            return Some(i);
        }
    }
}

/// The bytes of `v` from `from` on.
fn tail_bytes(v: &Vec<u8>, from: usize) -> (r: Vec<u8>)
    requires
        from <= v@.len(),
    ensures
        r@ == v@.skip(from as int),
{
    let mut r: Vec<u8> = Vec::new();
    let mut i: usize = from;
    while i < v.len()
        invariant
            from <= i <= v@.len(),
            r@ =~= v@.subrange(from as int, i as int),
        decreases v@.len() - i,
    {
        r.push(v[i]);
        i = i + 1;
    }
    proof {
        assert(r@ =~= v@.skip(from as int));
    }
    r
}

/// Lowers every byte of `v`.
fn to_lower(v: &Vec<u8>) -> (r: Vec<u8>)
    ensures
        r@ == lower_seq(v@),
{
    let mut r: Vec<u8> = Vec::new();
    let mut i: usize = 0;
    while i < v.len()
        invariant
            i <= v@.len(),
            r@.len() == i,
            forall|j: int| 0 <= j < i ==> r@[j] == ascii_lower(v@[j]),
        decreases v@.len() - i,
    {
        let b = v[i];
        if 65 <= b && b <= 90 {
            r.push(b + 32);
        } else {
            r.push(b);
        }
        i = i + 1;
    }
    proof {
        assert(r@ =~= lower_seq(v@));
    }
    r
}

fn ext_matches(e: &Vec<u8>, lit: &str) -> (r: bool)
    ensures
        r == (e@ == lit.spec_bytes()),
{
    let lv = lit.as_bytes_vec();
    bytes_eq(e, &lv)
}

/// The headers served for the entry page.
pub fn index_html_headers() -> (r: Headers)
    ensures
        r.deep_view() == seq![("Content-Type"@, "text/html; charset=UTF-8"@)],
{
    let mut r: Headers = Vec::new();
    r.push((String::from_str("Content-Type"), String::from_str("text/html; charset=UTF-8")));
    proof {
        assert(r.deep_view() =~= seq![("Content-Type"@, "text/html; charset=UTF-8"@)]);
    }
    r
}

/// The headers served for a path: its Content-Type from the extension
/// table.
pub fn headers_for(path: &str) -> (r: Headers)
    ensures
        r.deep_view() == seq![("Content-Type"@, mime_of(encode_utf8(path@)))],
{
    let pb = path.as_bytes_vec();
    let dot = rfind_byte(&pb, 46);
    let slash = rfind_byte(&pb, 47);
    let mime: &str = match dot {
        None => "application/octet-stream",
        Some(d) => {
            let n = pb.len();
            let sep_ok = match slash {
                None => d > 0,
                Some(s) => d >= 1 && d - 1 > s,
            };
            if !sep_ok || d == 0 {
                "application/octet-stream"
            } else {
                let e = to_lower(&tail_bytes(&pb, d + 1));
                if ext_matches(&e, "html") {
                    "text/html; charset=UTF-8"
                } else if ext_matches(&e, "css") {
                    "text/css"
                } else if ext_matches(&e, "js") {
                    "application/javascript"
                } else if ext_matches(&e, "json") {
                    "application/json"
                } else if ext_matches(&e, "svg") {
                    "image/svg+xml"
                } else if ext_matches(&e, "png") {
                    "image/png"
                } else if ext_matches(&e, "jpg") {
                    "image/jpeg"
                } else if ext_matches(&e, "jpeg") {
                    "image/jpeg"
                } else if ext_matches(&e, "webp") {
                    "image/webp"
                } else if ext_matches(&e, "ico") {
                    "image/vnd.microsoft.icon"
                } else if ext_matches(&e, "woff2") {
                    "application/font-woff2"
                } else if ext_matches(&e, "md") {
                    "text/markdown; charset=UTF-8"
                } else if ext_matches(&e, "txt") {
                    "text/plain; charset=UTF-8"
                } else {
                    "application/octet-stream"
                }
            }
        },
    };
    let mut r: Headers = Vec::new();
    r.push((String::from_str("Content-Type"), String::from_str(mime)));
    proof {
        assert(r.deep_view() =~= seq![("Content-Type"@, mime_of(encode_utf8(path@)))]);
    }
    r
}

} // verus!
