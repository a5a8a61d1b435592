//! Wire encodings: the canonical self-describing binary encoding of a hash
//! tree, base64, and the certificate transport header value.

use vstd::prelude::*;
use vstd::string::StringExecFns;

use crate::witness::HashTree;

verus! {

/// `n` as `w` big-endian bytes.
pub open spec fn be_bytes(n: nat, w: nat) -> Seq<u8>
    decreases w,
{
    if w == 0 {
        Seq::empty()
    } else {
        be_bytes(n / 256, (w - 1) as nat) + seq![(n % 256) as u8]
    }
}

/// The header of a byte string in the binary tree encoding: major type 2
/// with the shortest length form.
pub open spec fn bytes_header(n: nat) -> Seq<u8> {
    if n < 24 {
        seq![(0x40 + n) as u8]
    } else if n < 0x100 {
        seq![0x58u8] + be_bytes(n, 1)
    } else if n < 0x10000 {
        seq![0x59u8] + be_bytes(n, 2)
    } else if n < 0x100000000 {
        seq![0x5au8] + be_bytes(n, 4)
    } else {
        seq![0x5bu8] + be_bytes(n, 8)
    }
}

/// The canonical binary encoding of a hash tree node: a small array holding
/// a node-kind marker followed by the node's data.
pub open spec fn tree_encoding(t: HashTree) -> Seq<u8>
    decreases t,
{
    match t {
        HashTree::Empty => seq![0x81u8, 0x00],
        HashTree::Fork(l, r) => seq![0x83u8, 0x01] + tree_encoding(*l) + tree_encoding(*r),
        HashTree::Labeled(lab, s) => seq![0x83u8, 0x02] + bytes_header(lab@.len()) + lab@
            + tree_encoding(*s),
        HashTree::Leaf(b) => seq![0x82u8, 0x03] + bytes_header(b@.len()) + b@,
        HashTree::Pruned(h) => seq![0x82u8, 0x04] + bytes_header(h@.len()) + h@,
    }
}

/// The full serialized witness: a self-describing tag in front of the tree
/// encoding.
pub open spec fn tagged_tree_encoding(t: HashTree) -> Seq<u8> {
    seq![0xd9u8, 0xd9u8, 0xf7u8] + tree_encoding(t)
}

fn push_be(out: &mut Vec<u8>, n: u64, w: u8) -> (nothing: ())
    ensures
        final(out)@ == old(out)@ + be_bytes(n as nat, w as nat),
    decreases w,
{
    if w == 0 {
        proof {
            assert(out@ =~= out@ + be_bytes(n as nat, 0));
        }
    } else {
        push_be(out, n / 256, w - 1);
        out.push((n % 256) as u8);
        proof {
            assert(out@ =~= old(out)@ + be_bytes(n as nat, w as nat));
        }
    }
}

fn push_bytes_header(out: &mut Vec<u8>, n: usize)
    ensures
        final(out)@ == old(out)@ + bytes_header(n as nat),
{
    if n < 24 {
        out.push(0x40 + n as u8);
        proof {
            assert(out@ =~= old(out)@ + bytes_header(n as nat));
        }
    } else if n < 0x100 {
        out.push(0x58);
        push_be(out, n as u64, 1);
        proof {
            assert(out@ =~= old(out)@ + bytes_header(n as nat));
        }
    } else if n < 0x10000 {
        out.push(0x59);
        push_be(out, n as u64, 2);
        proof {
            assert(out@ =~= old(out)@ + bytes_header(n as nat));
        }
    } else {
        let m = n as u64;
        if m < 0x100000000 {
            out.push(0x5a);
            push_be(out, m, 4);
            proof {
                assert(out@ =~= old(out)@ + bytes_header(n as nat));
            }
        } else {
            out.push(0x5b);
            push_be(out, m, 8);
            proof {
                assert(out@ =~= old(out)@ + bytes_header(n as nat));
            }
        }
    }
}

fn encode_node(t: &HashTree, out: &mut Vec<u8>)
    ensures
        final(out)@ == old(out)@ + tree_encoding(*t),
    decreases *t,
{
    match t {
        HashTree::Empty => {
            out.push(0x81);
            out.push(0x00);
            proof {
                assert(out@ =~= old(out)@ + tree_encoding(*t));
            }
        },
        HashTree::Fork(l, r) => {
            out.push(0x83);
            out.push(0x01);
            encode_node(l, out);
            encode_node(r, out);
            proof {
                assert(out@ =~= old(out)@ + tree_encoding(*t));
            }
        },
        HashTree::Labeled(lab, s) => {
            out.push(0x83);
            out.push(0x02);
            push_bytes_header(out, lab.len());
            out.extend_from_slice(lab.as_slice());
            encode_node(s, out);
            proof {
                assert(out@ =~= old(out)@ + tree_encoding(*t));
            }
        },
        HashTree::Leaf(b) => {
            out.push(0x82);
            out.push(0x03);
            push_bytes_header(out, b.len());
            out.extend_from_slice(b.as_slice());
            proof {
                assert(out@ =~= old(out)@ + tree_encoding(*t));
            }
        },
        HashTree::Pruned(h) => {
            out.push(0x82);
            out.push(0x04);
            push_bytes_header(out, h.len());
            out.extend_from_slice(h.as_slice());
            proof {
                assert(out@ =~= old(out)@ + tree_encoding(*t));
            }
        },
    }
}

/// Serializes a hash tree to its canonical self-describing binary form.
pub fn encode_tree(t: &HashTree) -> (r: Vec<u8>)
    ensures
        r@ == tagged_tree_encoding(*t),
{
    let mut out: Vec<u8> = Vec::new();
    out.push(0xd9);
    out.push(0xd9);
    out.push(0xf7);
    let ghost prefix = out@;
    encode_node(t, &mut out);
    proof {
        assert(out@ =~= tagged_tree_encoding(*t));
    }
    out
}

/// The base64 form (standard alphabet, with padding) of a byte sequence, as
/// computed by the `base64` crate.
pub uninterp spec fn base64_of(b: Seq<u8>) -> Seq<char>;

/// Relies on `base64`'s `STANDARD` engine (`Engine::encode`): standard
/// alphabet with padding, four output characters for every three input
/// bytes, a function of the input bytes alone.
#[verifier::external_body]
pub fn base64_encode(b: &Vec<u8>) -> (r: String)
    ensures
        r@ == base64_of(b@),
        r@.len() == 4 * ((b@.len() + 2) / 3),
{
    base64::Engine::encode(&base64::engine::general_purpose::STANDARD, b)
}

/// The transport header value carrying the anchor certificate and the
/// serialized witness.
pub open spec fn certificate_header_value(cert: Seq<u8>, tree_bytes: Seq<u8>) -> Seq<char> {
    "certificate=:"@ + base64_of(cert) + ":, tree=:"@ + base64_of(tree_bytes) + ":"@
}

/// Formats the certificate header value: `certificate=:<base64>:, tree=:<base64>:`.
pub fn format_certificate_header(cert: &Vec<u8>, tree_bytes: &Vec<u8>) -> (r: String)
    ensures
        r@ == certificate_header_value(cert@, tree_bytes@),
{
    let mut s = String::from_str("certificate=:");
    let b1 = base64_encode(cert);
    s.append(b1.as_str());
    s.append(":, tree=:");
    let b2 = base64_encode(tree_bytes);
    s.append(b2.as_str());
    s.append(":");
    s
}

} // verus!
