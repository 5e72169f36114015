//! Deterministic identifiers: the first sixteen bytes of a BLAKE3 digest,
//! read as a little-endian number.

use vstd::bytes::*;
use vstd::prelude::*;
use vstd::slice::*;
use vstd::string::*;

use crate::error::push_text;
use crate::text::text;

verus! {

/// The 32-byte BLAKE3 digest of a message.
pub uninterp spec fn blake3_digest(data: Seq<u8>) -> Seq<u8>;

/// `blake3::hash`: the digest of `data`, 32 bytes. The digest is that of
/// the BLAKE3 hash function, which depends on the message alone.
#[verifier::external_body]
pub(crate) fn blake3_hash(data: &[u8]) -> (r: [u8; 32])
    ensures
        r@ == blake3_digest(data@),
{
    *blake3::hash(data).as_bytes()
}

/// The id that a digest gives: its first sixteen bytes as a little-endian
/// number.
pub open spec fn id_of_digest(digest: Seq<u8>) -> u128 {
    spec_u128_from_le_bytes(digest.subrange(0, 16))
}

/// The id of an opaque identifier.
pub open spec fn spec_string_id(id: Seq<u8>) -> u128 {
    id_of_digest(blake3_digest(id))
}

/// What is hashed for a node: type, name, scope and path, with `|`
/// between them.
pub open spec fn node_id_input(node_type: Seq<u8>, name: Seq<u8>, scope: Seq<u8>, path: Seq<u8>) -> Seq<
    u8,
> {
    node_type + seq![124u8] + name + seq![124u8] + scope + seq![124u8] + path
}

/// The id of a node.
pub open spec fn spec_node_id(node_type: Seq<u8>, name: Seq<u8>, scope: Seq<u8>, path: Seq<u8>) -> u128 {
    id_of_digest(blake3_digest(node_id_input(node_type, name, scope, path)))
}

/// The id that a digest gives.
pub fn id_from_digest(digest: &[u8; 32]) -> (r: u128)
    ensures
        r == id_of_digest(digest@),
{
    u128_from_le_bytes(slice_subrange(digest.as_slice(), 0, 16))
}

/// The id of the bytes of a message.
fn id_of_bytes(data: &[u8]) -> (r: u128)
    ensures
        r == id_of_digest(blake3_digest(data@)),
{
    let digest = blake3_hash(data);
    id_from_digest(&digest)
}

/// The id of an identifier such as `SERVICE:name`: it depends on the
/// identifier's bytes alone.
pub fn string_id_to_u128(id: &str) -> (r: u128)
    ensures
        r == spec_string_id(text(id@)),
{
    id_of_bytes(id.as_bytes())
}

/// Appends the bytes of `s`.
fn push_bytes(out: &mut Vec<u8>, s: &[u8])
    ensures
        final(out)@ == old(out)@ + s@,
{
    let mut i: usize = 0;
    assert(out@ =~= old(out)@ + s@.subrange(0, 0));
    while i < s.len()
        invariant
            i <= s@.len(),
            out@ == old(out)@ + s@.subrange(0, i as int),
        decreases s@.len() - i,
    {
        out.push(s[i]);
        i += 1;
        assert(out@ =~= old(out)@ + s@.subrange(0, i as int));
    }
    assert(s@.subrange(0, s@.len() as int) =~= s@);
}

/// What is hashed for a node.
pub fn node_id_bytes(node_type: &str, name: &str, scope: &str, path: &str) -> (r: Vec<u8>)
    ensures
        r@ == node_id_input(text(node_type@), text(name@), text(scope@), text(path@)),
{
    let mut input: Vec<u8> = Vec::new();
    push_bytes(&mut input, node_type.as_bytes());
    input.push(124u8);
    push_bytes(&mut input, name.as_bytes());
    input.push(124u8);
    push_bytes(&mut input, scope.as_bytes());
    input.push(124u8);
    push_bytes(&mut input, path.as_bytes());
    assert(input@ =~= node_id_input(text(node_type@), text(name@), text(scope@), text(path@)));
    input
}

/// The id of a node: it depends on type, name, scope and path alone. The
/// `|` between them keeps `("ab", "c")` apart from `("a", "bc")`.
pub fn compute_node_id(node_type: &str, name: &str, scope: &str, path: &str) -> (r: u128)
    ensures
        r == spec_node_id(text(node_type@), text(name@), text(scope@), text(path@)),
{
    let input = node_id_bytes(node_type, name, scope, path);
    id_of_bytes(input.as_slice())
}

/// The stable id of a node: `TYPE#name#file` for a `FUNCTION` or a
/// `CLASS`, `VARIABLE#name#file#??` for a `VARIABLE`, and
/// `TYPE#file#name#??` for every other type.
pub open spec fn spec_stable_id(node_type: Seq<u8>, name: Seq<u8>, file: Seq<u8>) -> Seq<u8> {
    if node_type == text("FUNCTION"@) || node_type == text("CLASS"@) {
        node_type + text("#"@) + name + text("#"@) + file
    } else if node_type == text("VARIABLE"@) {
        node_type + text("#"@) + name + text("#"@) + file + text("#??"@)
    } else {
        node_type + text("#"@) + file + text("#"@) + name + text("#??"@)
    }
}

/// The stable id of a node, which does not depend on its version.
pub fn compute_stable_id(node_type: &str, name: &str, file: &str) -> (r: String)
    ensures
        text(r@) == spec_stable_id(text(node_type@), text(name@), text(file@)),
{
    let mut out = String::new();
    assert(text(out@) =~= Seq::<u8>::empty());
    push_text(&mut out, node_type);
    assert(text(out@) =~= text(node_type@));
    push_text(&mut out, "#");
    if crate::text::str_eq(node_type, "FUNCTION") || crate::text::str_eq(node_type, "CLASS") {
        push_text(&mut out, name);
        push_text(&mut out, "#");
        push_text(&mut out, file);
    } else if crate::text::str_eq(node_type, "VARIABLE") {
        push_text(&mut out, name);
        push_text(&mut out, "#");
        push_text(&mut out, file);
        push_text(&mut out, "#??");
    } else {
        push_text(&mut out, file);
        push_text(&mut out, "#");
        push_text(&mut out, name);
        push_text(&mut out, "#??");
    }
    out
}

} // verus!
