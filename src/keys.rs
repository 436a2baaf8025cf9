//! Layout of the keys under which the index rows are stored.
//!
//! Rows of the default keyspace that enumerate the aliases or the variants of
//! one hash share the hash as a prefix, followed by a separator byte: `0` for
//! alias rows and `2` for variant rows. The half-open ranges
//! `[hash ‖ 0, hash ‖ 1)` and `[hash ‖ 2, hash ‖ 3)` hold exactly those rows.
use vstd::prelude::*;
use vstd::slice::slice_to_vec;
use vstd::string::StringSliceAdditionalSpecFns;

verus! {

/// Separator between a hash and an alias id.
pub const ALIAS_SEPARATOR: u8 = 0;

/// First byte after the alias rows of a hash.
pub const ALIAS_LIMIT: u8 = 1;

/// Separator between a hash and a variant path.
pub const VARIANT_SEPARATOR: u8 = 2;

/// First byte after the variant rows of a hash.
pub const VARIANT_LIMIT: u8 = 3;

/// `hash ‖ 0 ‖ id`: the row that names one alias of a hash.
pub open spec fn alias_row_key(hash: Seq<u8>, id: Seq<u8>) -> Seq<u8> {
    hash.push(ALIAS_SEPARATOR) + id
}

/// `hash ‖ 2 ‖ path`: the row that records one variant of a hash.
pub open spec fn variant_row_key(hash: Seq<u8>, path: Seq<u8>) -> Seq<u8> {
    hash.push(VARIANT_SEPARATOR) + path
}

/// The suffix of the key that holds an alias's id.
pub open spec fn id_suffix() -> Seq<char> {
    seq!['/', 'i', 'd']
}

/// The suffix of the key that holds an alias's delete token.
pub open spec fn delete_suffix() -> Seq<char> {
    seq!['/', 'd', 'e', 'l', 'e', 't', 'e']
}

/// Strict lexicographic order on byte strings, the order of the store's keys.
pub open spec fn lex_lt(a: Seq<u8>, b: Seq<u8>) -> bool
    decreases a.len(),
{
    if b.len() == 0 {
        false
    } else if a.len() == 0 {
        true
    } else if a[0] != b[0] {
        a[0] < b[0]
    } else {
        lex_lt(a.drop_first(), b.drop_first())
    }
}

/// `k` lies in the half-open range `[start, end)`.
pub open spec fn in_range(k: Seq<u8>, start: Seq<u8>, end: Seq<u8>) -> bool {
    !lex_lt(k, start) && lex_lt(k, end)
}

/// Appends `bytes` to `out`.
fn push_all(out: &mut Vec<u8>, bytes: &[u8])
    ensures
        final(out)@ == old(out)@ + bytes@,
{
    let ghost start = out@;
    let n = bytes.len();
    let mut i: usize = 0;
    while i < n
        invariant
            i <= n,
            n == bytes@.len(),
            out@ == start + bytes@.subrange(0, i as int),
        decreases n - i,
    {
        out.push(bytes[i]);
        i = i + 1;
        assert(out@ =~= start + bytes@.subrange(0, i as int));
    }
    assert(bytes@.subrange(0, n as int) =~= bytes@);
}

/// `hash` followed by one byte.
fn hash_then(hash: &[u8], b: u8) -> (key: Vec<u8>)
    ensures
        key@ == hash@.push(b),
{
    let mut key = slice_to_vec(hash);
    key.push(b);
    key
}

/// The key of the row `hash ‖ 0 ‖ id → alias`.
pub fn alias_key(hash: &[u8], id: &str) -> (key: Vec<u8>)
    ensures
        key@ == alias_row_key(hash@, id.spec_bytes()),
{
    let mut key = hash_then(hash, ALIAS_SEPARATOR);
    push_all(&mut key, id.as_bytes());
    key
}

/// The key of the row `hash ‖ 0 ‖ id → alias`, with the id as stored bytes.
pub(crate) fn alias_key_bytes(hash: &[u8], id: &[u8]) -> (key: Vec<u8>)
    ensures
        key@ == alias_row_key(hash@, id@),
{
    let mut key = hash_then(hash, ALIAS_SEPARATOR);
    push_all(&mut key, id);
    key
}

/// Equality of two byte strings.
pub fn bytes_eq(a: &[u8], b: &[u8]) -> (r: bool)
    ensures
        r == (a@ == b@),
{
    if a.len() != b.len() {
        return false;
    }
    let n = a.len();
    let mut i: usize = 0;
    while i < n
        invariant
            i <= n,
            n == a@.len(),
            n == b@.len(),
            forall|j: int| 0 <= j < i ==> a@[j] == b@[j],
        decreases n - i,
    {
        if a[i] != b[i] {
            return false;
        }
        i = i + 1;
    }
    assert(a@ =~= b@);
    true
}

/// The bounds `(hash ‖ 0, hash ‖ 1)` of the alias rows of `hash`.
pub fn alias_key_bounds(hash: &[u8]) -> (bounds: (Vec<u8>, Vec<u8>))
    ensures
        bounds.0@ == hash@.push(ALIAS_SEPARATOR),
        bounds.1@ == hash@.push(ALIAS_LIMIT),
{
    (hash_then(hash, ALIAS_SEPARATOR), hash_then(hash, ALIAS_LIMIT))
}

/// The key `"<alias>/id"` of the row that holds the alias's id.
pub fn alias_id_key(alias: &str) -> (key: String)
    ensures
        key@ == alias@ + id_suffix(),
{
    let mut key = String::from_str(alias);
    let suffix = "/id";
    proof {
        reveal_strlit("/id");
    }
    key.append(suffix);
    assert(key@ =~= alias@ + id_suffix());
    key
}

/// The key `"<alias>/delete"` of the row that holds the alias's delete token.
pub fn delete_key(alias: &str) -> (key: String)
    ensures
        key@ == alias@ + delete_suffix(),
{
    let mut key = String::from_str(alias);
    let suffix = "/delete";
    proof {
        reveal_strlit("/delete");
    }
    key.append(suffix);
    assert(key@ =~= alias@ + delete_suffix());
    key
}

/// The key of the row `hash ‖ 2 ‖ path → path`.
pub fn variant_key(hash: &[u8], path: &str) -> (key: Vec<u8>)
    ensures
        key@ == variant_row_key(hash@, path.spec_bytes()),
{
    let mut key = hash_then(hash, VARIANT_SEPARATOR);
    push_all(&mut key, path.as_bytes());
    key
}

/// The bounds `(hash ‖ 2, hash ‖ 3)` of the variant rows of `hash`.
pub fn variant_key_bounds(hash: &[u8]) -> (bounds: (Vec<u8>, Vec<u8>))
    ensures
        bounds.0@ == hash@.push(VARIANT_SEPARATOR),
        bounds.1@ == hash@.push(VARIANT_LIMIT),
{
    (hash_then(hash, VARIANT_SEPARATOR), hash_then(hash, VARIANT_LIMIT))
}

} // verus!
