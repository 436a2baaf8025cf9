//! The ordered key/value store that holds the index, seen through the rows
//! of each keyspace.
//!
//! A keyspace handle is taken to be the only one through which its rows are
//! written, so that what a write does is all that changes them.
use vstd::prelude::*;
use sled::transaction::Transactional;
use crate::keys::in_range;

verus! {

#[verifier::external_type_specification]
#[verifier::external_body]
pub struct ExTree(sled::Tree);

#[verifier::external_type_specification]
#[verifier::external_body]
pub struct ExDb(sled::Db);

#[verifier::external_type_specification]
#[verifier::external_body]
pub struct ExError(sled::Error);

/// The rows that a keyspace holds.
pub uninterp spec fn rows(t: sled::Tree) -> Map<Seq<u8>, Seq<u8>>;

/// The value under `k`, if any.
pub open spec fn lookup(m: Map<Seq<u8>, Seq<u8>>, k: Seq<u8>) -> Option<Seq<u8>> {
    if m.contains_key(k) {
        Some(m[k])
    } else {
        None
    }
}

pub open spec fn bytes_of(o: Option<Vec<u8>>) -> Option<Seq<u8>> {
    match o {
        Some(v) => Some(v@),
        None => None,
    }
}

/// The keys of `m` in `[start, end)`.
pub open spec fn keys_between(m: Map<Seq<u8>, Seq<u8>>, start: Seq<u8>, end: Seq<u8>) -> Set<
    Seq<u8>,
> {
    m.dom().filter(|k: Seq<u8>| in_range(k, start, end))
}

/// Relies on `sled::Tree::get`: the value stored under the key.
#[verifier::external_body]
pub fn tree_get(t: &sled::Tree, key: &[u8]) -> (r: Result<Option<Vec<u8>>, sled::Error>)
    ensures
        r matches Ok(v) ==> bytes_of(v) == lookup(rows(*t), key@),
{
    t.get(key).map(|v| v.map(|v| v.to_vec()))
}

/// Relies on `sled::Tree::insert`: the key now holds the value.
#[verifier::external_body]
pub fn tree_insert(t: &mut sled::Tree, key: &[u8], value: &[u8]) -> (r: Result<(), sled::Error>)
    ensures
        r is Ok ==> rows(*final(t)) == rows(*old(t)).insert(key@, value@),
{
    t.insert(key, value).map(|_| ())
}

/// Relies on `sled::Tree::remove`: the key is gone and its old value is
/// returned.
#[verifier::external_body]
pub fn tree_remove(t: &mut sled::Tree, key: &[u8]) -> (r: Result<Option<Vec<u8>>, sled::Error>)
    ensures
        r matches Ok(v) ==> bytes_of(v) == lookup(rows(*old(t)), key@) && rows(*final(t)) == rows(
            *old(t),
        ).remove(key@),
{
    t.remove(key).map(|v| v.map(|v| v.to_vec()))
}

/// Relies on `sled::Tree::compare_and_swap` with no expected value: the key
/// is bound only where it was unbound; otherwise nothing changes and the
/// value that was there is handed back.
#[verifier::external_body]
pub fn tree_insert_new(t: &mut sled::Tree, key: &[u8], value: &[u8]) -> (r: Result<
    Result<(), Option<Vec<u8>>>,
    sled::Error,
>)
    ensures
        r matches Ok(Ok(())) ==> !rows(*old(t)).contains_key(key@) && rows(*final(t)) == rows(
            *old(t),
        ).insert(key@, value@),
        r matches Ok(Err(current)) ==> rows(*old(t)).contains_key(key@) && bytes_of(current)
            == lookup(rows(*old(t)), key@) && rows(*final(t)) == rows(*old(t)),
{
    match t.compare_and_swap(key, None as Option<&[u8]>, Some(value)) {
        Ok(Ok(())) => Ok(Ok(())),
        Ok(Err(e)) => Ok(Err(e.current.map(|v| v.to_vec()))),
        Err(e) => Err(e),
    }
}

/// Relies on `sled::Tree::range`: whether any key lies in `[start, end)`.
#[verifier::external_body]
pub fn tree_any_between(t: &sled::Tree, start: &[u8], end: &[u8]) -> (r: Result<bool, sled::Error>)
    ensures
        r matches Ok(b) ==> b == !keys_between(rows(*t), start@, end@).is_empty(),
{
    match t.range(start..end).next() {
        None => Ok(false),
        Some(Ok(_)) => Ok(true),
        Some(Err(e)) => Err(e),
    }
}

/// Relies on `sled::Tree::range`: every key in `[start, end)`.
#[verifier::external_body]
pub fn tree_keys_between(t: &sled::Tree, start: &[u8], end: &[u8]) -> (r: Result<
    Vec<Vec<u8>>,
    sled::Error,
>)
    ensures
        r matches Ok(ks) ==> (forall|i: int|
            0 <= i < ks@.len() ==> keys_between(rows(*t), start@, end@).contains(
                #[trigger] ks@[i]@,
            )) && (forall|k: Seq<u8>|
            #[trigger] keys_between(rows(*t), start@, end@).contains(k) ==> exists|i: int|
                0 <= i < ks@.len() && (#[trigger] ks@[i])@ == k),
{
    t.range(start..end).keys().map(|k| k.map(|k| k.to_vec())).collect()
}

/// Relies on `sled::Db::generate_id`: a fresh id.
#[verifier::external_body]
pub fn db_generate_id(db: &sled::Db) -> (r: Result<u64, sled::Error>) {
    db.generate_id()
}

/// Relies on sled's transactions over two keyspaces of one database: the
/// three keys of `first` and the key of `second` are removed together, or
/// the transaction fails.
#[verifier::external_body]
pub fn remove_rows_together(
    first: &mut sled::Tree,
    second: &mut sled::Tree,
    a: &[u8],
    b: &[u8],
    c: &[u8],
    d: &[u8],
) -> (r: Result<(), Option<sled::Error>>)
    ensures
        r is Ok ==> rows(*final(first)) == rows(*old(first)).remove(a@).remove(b@).remove(c@)
            && rows(*final(second)) == rows(*old(second)).remove(d@),
{
    let res = (&*first, &*second).transaction(|(x, y)| {
        x.remove(a)?;
        x.remove(b)?;
        x.remove(c)?;
        y.remove(d)?;
        Ok(())
    });
    match res {
        Ok(()) => Ok(()),
        Err(sled::transaction::TransactionError::Abort(())) => Err(None),
        Err(sled::transaction::TransactionError::Storage(e)) => Err(Some(e)),
    }
}

/// Relies on `sled::Db::open_tree`: a handle on the named keyspace.
#[verifier::external_body]
pub fn db_open_tree(db: &sled::Db, name: &str) -> (r: Result<sled::Tree, sled::Error>) {
    db.open_tree(name)
}

/// Relies on `sled::Db` dereferencing to its default keyspace.
#[verifier::external_body]
pub fn db_default_tree(db: &sled::Db) -> (r: sled::Tree) {
    (**db).clone()
}

/// Relies on the `Display` of `sled::Error`: its message.
#[verifier::external_body]
pub fn db_error_text(e: &sled::Error) -> (r: String) {
    e.to_string()
}

} // verus!
