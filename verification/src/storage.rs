//! Trusted boundary to the embedded key-value store (sled).
//!
//! A tree is modelled as a map from byte keys to byte values; what a freshly
//! opened tree holds depends on the disk and is left unconstrained.
//!
//! The model reads each `sled::Tree` value as the sole handle to its
//! keyspace: the library opens the keystore and sessions keyspaces once per
//! database, and sled's exclusive file lock keeps other processes out. Code
//! that cloned a tree handle, or opened one keyspace twice, would alias
//! state that these contracts treat as independent — do not.

use vstd::prelude::*;

use crate::errors::ProtocolError;

verus! {

#[verifier::external_type_specification]
#[verifier::external_body]
pub struct ExDb(sled::Db);

#[verifier::external_type_specification]
#[verifier::external_body]
pub struct ExTree(sled::Tree);

/// The key-value pairs a tree holds.
pub uninterp spec fn kv_contents(t: sled::Tree) -> Map<Seq<u8>, Seq<u8>>;

/// Relies on sled::open: opens (or creates) the embedded database at the
/// path. Nothing is assumed of what is found on disk.
#[verifier::external_body]
pub(crate) fn db_open(path: &str) -> (r: Result<sled::Db, ProtocolError>) {
    match sled::open(path) {
        Ok(db) => Ok(db),
        Err(e) => Err(ProtocolError::InternalError(format!("DB open error: {}", e))),
    }
}

/// Relies on sled::Db::open_tree: opens the named keyspace. Nothing is assumed
/// of the contents found on disk.
#[verifier::external_body]
pub(crate) fn db_open_tree(db: &sled::Db, name: &str) -> (r: Result<sled::Tree, ProtocolError>) {
    match db.open_tree(name) {
        Ok(t) => Ok(t),
        Err(e) => Err(ProtocolError::InternalError(format!("DB open tree error: {}", e))),
    }
}

/// Relies on sled::Tree::get: returns the value stored under the key, if any.
#[verifier::external_body]
pub(crate) fn tree_get(t: &sled::Tree, key: &Vec<u8>) -> (r: Result<Option<Vec<u8>>, ProtocolError>)
    ensures
        r matches Ok(v) ==> (v matches Some(b) ==> kv_contents(*t).contains_key(key@) && b@
            == kv_contents(*t)[key@]),
        r matches Ok(v) ==> (v is None ==> !kv_contents(*t).contains_key(key@)),
        r matches Err(e) ==> e matches ProtocolError::InternalError(_),
{
    match t.get(key.as_slice()) {
        Ok(Some(ivec)) => Ok(Some(ivec.to_vec())),
        Ok(None) => Ok(None),
        Err(e) => Err(ProtocolError::InternalError(format!("DB read error: {}", e))),
    }
}

/// Relies on sled::Tree::insert: after a successful insert the tree maps the
/// key to the value and every other key is untouched.
#[verifier::external_body]
pub(crate) fn tree_insert(t: &mut sled::Tree, key: &Vec<u8>, value: &Vec<u8>) -> (r: Result<
    (),
    ProtocolError,
>)
    ensures
        r is Ok ==> kv_contents(*final(t)) == kv_contents(*old(t)).insert(key@, value@),
        r matches Err(e) ==> e matches ProtocolError::InternalError(_),
{
    match t.insert(key.as_slice(), value.as_slice()) {
        Ok(_) => Ok(()),
        Err(e) => Err(ProtocolError::InternalError(format!("DB insert error: {}", e))),
    }
}

/// Relies on sled::Tree::remove: after a successful removal the key is absent
/// and every other key is untouched; removing an absent key succeeds.
#[verifier::external_body]
pub(crate) fn tree_remove(t: &mut sled::Tree, key: &Vec<u8>) -> (r: Result<(), ProtocolError>)
    ensures
        r is Ok ==> kv_contents(*final(t)) == kv_contents(*old(t)).remove(key@),
        r matches Err(e) ==> e matches ProtocolError::InternalError(_),
{
    match t.remove(key.as_slice()) {
        Ok(_) => Ok(()),
        Err(e) => Err(ProtocolError::InternalError(format!("DB remove error: {}", e))),
    }
}

/// Relies on sled::Tree::flush: forces pending writes to disk before
/// returning; the logical contents are not changed.
#[verifier::external_body]
pub(crate) fn tree_flush(t: &sled::Tree) -> (r: Result<(), ProtocolError>)
    ensures
        r matches Err(e) ==> e matches ProtocolError::InternalError(_),
{
    match t.flush() {
        Ok(_) => Ok(()),
        Err(e) => Err(ProtocolError::InternalError(format!("DB flush error: {}", e))),
    }
}

} // verus!
