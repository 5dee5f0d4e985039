//! The calls this library makes into code it does not verify.

use std::collections::HashMap;
use uuid::Uuid;
use vstd::prelude::*;

verus! {

/// `uuid::Uuid::new_v4`: a fresh random (version 4) UUID. Its value rests
/// on the operating system's random source, so nothing is claimed of it;
/// the call panics if that source cannot be read, which no precondition
/// here can exclude.
#[verifier::external_body]
pub(crate) fn new_tile_id() -> Uuid {
    Uuid::new_v4()
}

/// `HashMap::insert` with a `String` key whose text no key of the map
/// already has: the map gains exactly that entry. vstd states `insert` only
/// for key types with a proven hashing model, which `String` lacks; std's
/// documentation states this behaviour for every key type.
#[verifier::external_body]
pub(crate) fn insert_new_key<V>(m: &mut HashMap<String, V>, k: String, v: V)
    requires
        forall|k0: String| #[trigger] old(m)@.contains_key(k0) ==> k0@ != k@,
    ensures
        final(m)@ == old(m)@.insert(k, v),
{
    m.insert(k, v);
}

} // verus!
