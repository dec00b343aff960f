//! The store accessor shared by every set command: fetch a key and insist
//! that it holds a set.

use vstd::prelude::*;

use crate::domain::{Data, DataModel, Primitive, PrimitiveSet};
use crate::errors::{ApplicationError, ErrorModel};
use crate::store::Store;

verus! {

/// How resolving one key can go: absent, present but not a set, or fine.
pub open spec fn lookup_outcome(m: Map<Seq<char>, DataModel>, k: Seq<char>) -> Option<ErrorModel> {
    if !m.contains_key(k) {
        Some(ErrorModel::KeyNotFound(k))
    } else if !(m[k] is SetValue) {
        Some(ErrorModel::WrongType(k))
    } else {
        None
    }
}

/// The set stored under `k` (meaningful when `lookup_outcome` is `None`).
pub open spec fn set_at(m: Map<Seq<char>, DataModel>, k: Seq<char>) -> Set<Primitive> {
    m[k]->SetValue_0
}

/// Looks `key` up and returns its set payload. Fails with `KeyNotFound`
/// when the key is absent and with `WrongType` when its value is not a set.
/// A pure read: the store is untouched.
pub fn get_set(store: &Store, key: &str) -> (r: Result<PrimitiveSet, ApplicationError>)
    requires
        store.wf(),
    ensures
        match r {
            Ok(s) => lookup_outcome(store@, key@) is None && s.wf() && s@ == set_at(store@, key@),
            Err(e) => lookup_outcome(store@, key@) == Some(e@),
        },
{
    match store.get(key) {
        Some(d) => match d {
            Data::SetValue(s) => Ok(s.duplicate()),
            _ => {
                let owned: String = key.to_string();
                proof {
                    broadcast use vstd::string::to_string_from_display_ensures_for_str;

                    assert(owned@ == key@);
                }
                Err(ApplicationError::WrongType(owned))
            },
        },
        None => {
            let owned: String = key.to_string();
            proof {
                broadcast use vstd::string::to_string_from_display_ensures_for_str;

                assert(owned@ == key@);
            }
            Err(ApplicationError::KeyNotFound(owned))
        },
    }
}

} // verus!
