//! Declaration of the persistent hash map of the `im` crate, which the
//! resolver and the lowerer use for their lexically scoped environments.
//! Cloning such a map is cheap, so scope restoration on return from a
//! subexpression is automatic.

use vstd::prelude::*;

verus! {

#[verifier::external_type_specification]
#[verifier::external_body]
#[verifier::reject_recursive_types(K)]
#[verifier::reject_recursive_types(V)]
#[verifier::reject_recursive_types(S)]
pub struct ExImHashMap<K, V, S>(im::HashMap<K, V, S>);

} // verus!
