use vstd::prelude::*;

verus! {

/// The definition of a list of values of one type, registered in a scheme
/// for that type. The scheme only stores it and hands it back.
pub trait ListDefinition {}

} // verus!
