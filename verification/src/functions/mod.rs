use vstd::prelude::*;

use crate::types::Type;

pub mod lookup;

verus! {

/// A function that filters can call, as registered in a scheme.
///
/// Implementors say how many arguments the function takes and which type it
/// returns for given argument types.
pub trait FunctionDefinition {
    /// The minimal number of arguments and, if bounded, the maximal one.
    fn arg_count(&self) -> (usize, Option<usize>);

    /// The type of the value that the function returns when it is called
    /// with arguments of the given types.
    fn return_type(&self, param_types: &[Type]) -> Type;
}

} // verus!
