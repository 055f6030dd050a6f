use vstd::prelude::*;

verus! {

/// Why an operation of the library failed.
#[derive(Debug, PartialEq, Eq)]
pub enum LinAlgError {
    /// The operands' shapes do not fit the operation, or it needs a square matrix.
    OperationNonConforming { operation: String },
    /// An inverse of a rank-deficient matrix, a column with zero variance,
    /// or an angle with a zero vector.
    SinglarMatrix,
    /// A constructor got a number of entries other than the one its shape asks for.
    BuildNonconforming { expected: usize, recieved: usize },
    /// An index past the end of a vector.
    OutofBoundsVector { size: usize, recieved: usize },
    /// A position outside a matrix.
    OutofBoundsMatrix { size: (usize, usize), recieved: (usize, usize) },
    /// An empty list where at least one item is needed.
    EmptyArgs,
}

/// A nonconforming-operation error that names the operation.
pub(crate) fn nonconforming(operation: &str) -> (e: LinAlgError)
    ensures
        e is OperationNonConforming,
{
    LinAlgError::OperationNonConforming { operation: operation.to_string() }
}

} // verus!
