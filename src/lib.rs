//! A field-generic dense linear-algebra kernel: matrices and vectors over a
//! scalar type, with a Gaussian-elimination engine that yields the
//! determinant, the rank, the reduced row-echelon form and the inverse.
pub mod elimination;
pub mod echelon;
pub mod errors;
pub mod laws;
pub mod matrix;
pub mod residue;
pub mod traits;
pub mod vector;
