//! Dense linear-algebra kernels over exact scalars: LU and LUP
//! factorizations with the solve, inverse and determinant routines
//! derived from them, the substitution and determinant routines
//! attached to an orthogonal factorization, and the recomposition
//! steps of the shifted-QR eigenvalue iteration, all stated and
//! proved against rational arithmetic models.

pub mod scalar;
pub mod vector;
pub mod matrix;
pub mod decompositions;
