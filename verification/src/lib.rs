//! Inversion of a dense square matrix from its column-pivoted QR
//! factorization: how much scratch memory a run needs, which inputs a run
//! accepts, and in which order its numerical steps are taken.

pub mod plan;
pub mod shape;
pub mod workspace;
