//! Solving systems of linear equations written over named variables.
//!
//! The library turns a list of symbolic equations into a dense matrix
//! problem, reads a solved column back into named values, and merges the
//! solutions of independent groups of equations. The numeric decomposition
//! itself is done by the caller on the matrices handed out here.
pub mod terms;
pub mod equation;
pub mod solution;
pub mod system;
pub mod cluster;
