//! A rank-1 constraint system for one step of a RISC-V-like virtual machine.
//!
//! [`builder::R1CSBuilder`] accumulates the sparse matrices `A`, `B`, `C` row
//! by row and, where it is given a witness, extends it with the wires that the
//! rows define. [`builder::R1CSBuilder::get_matrices`] builds the rows of a
//! step; [`circuit::step_gates`] says which rows these are, and [`model`] what
//! each of them does to a builder.

pub mod builder;
pub mod circuit;
pub mod emit;
pub mod field;
pub mod layout;
pub mod linear;
pub mod model;
pub mod satisfaction;
pub mod step;
