//! Re-indexing of rank-1 constraint systems for arguments over evaluation
//! domains of power-of-two size.
//!
//! A constraint system numbers its variables flatly: the constant first, then
//! the public inputs, then the auxiliary inputs. The argument system wants
//! them spread over the witness domain `H`, one public value at the head of
//! each block of `|H| / |X|` positions. This crate holds the map between the
//! two numberings, the builder of the three sparse constraint matrices in the
//! new numbering, and the assembler of the dense witness vector.

pub mod domain;
pub mod field;
pub mod index;
pub mod index_map;
pub mod matrix;
pub mod row;
pub mod witness;
