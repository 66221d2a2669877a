//! Assembles the WGSL source of the linear layer's compute kernel, a matrix
//! multiplication followed by a bias addition, from an ordered list of tagged
//! fragments, and fuses a rectifier into the kernel on request.
//!
//! The kernel is one list of fragments and one rule: when the rectifier is
//! asked for, its line goes before the fragment that stores the result. The
//! modules state what the list holds, what text it assembles to, and why that
//! text is sound in both forms.

pub mod fragment_facts;
pub mod laws;
pub mod linear;
pub mod op_codes;
pub mod runner;
pub mod text;
