//! A Core War virtual machine: warriors written in Redcode run as
//! cooperating processes inside one circular memory, the core.
//!
//! Every address and every operand is a residue modulo the core size
//! ([`utils::ModUsize`]). A [`warrior::Warrior`] is read from its listing,
//! placed in the core by an [`arena::CoreConfig`], and run by the engine
//! ([`engine::CoreRuntime`]), which executes one instruction of one process
//! per call of `tick`. What a step does is defined in [`machine`], and what
//! holds of every battle is proved in [`laws`].

pub mod arena;
pub mod engine;
pub mod instruction;
pub mod laws;
pub mod machine;
pub mod text;
pub mod tournament;
pub mod utils;
pub mod warrior;
