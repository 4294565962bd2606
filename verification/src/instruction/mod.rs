//! The Redcode instruction: an operation, a modifier and two operand fields.

pub mod decrement;
pub mod field;
pub mod instruction;
pub mod op_code;
pub mod op_modifier;
pub mod runnable_instruction;
