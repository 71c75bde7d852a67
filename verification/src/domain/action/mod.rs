//! Actions and the logical expressions of their preconditions and effects.

pub mod precondition;
pub mod string_expression;
pub mod writing;
