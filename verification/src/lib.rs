//! A parser for planning-domain description files: domains, problems, plans
//! and SAS plans, with every grammar rule stated as a specification over the
//! bytes of the source text and proved against it.

pub mod diagnostics;
pub mod domain;
pub mod plan;
pub mod problem;
pub mod sas_plan;
pub mod shared;
pub mod term;
pub mod written;
