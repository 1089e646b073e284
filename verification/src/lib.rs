//! The HUMANITY_ACCORD halt and release logic, the graded admin-op standings and
//! folds, and the accord coordination rules, each with its contract.

pub mod prims;
pub mod release;
pub mod halt;
pub mod accord;
pub mod admin;
pub mod selection;
pub mod provision;
pub mod commit;
pub mod duty;
pub mod adapter;
pub mod attest;
pub mod crossing;
