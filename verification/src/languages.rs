//! Front ends: textual languages that compile to machine instructions.

pub mod lam;
pub mod prolog;
