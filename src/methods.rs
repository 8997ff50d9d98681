//! Cost-table providers of the schemes compared.

pub mod bkrsc;
