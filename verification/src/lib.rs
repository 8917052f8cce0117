use vstd::prelude::*;

pub mod capture;
pub mod database;
pub mod input;
pub mod keymaps;
pub mod labels;
pub mod listener;
pub mod metric;
pub mod paths;
pub mod scanner;
pub mod payload;
pub mod persistence;
pub mod rename;
pub mod roundtrip;
pub mod session;
pub mod settings;
pub mod sorting;
pub mod storage;
pub mod table;
pub mod text;
pub mod tokens;
pub mod working_session;

verus! {

} // verus!
