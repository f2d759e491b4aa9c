use vstd::prelude::*;

pub mod text;
pub mod paths;
pub mod model;
pub mod execute;
pub mod json;
pub mod session;
pub mod control;
pub mod stream;
pub mod ui;
pub mod screen;
pub mod catalog;

verus! {
} // verus!
