use vstd::prelude::*;

pub mod text;
pub mod validation;
pub mod config;
pub mod registry;
pub mod collector;
pub mod ws;

verus! {
}

