use vstd::prelude::*;

pub mod adapter;
pub mod text;
pub mod types;
pub mod strmap;
pub mod order;
pub mod wled;
pub mod import;
pub mod runtime;
pub mod ws;
pub mod store;

verus! {

} // verus!
