use vstd::prelude::*;

pub mod json;
pub mod decimal;
pub mod text;
pub mod hexfmt;
pub mod names;
pub mod sorting;
pub mod explorer;
pub mod blocks;
pub mod metrics;
pub mod spam;

verus! {

} // verus!
