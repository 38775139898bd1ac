use vstd::prelude::*;

pub mod cpu;
pub mod framebuffer;
pub mod settings;

verus! {

} // verus!
