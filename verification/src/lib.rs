//! A CHIP-8 virtual machine whose instruction semantics are specified and proved.

pub mod bits;
pub mod machine;
pub mod cpu;
pub mod screen;
mod random;
pub mod input;
pub mod sound;
pub mod frame;
pub mod laws;
pub mod semantics;
