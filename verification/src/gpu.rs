//! The compute backend that the interpreter runs verbs on.
//!
//! Only the CPU backend exists in this library; the GPU device (a `wgpu`
//! device and its kernels) is hardware work and lives with the program.
use vstd::prelude::*;

verus! {

/// How the atoms of a GPU buffer are laid out: one `f64` per atom, or a
/// `(re, im)` pair.
#[derive(Debug, Clone, Copy, PartialEq, Eq, Structural)]
pub enum GpuElemType {
    Float,
    Complex,
}

/// The backend that verbs run on.
#[derive(Debug)]
pub enum Backend {
    Cpu,
}

impl Backend {
    /// Whether the backend is a GPU: never, for the CPU backend.
    pub fn is_gpu(&self) -> (r: bool)
        ensures
            !r,
    {
        match self {
            Backend::Cpu => false,
        }
    }
}

} // verus!
