//! Conversion kernels for the LoongArch vector extensions.

pub mod arith;
pub mod convert8;
pub mod frame8;
pub mod lasx;
pub mod laws;
pub mod laws13;
pub mod laws8;
pub mod laws_lanes;
pub mod lsx;
pub mod rgba_to_nv420;
pub mod rgba_to_yuv420;
pub mod simd;
pub mod utils;
pub mod vector;

pub use convert8::coeffs8;
pub use frame8::{rgba_to_i420_8, rgba_to_nv12_8, Simd8};
pub use rgba_to_nv420::loongarch64_rgba_to_nv420;
pub use rgba_to_yuv420::loongarch64_rgba_to_yuv420;

use vstd::prelude::*;

verus! {

/// The vector extensions that the running CPU reports.
#[derive(Clone, Copy, Debug, PartialEq, Eq, Structural)]
pub struct CpuFeatures {
    pub lsx: bool,
    pub lasx: bool,
}

impl CpuFeatures {
    /// What every CPU reports: LASX implies LSX.
    pub open spec fn coherent(self) -> bool {
        self.lasx ==> self.lsx
    }
}

/// Whether the 128-bit extension is available.
#[verifier::allow_in_spec]
pub fn has_lsx(cpu: &CpuFeatures) -> (r: bool)
    ensures
        r == cpu.lsx,
    returns
        cpu.lsx,
{
    cpu.lsx
}

/// Whether the 256-bit extension is available.
#[verifier::allow_in_spec]
pub fn has_lasx(cpu: &CpuFeatures) -> (r: bool)
    ensures
        r == cpu.lasx,
    returns
        cpu.lasx,
{
    cpu.lasx
}

/// Whether the 13-bit row kernels run: the only precision they know is 13, and
/// either extension will do.
pub open spec fn simd_applies<const PRECISION: u32>(cpu: CpuFeatures) -> bool {
    PRECISION == 13 && (cpu.lsx || cpu.lasx)
}

} // verus!
