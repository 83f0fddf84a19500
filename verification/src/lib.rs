//! RGB to YUV 4:2:0 conversion with the LoongArch LSX (128-bit) and LASX
//! (256-bit) vector kernels, written over a portable model of the vector
//! registers and proved to agree with the scalar formulas on every sample.

pub mod images;
pub mod internals;
pub mod loongarch64;
pub mod yuv_support;
