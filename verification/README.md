# yuv

RGB, BGR, RGBA and BGRA to YUV 4:2:0 conversion with the LoongArch LSX and LASX
kernels, verified with Verus.

The kernels are written over a portable model of the 128-bit and 256-bit vector
registers (`loongarch64::vector`), one function per instruction
(`loongarch64::lsx`, `loongarch64::lasx`). Every instruction has a lane-by-lane
contract, and every kernel is proved to produce the scalar formulas on every sample.

- `src/images.rs`, `src/yuv_support.rs`, `src/internals.rs`: images, pixel layouts,
  matrices and ranges.
- `src/loongarch64/convert8.rs`, `simd.rs`, `frame8.rs`: 8-bit coefficients, scalar
  tails, row-pair kernels and whole frames in the I420, NV12 and NV21 layouts.
- `src/loongarch64/utils.rs`, `rgba_to_yuv420.rs`, `rgba_to_nv420.rs`: the 13-bit row
  kernels.
- `src/loongarch64/laws.rs`: what holds of the conversion as a whole.
- `app/`: a Criterion benchmark of the frame conversions.

The vector extensions that the CPU has are passed in as `CpuFeatures`.
