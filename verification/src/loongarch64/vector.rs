//! The vector registers: sixteen bytes read as byte, halfword or word lanes in
//! little-endian order, and a pair of them for the 256-bit extension.

use vstd::prelude::*;

verus! {

/// A 128-bit register.
#[derive(Clone, Copy)]
pub struct V128 {
    pub bytes: [u8; 16],
}

/// A 256-bit register: two 128-bit halves.
#[derive(Clone, Copy)]
pub struct V256 {
    pub lo: V128,
    pub hi: V128,
}

impl V128 {
    /// Byte lane `i`.
    pub open spec fn b(self, i: int) -> int {
        self.bytes[i] as int
    }

    /// Halfword lane `i`, unsigned.
    #[verifier::opaque]
    pub open spec fn h(self, i: int) -> int {
        self.b(2 * i) + 0x100 * self.b(2 * i + 1)
    }

    /// Word lane `i`, unsigned.
    #[verifier::opaque]
    pub open spec fn w(self, i: int) -> int {
        self.h(2 * i) + 0x1_0000 * self.h(2 * i + 1)
    }

    /// The register with the given halfword lanes.
    pub fn from_halves(lanes: [u16; 8]) -> (r: V128)
        ensures
            forall|i: int| 0 <= i < 8 ==> #[trigger] r.h(i) == lanes[i],
    {
        let mut bytes = [0u8; 16];
        for k in 0..8usize
            invariant
                forall|j: int|
                    0 <= j < k ==> #[trigger] lanes[j] == bytes[2 * j] + 0x100 * bytes[2 * j + 1],
        {
            bytes[2 * k] = (lanes[k] % 0x100) as u8;
            bytes[2 * k + 1] = (lanes[k] / 0x100) as u8;
        }
        let r = V128 { bytes };
        assert forall|i: int| 0 <= i < 8 implies #[trigger] r.h(i) == lanes[i] by {
            reveal(V128::h);
            assert(lanes[i] == bytes[2 * i] + 0x100 * bytes[2 * i + 1]);
        }
        r
    }

    /// The register with the given word lanes.
    pub fn from_words(lanes: [u32; 4]) -> (r: V128)
        ensures
            forall|i: int| 0 <= i < 4 ==> #[trigger] r.w(i) == lanes[i],
    {
        let mut halves = [0u16; 8];
        for k in 0..4usize
            invariant
                forall|j: int|
                    0 <= j < k ==> #[trigger] lanes[j] == halves[2 * j] + 0x1_0000 * halves[2 * j
                        + 1],
        {
            halves[2 * k] = (lanes[k] % 0x1_0000) as u16;
            halves[2 * k + 1] = (lanes[k] / 0x1_0000) as u16;
        }
        let r = V128::from_halves(halves);
        assert forall|i: int| 0 <= i < 4 implies #[trigger] r.w(i) == lanes[i] by {
            reveal(V128::w);
            assert(r.h(2 * i) == halves[2 * i]);
            assert(r.h(2 * i + 1) == halves[2 * i + 1]);
            assert(lanes[i] == halves[2 * i] + 0x1_0000 * halves[2 * i + 1]);
        }
        r
    }

    /// Reads halfword lane `i`.
    pub fn half(&self, i: usize) -> (r: u16)
        requires
            i < 8,
        ensures
            r == self.h(i as int),
    {
        reveal(V128::h);
        self.bytes[2 * i] as u16 + 0x100 * (self.bytes[2 * i + 1] as u16)
    }

    /// Reads word lane `i`.
    pub fn word(&self, i: usize) -> (r: u32)
        requires
            i < 4,
        ensures
            r == self.w(i as int),
    {
        reveal(V128::w);
        self.half(2 * i) as u32 + 0x1_0000 * (self.half(2 * i + 1) as u32)
    }
}

impl V256 {
    /// Byte lane `i`.
    pub open spec fn b(self, i: int) -> int {
        if i < 16 {
            self.lo.b(i)
        } else {
            self.hi.b(i - 16)
        }
    }

    /// Word lane `i`, unsigned.
    pub open spec fn w(self, i: int) -> int {
        if i < 4 {
            self.lo.w(i)
        } else {
            self.hi.w(i - 4)
        }
    }
}

} // verus!
