//! Planar and bi-planar YUV images over owned or borrowed buffers.

use vstd::prelude::*;

verus! {

/// The elements of one plane, in a buffer that the caller lends or in one of the
/// image's own. The view is the elements; whether the buffer is lent, and which one,
/// the functions that write a plane state beside it.
pub enum BufferStoreMut<'a, T> {
    Borrowed(&'a mut [T]),
    Owned(Vec<T>),
}

impl<'a, T> View for BufferStoreMut<'a, T> {
    type V = Seq<T>;

    open spec fn view(&self) -> Seq<T> {
        match self {
            BufferStoreMut::Borrowed(s) => s@,
            BufferStoreMut::Owned(v) => v@,
        }
    }
}

impl<'a, T> BufferStoreMut<'a, T> {
    /// The plane as a slice.
    pub fn borrow(&self) -> (r: &[T])
        ensures
            r@ == self@,
    {
        match self {
            BufferStoreMut::Borrowed(s) => s,
            BufferStoreMut::Owned(v) => v.as_slice(),
        }
    }

    /// The plane as a mutable slice. The buffer stays the same one: what is written
    /// to a lent plane reaches its owner.
    pub fn borrow_mut(&mut self) -> (r: &mut [T])
        ensures
            r@ == old(self)@,
            final(self)@ == final(r)@,
            (*final(self)) is Borrowed <==> (*old(self)) is Borrowed,
            (*old(self)) is Borrowed ==> final((*final(self))->Borrowed_0)@
                == final((*old(self))->Borrowed_0)@,
    {
        match self {
            BufferStoreMut::Borrowed(s) => s,
            BufferStoreMut::Owned(v) => v.as_mut_slice(),
        }
    }
}

/// Whether `len` elements hold `rows` rows of `width` elements, `stride` apart; the
/// last row may end with its last element. Rows must not overlap; the stride of a
/// single row is not used and may be anything.
pub open spec fn plane_ok(len: nat, stride: int, width: int, rows: int) -> bool {
    &&& rows > 1 ==> width <= stride
    &&& rows > 0 ==> (rows - 1) * stride + width <= len
}

/// How far apart the rows of a plane lie; a single row takes at least its width.
pub open spec fn pitch(stride: int, width: int, rows: int) -> int {
    if rows > 1 || width <= stride {
        stride
    } else {
        width
    }
}

/// The pitch leaves room for a row, and rows start where the stride puts them.
pub proof fn lemma_pitch(len: nat, stride: int, width: int, rows: int, row: int)
    requires
        plane_ok(len, stride, width, rows),
        0 <= row < rows,
    ensures
        width <= pitch(stride, width, rows),
        row * pitch(stride, width, rows) == row * stride,
        (rows - 1) * pitch(stride, width, rows) + width <= len,
{
    if rows <= 1 {
        assert(row == 0);
    }
}

/// Half of `n`, rounded up: the chroma extent of `n` pixels.
pub open spec fn half_up(n: int) -> int {
    (n + 1) / 2
}

/// A 4:2:0 image with one plane per component.
pub struct YuvPlanarImageMut<'a, T> {
    pub y_plane: BufferStoreMut<'a, T>,
    pub y_stride: u32,
    pub u_plane: BufferStoreMut<'a, T>,
    pub u_stride: u32,
    pub v_plane: BufferStoreMut<'a, T>,
    pub v_stride: u32,
    pub width: u32,
    pub height: u32,
}

/// A 4:2:0 image with a luma plane and a plane of chroma pairs.
pub struct YuvBiPlanarImageMut<'a, T> {
    pub y_plane: BufferStoreMut<'a, T>,
    pub y_stride: u32,
    pub uv_plane: BufferStoreMut<'a, T>,
    pub uv_stride: u32,
    pub width: u32,
    pub height: u32,
}

impl<'a, T> YuvPlanarImageMut<'a, T> {
    /// Whether the planes hold a 4:2:0 frame of the image's size.
    pub open spec fn well_formed(self) -> bool {
        let (w, h) = (self.width as int, self.height as int);
        &&& plane_ok(self.y_plane@.len(), self.y_stride as int, w, h)
        &&& plane_ok(self.u_plane@.len(), self.u_stride as int, half_up(w), half_up(h))
        &&& plane_ok(self.v_plane@.len(), self.v_stride as int, half_up(w), half_up(h))
    }

    /// Whether two images agree in size and strides.
    pub open spec fn same_layout(self, other: Self) -> bool {
        &&& self.y_stride == other.y_stride
        &&& self.u_stride == other.u_stride
        &&& self.v_stride == other.v_stride
        &&& self.width == other.width
        &&& self.height == other.height
    }
}

impl<'a, T> YuvBiPlanarImageMut<'a, T> {
    /// Whether the planes hold a 4:2:0 frame of the image's size.
    pub open spec fn well_formed(self) -> bool {
        let (w, h) = (self.width as int, self.height as int);
        &&& plane_ok(self.y_plane@.len(), self.y_stride as int, w, h)
        &&& plane_ok(self.uv_plane@.len(), self.uv_stride as int, 2 * half_up(w), half_up(h))
    }

    /// Whether two images agree in size and strides.
    pub open spec fn same_layout(self, other: Self) -> bool {
        &&& self.y_stride == other.y_stride
        &&& self.uv_stride == other.uv_stride
        &&& self.width == other.width
        &&& self.height == other.height
    }
}

} // verus!
