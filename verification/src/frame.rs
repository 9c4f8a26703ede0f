//! Captured frames: rows from top to bottom, four bytes for each pixel. Three
//! of the four are colour channels, the fourth carries nothing.

use vstd::prelude::*;
use crate::geometry::Point;

verus! {

/// Whether `len` bytes are a frame of `width` by `height` pixels whose
/// top-left pixel lies at `origin`: no side is empty, each pixel has its four
/// bytes, and every pixel has screen coordinates.
pub open spec fn valid_frame(origin: Point, width: u32, height: u32, len: nat) -> bool {
    &&& width > 0
    &&& height > 0
    &&& len == 4 * width * height
    &&& origin.x + width <= i32::MAX + 1
    &&& origin.y + height <= i32::MAX + 1
}

/// A captured rectangle of the screen. It is never changed after the
/// capture.
pub struct Frame {
    origin: Point,
    width: u32,
    height: u32,
    data: Vec<u8>,
}

impl Frame {
    #[verifier::type_invariant]
    pub closed spec fn inv(&self) -> bool {
        valid_frame(self.origin, self.width, self.height, self.data@.len())
    }

    /// Screen position of the top-left pixel.
    pub closed spec fn spec_origin(&self) -> Point {
        self.origin
    }

    /// Pixels per row.
    pub closed spec fn spec_width(&self) -> u32 {
        self.width
    }

    /// Number of rows.
    pub closed spec fn spec_height(&self) -> u32 {
        self.height
    }

    /// The frame's bytes, row after row.
    pub closed spec fn bytes(&self) -> Seq<u8> {
        self.data@
    }

    /// Screen position of the pixel with index `pixel`, counted row after
    /// row from the top-left pixel.
    pub open spec fn position_of(&self, pixel: int) -> Point {
        Point {
            x: (self.spec_origin().x + pixel % (self.spec_width() as int)) as i32,
            y: (self.spec_origin().y + pixel / (self.spec_width() as int)) as i32,
        }
    }

    /// Takes `data` as the pixels of the rectangle at `origin`. Refuses a
    /// buffer that is not a frame of that rectangle.
    pub fn new(origin: Point, width: u32, height: u32, data: Vec<u8>) -> (frame: Option<Frame>)
        ensures
            frame is Some <==> valid_frame(origin, width, height, data@.len()),
            frame matches Some(f) ==> f.spec_origin() == origin && f.spec_width() == width
                && f.spec_height() == height && f.bytes() == data@,
    {
        if width == 0 || height == 0 {
            return None;
        }
        assert(4 * width * height == 4 * (width * height) && width * height <= 0xffff_ffff
            * 0xffff_ffff) by (nonlinear_arith)
            requires
                width <= 0xffff_ffff,
                height <= 0xffff_ffff,
        ;
        let pixels: u64 = width as u64 * height as u64;
        let wanted: u128 = 4 * (pixels as u128);
        if data.len() as u128 != wanted {
            return None;
        }
        if origin.x as i64 + width as i64 > i32::MAX as i64 + 1 {
            return None;
        }
        if origin.y as i64 + height as i64 > i32::MAX as i64 + 1 {
            return None;
        }
        Some(Frame { origin, width, height, data })
    }

    /// Screen position of the top-left pixel.
    #[verifier::when_used_as_spec(spec_origin)]
    pub fn origin(&self) -> (p: Point)
        ensures
            p == self.spec_origin(),
    {
        self.origin
    }

    /// Pixels per row.
    #[verifier::when_used_as_spec(spec_width)]
    pub fn width(&self) -> (w: u32)
        ensures
            w == self.spec_width(),
            w > 0,
    {
        proof {
            use_type_invariant(self);
        }
        self.width
    }

    /// Number of rows.
    #[verifier::when_used_as_spec(spec_height)]
    pub fn height(&self) -> (h: u32)
        ensures
            h == self.spec_height(),
            h > 0,
    {
        proof {
            use_type_invariant(self);
        }
        self.height
    }

    /// The frame's bytes, row after row.
    pub fn data(&self) -> (data: &[u8])
        ensures
            data@ == self.bytes(),
            valid_frame(self.spec_origin(), self.spec_width(), self.spec_height(), data@.len()),
    {
        proof {
            use_type_invariant(self);
        }
        self.data.as_slice()
    }
}

} // verus!
