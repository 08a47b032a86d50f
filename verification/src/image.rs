//! Decoded frames.

use vstd::prelude::*;

verus! {

/// Layout of a decoded frame's pixels.
#[derive(Clone, Copy, Debug, PartialEq, Eq, Structural)]
pub enum CinepakPixelFormat {
    /// Packed `R, G, B` bytes.
    Rgb24,
    /// One luminance byte per pixel.
    Gray8,
}

/// One plane of pixels.
#[derive(Debug)]
pub struct CinepakPlane {
    /// Bytes from one row to the next.
    pub stride: usize,
    /// Pixel bytes, row by row.
    pub data: Vec<u8>,
}

/// A decoded frame.
#[derive(Debug)]
pub struct CinepakFrame {
    /// Width in pixels.
    pub width: u32,
    /// Height in pixels.
    pub height: u32,
    /// Layout of the pixels.
    pub pixel_format: CinepakPixelFormat,
    /// Presentation time stamp, where the caller gave one.
    pub pts: Option<i64>,
    /// The planes; both pixel formats use one.
    pub planes: Vec<CinepakPlane>,
}

/// A [`CinepakPlane`] as mathematical values.
pub struct PlaneView {
    pub stride: nat,
    pub data: Seq<u8>,
}

/// A [`CinepakFrame`] as mathematical values.
pub struct FrameView {
    pub width: u32,
    pub height: u32,
    pub pixel_format: CinepakPixelFormat,
    pub pts: Option<i64>,
    pub planes: Seq<PlaneView>,
}

impl View for CinepakPlane {
    type V = PlaneView;

    open spec fn view(&self) -> PlaneView {
        PlaneView { stride: self.stride as nat, data: self.data@ }
    }
}

impl View for CinepakFrame {
    type V = FrameView;

    open spec fn view(&self) -> FrameView {
        FrameView {
            width: self.width,
            height: self.height,
            pixel_format: self.pixel_format,
            pts: self.pts,
            planes: self.planes@.map_values(|p: CinepakPlane| p@),
        }
    }
}

/// Bytes per pixel.
pub open spec fn format_bpp(f: CinepakPixelFormat) -> nat {
    match f {
        CinepakPixelFormat::Rgb24 => 3,
        CinepakPixelFormat::Gray8 => 1,
    }
}

/// A frame that holds one packed plane of exactly `width * height` pixels.
pub open spec fn packed(f: FrameView) -> bool {
    &&& f.planes.len() == 1
    &&& f.planes[0].stride == f.width * format_bpp(f.pixel_format)
    &&& f.planes[0].data.len() == f.planes[0].stride * f.height
}

impl Clone for CinepakPlane {
    fn clone(&self) -> (r: Self)
        ensures
            r@ == self@,
    {
        CinepakPlane { stride: self.stride, data: self.data.clone() }
    }
}

impl Clone for CinepakFrame {
    fn clone(&self) -> (r: Self)
        ensures
            r@ == self@,
    {
        let mut planes: Vec<CinepakPlane> = Vec::new();
        let mut i: usize = 0;
        while i < self.planes.len()
            invariant
                i <= self.planes.len(),
                planes.len() == i,
                forall|j: int| 0 <= j < i ==> (#[trigger] planes@[j])@ == self.planes@[j]@,
            decreases self.planes.len() - i,
        {
            planes.push(self.planes[i].clone());
            i = i + 1;
        }
        let r = CinepakFrame {
            width: self.width,
            height: self.height,
            pixel_format: self.pixel_format,
            pts: self.pts,
            planes,
        };
        assert(r@.planes =~= self@.planes);
        r
    }
}

impl CinepakFrame {
    /// The bytes of the first plane.
    pub fn pixels(&self) -> (r: &[u8])
        requires
            self.planes.len() >= 1,
        ensures
            r@ == self@.planes[0].data,
    {
        self.planes[0].data.as_slice()
    }

    /// The row stride of the first plane, in bytes.
    pub fn stride(&self) -> (r: usize)
        requires
            self.planes.len() >= 1,
        ensures
            r == self@.planes[0].stride,
    {
        self.planes[0].stride
    }
}

} // verus!
