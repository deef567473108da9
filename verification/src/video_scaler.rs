//! Video scaling helpers for I420 frames.

use crate::i420;
use vstd::prelude::*;

verus! {

pub const TARGET_WIDTH: u32 = 1600;

pub const TARGET_HEIGHT: u32 = 900;

/// An I420 frame: its planes, whose rows are `stride` bytes apart.
pub struct I420Buffer {
    pub width: u32,
    pub height: u32,
    pub stride_y: u32,
    pub stride_u: u32,
    pub stride_v: u32,
    pub y: Vec<u8>,
    pub u: Vec<u8>,
    pub v: Vec<u8>,
}

fn zeros(n: usize) -> (r: Vec<u8>)
    ensures
        r@.len() == n,
        forall|i: int| 0 <= i < n ==> r@[i] == 0,
{
    let mut bytes: Vec<u8> = Vec::new();
    while bytes.len() < n
        invariant
            bytes@.len() <= n,
            forall|i: int| 0 <= i < bytes@.len() ==> bytes@[i] == 0,
        decreases n - bytes@.len(),
    {
        bytes.push(0);
    }
    bytes
}

fn copy_of(bytes: &[u8]) -> (r: Vec<u8>)
    ensures
        r@ == bytes@,
{
    vstd::slice::slice_to_vec(bytes)
}

impl I420Buffer {
    /// Each plane holds its rows, the chroma planes half as many, rounded up.
    pub open spec fn wf(&self) -> bool {
        &&& self.y@.len() == self.stride_y * self.height
        &&& self.u@.len() == self.stride_u * i420::chroma(self.height)
        &&& self.v@.len() == self.stride_v * i420::chroma(self.height)
    }

    /// Whether two buffers hold the same frame in the same layout.
    pub open spec fn same_frame(&self, other: &Self) -> bool {
        &&& self.width == other.width
        &&& self.height == other.height
        &&& self.stride_y == other.stride_y
        &&& self.stride_u == other.stride_u
        &&& self.stride_v == other.stride_v
        &&& self.y@ == other.y@
        &&& self.u@ == other.u@
        &&& self.v@ == other.v@
    }

    /// A frame of zeros without padding.
    pub fn new(width: u32, height: u32) -> (r: Self)
        requires
            width < u32::MAX,
            height < u32::MAX,
            width * height <= usize::MAX,
            i420::chroma(width) * i420::chroma(height) <= usize::MAX,
        ensures
            r.wf(),
            r.width == width,
            r.height == height,
            r.stride_y == width,
            r.stride_u == i420::chroma(width),
            r.stride_v == i420::chroma(width),
            forall|i: int| 0 <= i < r.y@.len() ==> r.y@[i] == 0,
            forall|i: int| 0 <= i < r.u@.len() ==> r.u@[i] == 0,
            forall|i: int| 0 <= i < r.v@.len() ==> r.v@[i] == 0,
    {
        let chroma_width: u32 = (width + 1) / 2;
        let chroma_height: u32 = (height + 1) / 2;
        let chroma_size: usize = chroma_width as usize * chroma_height as usize;
        I420Buffer {
            width,
            height,
            stride_y: width,
            stride_u: chroma_width,
            stride_v: chroma_width,
            y: zeros(width as usize * height as usize),
            u: zeros(chroma_size),
            v: zeros(chroma_size),
        }
    }
}

/// A frame that is to be scaled, and the size to scale it to. The frame is
/// the job's own, because scaling may change it.
pub struct ScaleJob {
    pub source: I420Buffer,
    pub target_width: u32,
    pub target_height: u32,
}

impl ScaleJob {
    /// The width of the scaled frame.
    pub fn width(&self) -> (r: u32)
        ensures
            r == self.target_width,
    {
        self.target_width
    }

    /// The height of the scaled frame.
    pub fn height(&self) -> (r: u32)
        ensures
            r == self.target_height,
    {
        self.target_height
    }
}

/// The job of scaling a copy of `src`.
pub fn scale_i420(src: &I420Buffer, target_width: u32, target_height: u32) -> (r: ScaleJob)
    requires
        src.wf(),
    ensures
        r.source.wf(),
        r.source.same_frame(src),
        r.target_width == target_width,
        r.target_height == target_height,
{
    let source = I420Buffer {
        width: src.width,
        height: src.height,
        stride_y: src.stride_y,
        stride_u: src.stride_u,
        stride_v: src.stride_v,
        y: copy_of(src.y.as_slice()),
        u: copy_of(src.u.as_slice()),
        v: copy_of(src.v.as_slice()),
    };
    ScaleJob { source, target_width, target_height }
}

/// Scales frames up to a target size.
pub struct VideoScaler {
    pub target_width: u32,
    pub target_height: u32,
}

impl VideoScaler {
    /// Whether a frame of a size is scaled.
    pub open spec fn scales(&self, width: u32, height: u32) -> bool {
        width < self.target_width || height < self.target_height
    }

    /// A scaler to the default size.
    pub fn new() -> (r: Self)
        ensures
            r.target_width == TARGET_WIDTH,
            r.target_height == TARGET_HEIGHT,
    {
        Self::new_with_target(TARGET_WIDTH, TARGET_HEIGHT)
    }

    /// A scaler to a size.
    pub fn new_with_target(target_width: u32, target_height: u32) -> (r: Self)
        ensures
            r.target_width == target_width,
            r.target_height == target_height,
    {
        Self { target_width, target_height }
    }

    /// Scale a frame that is smaller than the target in width or in height.
    pub fn scale_if_needed(&self, src: &I420Buffer) -> (r: Option<ScaleJob>)
        requires
            src.wf(),
        ensures
            r is Some <==> src.width < self.target_width || src.height < self.target_height,
            r is Some <==> self.scales(src.width, src.height),
            r matches Some(job) ==> {
                &&& job.source.same_frame(src)
                &&& job.target_width == self.target_width
                &&& job.target_height == self.target_height
            },
    {
        if !self.needs_upscale(src.width, src.height) {
            return None;
        }
        Some(self.scale(src))
    }

    /// Scale a frame to the target.
    pub fn scale(&self, src: &I420Buffer) -> (r: ScaleJob)
        requires
            src.wf(),
        ensures
            r.source.same_frame(src),
            r.target_width == self.target_width,
            r.target_height == self.target_height,
    {
        scale_i420(src, self.target_width, self.target_height)
    }

    /// Whether a size is smaller than the target in width or in height.
    pub fn needs_upscale(&self, width: u32, height: u32) -> (r: bool)
        ensures
            r <==> width < self.target_width || height < self.target_height,
            r == self.scales(width, height),
    {
        width < self.target_width || height < self.target_height
    }
}

/// A frame is left as it is exactly where it is as wide and as high as the
/// target; a larger frame than one that is left is left too.
pub proof fn large_frames_are_left(
    scaler: VideoScaler,
    width: u32,
    height: u32,
    wider: u32,
    higher: u32,
)
    ensures
        !scaler.scales(scaler.target_width, scaler.target_height),
        !scaler.scales(width, height) <==> scaler.target_width <= width && scaler.target_height
            <= height,
        !scaler.scales(width, height) && wider >= width && higher >= height ==> !scaler.scales(
            wider,
            higher,
        ),
{
}

} // verus!
