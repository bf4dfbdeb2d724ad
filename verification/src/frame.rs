//! Platform-neutral plumbing between whoever produces video frames and the paintable that
//! displays them.

use vstd::prelude::*;

verus! {

/// Frames on this platform do not belong to a compositor, so there is nothing to acknowledge.
/// The handle exists to keep the shared code path uniform.
#[derive(Debug)]
pub struct FrameCallbacks;

impl FrameCallbacks {
    /// Uses the handle up. Nobody waits for the acknowledgement, so nothing else happens.
    pub fn done(self, _time_ms: u32) {
    }
}

/// The layout of a pixel in a shared memory frame.
#[derive(Debug, Clone, Copy, PartialEq, Eq, Structural)]
pub enum ShmMemoryFormat {
    Argb8888,
    Xrgb8888,
}

/// A frame that lies in plain memory.
pub struct ShmFrame {
    pub width: i32,
    pub height: i32,
    pub stride: usize,
    pub format: ShmMemoryFormat,
    pub data: Vec<u8>,
}

/// What an update does to the content of the surface.
pub enum SurfaceContentUpdate {
    Unchanged,
    Shm(ShmFrame),
    Clear,
}

/// One update of the surface, with the acknowledgement that its producer waits for, if any.
pub struct SurfaceUpdate {
    pub content: SurfaceContentUpdate,
    pub frame_callbacks: Option<FrameCallbacks>,
}

/// How large the video is drawn: the size of the widget and the factor from its units to device
/// pixels. The factor is kept as the bits of its IEEE 754 double.
#[derive(Debug, Clone, Copy)]
pub struct Viewport {
    pub width: i32,
    pub height: i32,
    pub scale_bits: u64,
}

/// The bits of a double without its sign.
pub open spec fn double_magnitude(bits: u64) -> u64 {
    bits % 0x8000_0000_0000_0000
}

/// The bits are those of no number.
pub open spec fn double_is_nan(bits: u64) -> bool {
    double_magnitude(bits) > 0x7ff0_0000_0000_0000
}

/// Two doubles compare equal: both are numbers, and they have the same bits or are both zero,
/// whatever their signs.
pub open spec fn doubles_equal(a: u64, b: u64) -> bool {
    &&& !double_is_nan(a)
    &&& !double_is_nan(b)
    &&& a == b || (double_magnitude(a) == 0 && double_magnitude(b) == 0)
}

impl Viewport {
    pub fn new(width: i32, height: i32, scale_bits: u64) -> (viewport: Self)
        ensures
            viewport == (Viewport { width, height, scale_bits }),
    {
        Viewport { width, height, scale_bits }
    }
}

impl Default for Viewport {
    /// An empty viewport, with all its numbers zero.
    fn default() -> (viewport: Self)
        ensures
            viewport == (Viewport { width: 0, height: 0, scale_bits: 0 }),
    {
        Viewport { width: 0, height: 0, scale_bits: 0 }
    }
}

impl PartialEq for Viewport {
    fn eq(&self, other: &Self) -> (equal: bool)
        ensures
            equal <==> {
                &&& self.width == other.width
                &&& self.height == other.height
                &&& self.scale_bits % 0x8000_0000_0000_0000 <= 0x7ff0_0000_0000_0000
                &&& other.scale_bits % 0x8000_0000_0000_0000 <= 0x7ff0_0000_0000_0000
                &&& self.scale_bits == other.scale_bits || (self.scale_bits
                    % 0x8000_0000_0000_0000 == 0 && other.scale_bits % 0x8000_0000_0000_0000 == 0)
            },
    {
        let a: u64 = self.scale_bits % 0x8000_0000_0000_0000;
        let b: u64 = other.scale_bits % 0x8000_0000_0000_0000;
        self.width == other.width && self.height == other.height && a <= 0x7ff0_0000_0000_0000 && b
            <= 0x7ff0_0000_0000_0000 && (self.scale_bits == other.scale_bits || (a == 0 && b == 0))
    }
}

impl vstd::std_specs::cmp::PartialEqSpecImpl for Viewport {
    open spec fn obeys_eq_spec() -> bool {
        true
    }

    open spec fn eq_spec(&self, other: &Self) -> bool {
        self.width == other.width && self.height == other.height && doubles_equal(
            self.scale_bits,
            other.scale_bits,
        )
    }
}

/// Viewports are equal exactly where their sizes are and their factors are equal as doubles: a
/// factor whose exponent is all ones over a fraction that is not zero is no number and equals
/// nothing, the two zeros equal each other, and any other factor equals itself alone.
pub proof fn lemma_viewports_compare_as_numbers(a: Viewport, b: Viewport)
    ensures
        vstd::std_specs::cmp::PartialEqSpec::eq_spec(&a, &b) <==> {
            &&& a.width == b.width
            &&& a.height == b.height
            &&& !((a.scale_bits / 0x10_0000_0000_0000) % 0x800 == 0x7ff && a.scale_bits
                % 0x10_0000_0000_0000 != 0)
            &&& !((b.scale_bits / 0x10_0000_0000_0000) % 0x800 == 0x7ff && b.scale_bits
                % 0x10_0000_0000_0000 != 0)
            &&& a.scale_bits == b.scale_bits || ((a.scale_bits == 0 || a.scale_bits
                == 0x8000_0000_0000_0000) && (b.scale_bits == 0 || b.scale_bits
                == 0x8000_0000_0000_0000))
        },
{
}

} // verus!
