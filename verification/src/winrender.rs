//! The software video path.
//!
//! mpv draws into a plain buffer, which is then uploaded as a texture and painted like any other
//! frame. This module decides what to do with each message of the render thread, how the buffer
//! is laid out, and what becomes of it once mpv is done.

use vstd::prelude::*;
use vstd::string::*;

use crate::frame::Viewport;
use crate::text::append_number;

verus! {

/// Bytes per pixel of the `bgr0` surface mpv renders into.
pub const BYTES_PER_PIXEL: usize = 4;

/// mpv asks for this alignment of both the buffer pointer and the stride, otherwise it silently
/// falls back to a much slower copy path.
pub const ALIGNMENT: usize = 64;

/// A finished frame on its way to the main thread.
pub struct Frame {
    pub width: i32,
    pub height: i32,
    pub stride: usize,
    pub data: Vec<u8>,
}

/// A message to the render thread.
#[derive(Debug, Clone, Copy)]
pub enum Msg {
    Viewport(Viewport),
    Render,
    Shutdown,
}

/// What the render thread does next.
#[derive(Debug, Clone, Copy)]
pub enum LoopAction {
    /// Take the next message.
    Wait,
    /// Render one frame for this viewport, then take the next message.
    Render(Viewport),
    /// Take the render context down.
    Stop,
}

/// The state of the render thread between two messages.
pub struct SoftwareRenderer {
    pub viewport: Viewport,
    pub running: bool,
}

/// The text of the error for a render context that could not be made.
pub open spec fn context_error(code: i32) -> Seq<char> {
    "mpv_render_context_create failed with "@ + crate::text::decimal(code as int)
}

impl SoftwareRenderer {
    /// The state before the first message: nothing was said of the size yet.
    pub open spec fn initial() -> Self {
        SoftwareRenderer {
            viewport: Viewport { width: 0, height: 0, scale_bits: 0 },
            running: true,
        }
    }

    /// The state after `msg`, and what is done about it. `None` stands for the end of the
    /// messages.
    pub open spec fn after(self, msg: Option<Msg>) -> (Self, LoopAction) {
        if !self.running {
            (self, LoopAction::Stop)
        } else {
            match msg {
                Some(Msg::Viewport(viewport)) => (
                    SoftwareRenderer { viewport, running: true },
                    LoopAction::Wait,
                ),
                Some(Msg::Render) => (self, LoopAction::Render(self.viewport)),
                Some(Msg::Shutdown) | None => (
                    SoftwareRenderer { viewport: self.viewport, running: false },
                    LoopAction::Stop,
                ),
            }
        }
    }

    /// Starts the thread's work with the code that the creation of the render context gave. A
    /// negative code is an error.
    pub fn start(code: i32) -> (started: Result<Self, String>)
        ensures
            started is Err <==> code < 0,
            started matches Ok(renderer) ==> renderer == Self::initial(),
            started matches Ok(renderer) ==> renderer.running && renderer.viewport.width == 0
                && renderer.viewport.height == 0 && renderer.viewport.scale_bits == 0,
            started matches Err(error) ==> error@ == context_error(code),
            started matches Err(error) ==> error@ == "mpv_render_context_create failed with "@
                + crate::text::decimal(code as int),
    {
        if code < 0 {
            let mut error = String::from_str("mpv_render_context_create failed with ");
            append_number(&mut error, code);
            return Err(error);
        }
        Ok(SoftwareRenderer { viewport: Viewport::default(), running: true })
    }

    /// Takes the next message, `None` where no more can come. After a stop every further message
    /// is answered with a stop.
    pub fn handle(&mut self, msg: Option<Msg>) -> (action: LoopAction)
        ensures
            (*final(self), action) == old(self).after(msg),
            !old(self).running ==> action is Stop && *final(self) == *old(self),
            old(self).running ==> match msg {
                Some(Msg::Viewport(viewport)) => action is Wait && final(self).viewport == viewport
                    && final(self).running,
                Some(Msg::Render) => action == LoopAction::Render(old(self).viewport)
                    && *final(self) == *old(self),
                Some(Msg::Shutdown) | None => action is Stop && !final(self).running
                    && final(self).viewport == old(self).viewport,
            },
    {
        if !self.running {
            return LoopAction::Stop;
        }
        match msg {
            Some(Msg::Viewport(viewport)) => {
                self.viewport = viewport;
                LoopAction::Wait
            },
            Some(Msg::Render) => LoopAction::Render(self.viewport),
            Some(Msg::Shutdown) | None => {
                self.running = false;
                LoopAction::Stop
            },
        }
    }
}

/// The bytes from one row to the next: the smallest multiple of the alignment that holds a row.
pub open spec fn row_stride(width: int) -> int {
    (width * BYTES_PER_PIXEL + ALIGNMENT - 1) / (ALIGNMENT as int) * ALIGNMENT
}

/// The bytes of a whole buffer of that size.
pub open spec fn frame_bytes(width: int, height: int) -> int {
    row_stride(width) * height
}

/// There is something to draw.
pub open spec fn drawable(width: i32, height: i32) -> bool {
    width > 0 && height > 0
}

/// Bytes with the fourth byte of every pixel made opaque.
pub open spec fn opaque(data: Seq<u8>) -> Seq<u8> {
    Seq::new(
        data.len(),
        |i: int|
            if i % 4 == 3 {
                0xff
            } else {
                data[i]
            },
    )
}

/// The bytes from `address` to the next aligned one.
pub open spec fn bytes_to_alignment(address: int) -> int {
    (ALIGNMENT - address % (ALIGNMENT as int)) % (ALIGNMENT as int)
}

/// What mpv is asked to render: a size in device pixels, and the buffer to render into with its
/// layout.
///
/// The buffer is longer than the frame, so that the frame can start at an aligned address wherever
/// the buffer lies.
pub struct RenderTarget {
    pub width: i32,
    pub height: i32,
    pub stride: usize,
    /// The name of the pixel format. `bgr0` puts blue at the lowest address.
    pub format: &'static str,
    /// mpv renders at its own pace and blocks until the frame is due, which keeps playback timing
    /// correct without a timer of our own.
    pub block_for_target_time: bool,
    pub data: Vec<u8>,
}

impl RenderTarget {
    /// The buffer holds all rows of the size, laid out as the stride says, and the bytes that
    /// aligning them can take.
    pub open spec fn well_formed(self) -> bool {
        &&& drawable(self.width, self.height)
        &&& self.stride == row_stride(self.width as int)
        &&& self.data@.len() == frame_bytes(self.width as int, self.height as int) + ALIGNMENT - 1
    }

    /// What mpv rendered, where the buffer lay at `address`: as many bytes as the frame has, from
    /// the first aligned one on.
    pub open spec fn rendered(self, address: usize) -> Seq<u8> {
        let start = bytes_to_alignment(address as int);
        if self.data@.len() < ALIGNMENT {
            seq![]
        } else {
            self.data@.subrange(start, start + self.data@.len() - (ALIGNMENT - 1))
        }
    }
}

impl Frame {
    /// The data holds all rows of the size, laid out as the stride says.
    pub open spec fn well_formed(self) -> bool {
        &&& drawable(self.width, self.height)
        &&& self.stride == row_stride(self.width as int)
        &&& self.data@.len() == frame_bytes(self.width as int, self.height as int)
    }
}

/// Whether a buffer of that size can be had at all: no allocation is larger than `isize::MAX`.
pub fn frame_fits(width: i32, height: i32) -> (fits: bool)
    ensures
        fits <==> (drawable(width, height) ==> frame_bytes(width as int, height as int)
            <= isize::MAX),
        fits <==> width <= 0 || height <= 0 || (4 * width + 63) / 64 * 64 * height <= isize::MAX,
{
    if width <= 0 || height <= 0 {
        return true;
    }
    let alignment: u64 = ALIGNMENT as u64;
    let row: u64 = (width as u64 * BYTES_PER_PIXEL as u64 + (alignment - 1)) / alignment
        * alignment;
    assert(row as u128 * height as u128 <= 0x2_0000_0040 * 0x8000_0000) by (nonlinear_arith)
        requires
            row <= 0x2_0000_0040,
            0 < height <= 0x8000_0000,
    ;
    let whole: u128 = row as u128 * height as u128;
    whole <= isize::MAX as u128
}

impl RenderTarget {
    /// The buffer for a frame of that size in device pixels, all zero, or `None` where there is
    /// nothing to draw.
    pub fn begin(width: i32, height: i32) -> (target: Option<Self>)
        requires
            drawable(width, height) ==> frame_bytes(width as int, height as int) <= isize::MAX,
        ensures
            target is Some <==> drawable(width, height),
            target is Some <==> width > 0 && height > 0,
            target matches Some(target) ==> {
                &&& target.stride % 64 == 0
                &&& 4 * width <= target.stride < 4 * width + 64
                &&& target.data@.len() == target.stride * height + 63
                &&& forall|i: int| 0 <= i < target.data@.len() ==> #[trigger] target.data@[i] == 0
            },
            target matches Some(target) ==> {
                &&& target.well_formed()
                &&& target.width == width
                &&& target.height == height
                &&& target.stride == row_stride(width as int)
                &&& target.format@ == "bgr0"@
                &&& target.block_for_target_time
                &&& target.data@ == Seq::new(
                    (frame_bytes(width as int, height as int) + ALIGNMENT - 1) as nat,
                    |i: int| 0u8,
                )
            },
    {
        if width <= 0 || height <= 0 {
            return None;
        }
        proof {
            lemma_stride(width as int);
            lemma_row_fits_frame(width as int, height as int);
            lemma_room_to_align(width as int, height as int);
        }
        let stride: usize = (width as usize * BYTES_PER_PIXEL + (ALIGNMENT - 1)) / ALIGNMENT
            * ALIGNMENT;
        let data: Vec<u8> = vec![0u8; stride * height as usize + (ALIGNMENT - 1)];
        Some(
            RenderTarget {
                width,
                height,
                stride,
                format: "bgr0",
                block_for_target_time: true,
                data,
            },
        )
    }

    /// Where in the buffer mpv is to render, given the address at which the buffer lies: at the
    /// first aligned byte.
    pub fn aligned_start(&self, address: usize) -> (start: usize)
        ensures
            start == bytes_to_alignment(address as int),
            start < ALIGNMENT,
            start < 64,
            (address + start) % (ALIGNMENT as int) == 0,
            (address + start) % 64 == 0,
            self.well_formed() ==> start + frame_bytes(self.width as int, self.height as int)
                <= self.data@.len(),
    {
        proof {
            lemma_bytes_to_alignment(address as int);
        }
        (ALIGNMENT - address % ALIGNMENT) % ALIGNMENT
    }

    /// The finished frame, given the address at which the buffer lies and the code that mpv
    /// returned for this target, or `None` where the code is negative and the render failed.
    ///
    /// mpv leaves the fourth byte of every pixel undefined. The texture is premultiplied, so
    /// undefined alpha would show up as transparency.
    pub fn finish(self, address: usize, code: i32) -> (frame: Option<Frame>)
        ensures
            frame is Some <==> code >= 0,
            frame matches Some(frame) ==> {
                &&& frame.data@.len() == (if self.data@.len() < 63 {
                    0
                } else {
                    self.data@.len() - 63
                })
                &&& forall|s: int, i: int|
                    0 <= s < 64 && (address + s) % 64 == 0 && 0 <= i < frame.data@.len()
                        ==> #[trigger] frame.data@[i] == (if i % 4 == 3 {
                        0xff
                    } else {
                        #[trigger] self.data@[s + i]
                    })
            },
            frame matches Some(frame) ==> {
                &&& frame.width == self.width
                &&& frame.height == self.height
                &&& frame.stride == self.stride
                &&& frame.data@ == opaque(self.rendered(address))
                &&& self.well_formed() ==> frame.well_formed()
            },
    {
        if code < 0 {
            return None;
        }
        let start: usize = self.aligned_start(address);
        let mut data = self.data;
        let len: usize = if data.len() < ALIGNMENT {
            0
        } else {
            data.len() - (ALIGNMENT - 1)
        };
        take_opaque(&mut data, start, len);
        assert(data@ =~= opaque(self.rendered(address)));
        assert(data@.len() == len);
        assert forall|s: int, i: int|
            0 <= s < 64 && (address + s) % 64 == 0 && 0 <= i < data@.len() implies
            #[trigger] data@[i] == (if i % 4 == 3 {
            0xff
        } else {
            #[trigger] self.data@[s + i]
        }) by {
            assert(s == start);
        }
        Some(Frame { width: self.width, height: self.height, stride: self.stride, data })
    }
}

/// Leaves the `len` bytes from `start` on, with every pixel made opaque.
fn take_opaque(data: &mut Vec<u8>, start: usize, len: usize)
    requires
        len == 0 || start + len <= old(data)@.len(),
    ensures
        final(data)@ == if len == 0 {
            seq![]
        } else {
            opaque(old(data)@.subrange(start as int, start + len))
        },
{
    let whole: usize = data.len();
    let mut i: usize = 0;
    while i < len
        invariant
            i <= len,
            start + len <= whole || len == 0,
            whole == data@.len(),
            whole == old(data)@.len(),
            forall|k: int|
                0 <= k < i ==> #[trigger] data@[k] == (if k % 4 == 3 {
                    0xff
                } else {
                    old(data)@[start + k]
                }),
            forall|k: int| i <= k < whole ==> #[trigger] data@[k] == old(data)@[k],
        decreases len - i,
    {
        data[i] = if i % BYTES_PER_PIXEL == 3 {
            0xff
        } else {
            data[start + i]
        };
        i = i + 1;
    }
    data.truncate(len);
}

/// The stride is a multiple of the alignment and holds a row, and no smaller one does.
pub proof fn lemma_stride(width: int)
    requires
        0 <= width,
    ensures
        row_stride(width) % (ALIGNMENT as int) == 0,
        row_stride(width) >= width * BYTES_PER_PIXEL,
        forall|other: int|
            #![trigger other % (ALIGNMENT as int)]
            other % (ALIGNMENT as int) == 0 && other >= width * BYTES_PER_PIXEL ==> other
                >= row_stride(width),
{
}

/// A buffer with at least one row holds that row.
proof fn lemma_row_fits_frame(width: int, height: int)
    requires
        0 < width,
        0 < height,
    ensures
        row_stride(width) <= frame_bytes(width, height),
{
    assert(row_stride(width) * height >= row_stride(width)) by (nonlinear_arith)
        requires
            row_stride(width) >= 0,
            height >= 1,
    ;
}

/// There is something to draw exactly where both sides of the size are positive.
pub proof fn lemma_drawable_sizes(width: i32, height: i32)
    ensures
        drawable(width, height) <==> width > 0 && height > 0,
{
}

/// A row takes four bytes for each pixel, and then as few more as make it a multiple of 64.
pub proof fn lemma_stride_in_bytes(width: int)
    requires
        0 <= width,
    ensures
        row_stride(width) % 64 == 0,
        4 * width <= row_stride(width) < 4 * width + 64,
{
}

/// A buffer without rows is empty, and each further row takes one more stride.
pub proof fn lemma_frame_grows_by_rows(width: int, height: int)
    ensures
        frame_bytes(width, 0) == 0,
        frame_bytes(width, height + 1) == frame_bytes(width, height) + row_stride(width),
{
    assert(row_stride(width) * (height + 1) == row_stride(width) * height + row_stride(width))
        by (nonlinear_arith);
}

/// Making bytes opaque sets every fourth one to 0xff and keeps the others where they are.
pub proof fn lemma_opaque_bytes(data: Seq<u8>)
    ensures
        opaque(data).len() == data.len(),
        forall|i: int|
            0 <= i < data.len() ==> #[trigger] opaque(data)[i] == (if i % 4 == 3 {
                0xff
            } else {
                data[i]
            }),
{
}

/// What was rendered into a target is the content of its buffer from the first aligned byte on,
/// without the 63 bytes that aligning can take.
pub proof fn lemma_rendered_bytes(target: RenderTarget, address: usize, s: int)
    requires
        0 <= s < 64,
        (address + s) % 64 == 0,
    ensures
        target.data@.len() <= 63 ==> target.rendered(address).len() == 0,
        target.data@.len() >= 63 ==> target.rendered(address).len() == target.data@.len() - 63,
        forall|i: int|
            0 <= i < target.rendered(address).len() ==> #[trigger] target.rendered(address)[i]
                == target.data@[s + i],
{
    assert(s == bytes_to_alignment(address as int));
}

/// A frame of a positive size, with the stride and the bytes that it asks for, is well formed, and
/// so is a target with 63 bytes more; nothing else is.
pub proof fn lemma_well_formed_sizes(target: RenderTarget, frame: Frame)
    ensures
        target.well_formed() <==> {
            &&& target.width > 0
            &&& target.height > 0
            &&& target.stride % 64 == 0
            &&& 4 * target.width <= target.stride < 4 * target.width + 64
            &&& target.data@.len() == target.stride * target.height + 63
        },
        frame.well_formed() <==> {
            &&& frame.width > 0
            &&& frame.height > 0
            &&& frame.stride % 64 == 0
            &&& 4 * frame.width <= frame.stride < 4 * frame.width + 64
            &&& frame.data@.len() == frame.stride * frame.height
        },
{
}

/// The error names the code behind a fixed text.
pub proof fn lemma_context_error(code: i32)
    ensures
        context_error(code) == "mpv_render_context_create failed with "@ + crate::text::decimal(
            code as int,
        ),
{
}

/// At first the renderer runs and knows of no size.
pub proof fn lemma_initial_renderer()
    ensures
        SoftwareRenderer::initial().running,
        SoftwareRenderer::initial().viewport.width == 0,
        SoftwareRenderer::initial().viewport.height == 0,
        SoftwareRenderer::initial().viewport.scale_bits == 0,
{
}

/// A running renderer keeps a viewport that it is told, renders for the one it has, and stops at a
/// shutdown or where no more messages can come. A stopped one stays as it is.
pub proof fn lemma_each_message(renderer: SoftwareRenderer, viewport: Viewport, msg: Option<Msg>)
    ensures
        renderer.running ==> {
            let (next, action) = renderer.after(Some(Msg::Viewport(viewport)));
            next.running && next.viewport == viewport && action is Wait
        },
        renderer.running ==> {
            let (next, action) = renderer.after(Some(Msg::Render));
            next == renderer && action == LoopAction::Render(renderer.viewport)
        },
        renderer.running ==> {
            let (next, action) = renderer.after(Some(Msg::Shutdown));
            !next.running && next.viewport == renderer.viewport && action is Stop
        },
        renderer.after(None) == renderer.after(Some(Msg::Shutdown)),
        !renderer.running ==> renderer.after(msg) == (renderer, LoopAction::Stop),
{
}

/// A fresh renderer has taken no message, and one that takes messages takes them one by one.
pub proof fn lemma_messages_in_turn(msgs: Seq<Msg>, msg: Msg)
    ensures
        state_after(Seq::<Msg>::empty()) == SoftwareRenderer::initial(),
        state_after(msgs.push(msg)) == state_after(msgs).after(Some(msg)).0,
        action_at(msgs.push(msg), msgs.len() as int) == state_after(msgs).after(Some(msg)).1,
{
    assert(msgs.push(msg).drop_last() =~= msgs);
    assert(msgs.push(msg).take(msgs.len() as int) =~= msgs);
}

/// The bytes to the next aligned address are fewer than the alignment, and lead to one.
pub proof fn lemma_bytes_to_alignment(address: int)
    ensures
        0 <= bytes_to_alignment(address) < ALIGNMENT,
        0 <= bytes_to_alignment(address) < 64,
        (address + bytes_to_alignment(address)) % (ALIGNMENT as int) == 0,
        (address + bytes_to_alignment(address)) % 64 == 0,
{
}

/// A frame that can be had at all can be had with the bytes that aligning it can take.
proof fn lemma_room_to_align(width: int, height: int)
    requires
        0 < width,
        0 < height,
        frame_bytes(width, height) <= isize::MAX,
    ensures
        frame_bytes(width, height) + ALIGNMENT - 1 <= isize::MAX,
{
    let units = (width * BYTES_PER_PIXEL + ALIGNMENT - 1) / (ALIGNMENT as int);
    assert(units * 64 * height == 64 * (units * height)) by (nonlinear_arith);
    assert(isize::MAX % 64 == 63);
}

/// Where mpv renders, every row starts at an aligned address, the first one included.
pub proof fn lemma_rows_are_aligned(address: int, width: int, y: int)
    requires
        0 < width,
        0 <= y,
    ensures
        (address + bytes_to_alignment(address)) % (ALIGNMENT as int) == 0,
        row_stride(width) % (ALIGNMENT as int) == 0,
        (address + bytes_to_alignment(address) + y * row_stride(width)) % (ALIGNMENT as int) == 0,
{
    lemma_bytes_to_alignment(address);
    lemma_stride(width);
    let units = (width * BYTES_PER_PIXEL + ALIGNMENT - 1) / (ALIGNMENT as int);
    assert(y * (units * 64) == 64 * (y * units)) by (nonlinear_arith);
}

/// Where the bytes of the pixel in column `x` of row `y` start.
pub open spec fn pixel_at(width: int, x: int, y: int) -> int {
    y * row_stride(width) + x * BYTES_PER_PIXEL
}

/// Every pixel lies inside the buffer, and inside its own row.
pub proof fn lemma_pixels_lie_in_frame(width: int, height: int, x: int, y: int)
    requires
        0 <= x < width,
        0 <= y < height,
    ensures
        0 <= pixel_at(width, x, y),
        pixel_at(width, x, y) + BYTES_PER_PIXEL <= (y + 1) * row_stride(width),
        pixel_at(width, x, y) + BYTES_PER_PIXEL <= frame_bytes(width, height),
{
    let stride = row_stride(width);
    lemma_stride(width);
    assert(0 <= y * stride && (y + 1) * stride == y * stride + stride && (y + 1) * stride <= stride
        * height) by (nonlinear_arith)
        requires
            0 <= y < height,
            0 <= stride,
    ;
}

/// In a finished frame every pixel is opaque and keeps the colour that mpv gave it.
pub proof fn lemma_finished_pixels(width: int, height: int, x: int, y: int, rendered: Seq<u8>)
    requires
        0 <= x < width,
        0 <= y < height,
        rendered.len() == frame_bytes(width, height),
    ensures
        opaque(rendered).len() == rendered.len(),
        opaque(rendered)[pixel_at(width, x, y)] == rendered[pixel_at(width, x, y)],
        opaque(rendered)[pixel_at(width, x, y) + 1] == rendered[pixel_at(width, x, y) + 1],
        opaque(rendered)[pixel_at(width, x, y) + 2] == rendered[pixel_at(width, x, y) + 2],
        opaque(rendered)[pixel_at(width, x, y) + 3] == 0xff,
{
    lemma_pixels_lie_in_frame(width, height, x, y);
    let rows = (width * BYTES_PER_PIXEL + ALIGNMENT - 1) / (ALIGNMENT as int);
    assert(y * (rows * 64) == 4 * (y * rows * 16)) by (nonlinear_arith);
}

/// Making a frame opaque twice is making it opaque once.
pub proof fn lemma_opaque_twice(data: Seq<u8>)
    ensures
        opaque(opaque(data)) == opaque(data),
{
}

/// The state of a fresh renderer once it has taken all of `msgs`.
pub open spec fn state_after(msgs: Seq<Msg>) -> SoftwareRenderer
    decreases msgs.len(),
{
    if msgs.len() == 0 {
        SoftwareRenderer::initial()
    } else {
        state_after(msgs.drop_last()).after(Some(msgs.last())).0
    }
}

/// What a fresh renderer that takes `msgs` in order does about the one at `k`.
pub open spec fn action_at(msgs: Seq<Msg>, k: int) -> LoopAction {
    state_after(msgs.take(k)).after(Some(msgs[k])).1
}

/// The renderer runs as long as no shutdown was taken.
proof fn lemma_running(msgs: Seq<Msg>)
    ensures
        state_after(msgs).running <==> (forall|i: int|
            0 <= i < msgs.len() ==> !(#[trigger] msgs[i] is Shutdown)),
    decreases msgs.len(),
{
    if msgs.len() > 0 {
        let before = msgs.drop_last();
        lemma_running(before);
        assert(forall|i: int| 0 <= i < before.len() ==> #[trigger] before[i] == msgs[i]);
        if state_after(msgs).running {
            assert forall|i: int| 0 <= i < msgs.len() implies !(#[trigger] msgs[i] is Shutdown) by {
                if i < before.len() {
                    assert(before[i] == msgs[i]);
                }
            }
        }
    }
}

/// A frame is rendered for exactly those messages that ask for one and come before any shutdown.
pub proof fn lemma_renders_when_asked(msgs: Seq<Msg>, k: int)
    requires
        0 <= k < msgs.len(),
    ensures
        action_at(msgs, k) is Render <==> msgs[k] is Render && (forall|i: int|
            0 <= i < k ==> !(#[trigger] msgs[i] is Shutdown)),
{
    let before = msgs.take(k);
    lemma_running(before);
    assert(forall|i: int| 0 <= i < before.len() ==> before[i] == #[trigger] msgs[i]);
}

/// The loop stops at the first shutdown and stays stopped, and it stops for nothing else.
pub proof fn lemma_stops_at_shutdown(msgs: Seq<Msg>, k: int)
    requires
        0 <= k < msgs.len(),
    ensures
        action_at(msgs, k) is Stop <==> (exists|i: int|
            0 <= i <= k && #[trigger] msgs[i] is Shutdown),
{
    let before = msgs.take(k);
    lemma_running(before);
    assert(forall|i: int| 0 <= i < before.len() ==> #[trigger] before[i] == msgs[i]);
    if exists|i: int| 0 <= i <= k && #[trigger] msgs[i] is Shutdown {
        let i = choose|i: int| 0 <= i <= k && #[trigger] msgs[i] is Shutdown;
        if i < k {
            assert(before[i] is Shutdown);
        }
    }
}

/// A frame is rendered for the viewport that was told last.
pub proof fn lemma_renders_latest_viewport(msgs: Seq<Msg>, told: int, k: int)
    requires
        0 <= told < k < msgs.len(),
        msgs[told] is Viewport,
        forall|i: int| told < i < k ==> !(#[trigger] msgs[i] is Viewport),
        action_at(msgs, k) is Render,
    ensures
        action_at(msgs, k) == LoopAction::Render(msgs[told]->Viewport_0),
{
    lemma_latest_viewport(msgs.take(k), told);
}

/// Before any viewport was told, frames are rendered for the empty one.
pub proof fn lemma_renders_empty_viewport_first(msgs: Seq<Msg>, k: int)
    requires
        0 <= k < msgs.len(),
        forall|i: int| 0 <= i < k ==> !(#[trigger] msgs[i] is Viewport),
        action_at(msgs, k) is Render,
    ensures
        action_at(msgs, k) == LoopAction::Render(SoftwareRenderer::initial().viewport),
{
    lemma_no_viewport(msgs.take(k));
}

proof fn lemma_latest_viewport(msgs: Seq<Msg>, told: int)
    requires
        0 <= told < msgs.len(),
        msgs[told] is Viewport,
        forall|i: int| told < i < msgs.len() ==> !(#[trigger] msgs[i] is Viewport),
        state_after(msgs).running,
    ensures
        state_after(msgs).viewport == msgs[told]->Viewport_0,
    decreases msgs.len(),
{
    let before = msgs.drop_last();
    if told < before.len() {
        lemma_latest_viewport(before, told);
    }
}

proof fn lemma_no_viewport(msgs: Seq<Msg>)
    requires
        forall|i: int| 0 <= i < msgs.len() ==> !(#[trigger] msgs[i] is Viewport),
    ensures
        state_after(msgs).viewport == SoftwareRenderer::initial().viewport,
    decreases msgs.len(),
{
    if msgs.len() > 0 {
        let before = msgs.drop_last();
        lemma_no_viewport(before);
    }
}

} // verus!
