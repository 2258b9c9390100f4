//! Pending `wlr-screencopy` captures. A capture waits for the client to
//! provide a buffer, then for the render loop to fill it. Frames and buffers
//! are named by the compositor's protocol-object ids.

use vstd::prelude::*;
use crate::geometry::Rect;

verus! {

/// One capture request.
#[derive(Clone, Copy, PartialEq, Eq, Debug, Structural)]
pub struct PendingCapture {
    pub frame: u64,
    pub buffer: Option<u64>,
    pub output: u64,
    /// Region to copy; `None` copies the whole output.
    pub region: Option<Rect>,
    pub overlay_cursor: bool,
}

/// Width and height used when the captured output has no current mode.
pub const DEFAULT_CAPTURE_W: i32 = 1920;

pub const DEFAULT_CAPTURE_H: i32 = 1080;

/// The `(width, height, stride)` announced for an ARGB8888 capture of
/// `width × height` pixels: 4 bytes per pixel, each value reinterpreted as
/// `u32` as the protocol carries them.
pub open spec fn buffer_info(width: i32, height: i32) -> (u32, u32, u32) {
    (width as u32, height as u32, (width * 4) as i32 as u32)
}

pub fn capture_buffer_info(width: i32, height: i32) -> (r: (u32, u32, u32))
    requires
        i32::MIN <= width * 4 <= i32::MAX,
    ensures
        r == buffer_info(width, height),
{
    (width as u32, height as u32, (width * 4) as u32)
}

/// The size of a whole-output capture: the output's current mode, or
/// 1920×1080 when it has none.
pub fn output_capture_size(mode: Option<(i32, i32)>) -> (r: (i32, i32))
    ensures
        r == (match mode {
            Some(m) => m,
            None => (DEFAULT_CAPTURE_W, DEFAULT_CAPTURE_H),
        }),
{
    match mode {
        Some(m) => m,
        None => (DEFAULT_CAPTURE_W, DEFAULT_CAPTURE_H),
    }
}

/// The index of the first capture of `frame`, if any.
pub open spec fn first_capture_of(s: Seq<PendingCapture>, frame: u64) -> Option<int> {
    if exists|i: int| 0 <= i < s.len() && s[i].frame == frame {
        Some(
            choose|i: int|
                0 <= i < s.len() && s[i].frame == frame && forall|j: int|
                    0 <= j < i ==> s[j].frame != frame,
        )
    } else {
        None
    }
}

/// The captures waiting to be served, oldest first.
pub struct CaptureQueue {
    pub frames: Vec<PendingCapture>,
}

impl CaptureQueue {
    pub fn new() -> (r: CaptureQueue)
        ensures
            r.frames@ == Seq::<PendingCapture>::empty(),
    {
        CaptureQueue { frames: Vec::new() }
    }

    /// A client asked to capture `output` (or a region of it) into a new
    /// `frame`; it has no buffer yet.
    pub fn capture(
        &mut self,
        frame: u64,
        output: u64,
        region: Option<Rect>,
        overlay_cursor: bool,
    )
        ensures
            final(self).frames@ == old(self).frames@.push(
                PendingCapture { frame, buffer: None, output, region, overlay_cursor },
            ),
    {
        self.frames.push(PendingCapture { frame, buffer: None, output, region, overlay_cursor });
    }

    /// The client provided `buffer` for `frame` (`copy` or
    /// `copy_with_damage`; damage is not tracked): the first capture of that
    /// frame gets the buffer.
    pub fn attach_buffer(&mut self, frame: u64, buffer: u64)
        ensures
            final(self).frames@ == (match first_capture_of(old(self).frames@, frame) {
                Some(i) => old(self).frames@.update(
                    i,
                    PendingCapture { buffer: Some(buffer), ..old(self).frames@[i] },
                ),
                None => old(self).frames@,
            }),
    {
        let mut i: usize = 0;
        while i < self.frames.len()
            invariant
                self.frames@ == old(self).frames@,
                i <= self.frames@.len(),
                forall|j: int| 0 <= j < i ==> self.frames@[j].frame != frame,
            decreases self.frames@.len() - i,
        {
            if self.frames[i].frame == frame {
                proof {
                    let s = self.frames@;
                    let k = choose|k: int|
                        0 <= k < s.len() && s[k].frame == frame && forall|j: int|
                            0 <= j < k ==> s[j].frame != frame;
                    if k < i {
                        assert(s[k].frame != frame);
                    } else if k > i {
                        assert(s[i as int].frame != frame);
                    }
                }
                let mut c = self.frames[i];
                c.buffer = Some(buffer);
                self.frames.set(i, c);
                return;
            }
            i = i + 1;
        }
    }

    /// The client destroyed `frame`: every capture of it is dropped.
    pub fn destroy(&mut self, frame: u64)
        ensures
            final(self).frames@ == old(self).frames@.filter(|c: PendingCapture| c.frame != frame),
    {
        broadcast use vstd::seq_lib::group_filter_ensures;

        let mut kept: Vec<PendingCapture> = Vec::new();
        let mut i: usize = 0;
        while i < self.frames.len()
            invariant
                i <= self.frames@.len(),
                kept@ == self.frames@.take(i as int).filter(|c: PendingCapture| c.frame != frame),
            decreases self.frames@.len() - i,
        {
            let ghost t = self.frames@.take(i + 1);
            assert(t.drop_last() =~= self.frames@.take(i as int));
            assert(t.last() == self.frames@[i as int]);
            assert(t.filter(|c: PendingCapture| c.frame != frame) == {
                let sub = t.drop_last().filter(|c: PendingCapture| c.frame != frame);
                if t.last().frame != frame {
                    sub.push(t.last())
                } else {
                    sub
                }
            }) by {
                reveal_with_fuel(Seq::filter, 1);
            }
            if self.frames[i].frame != frame {
                kept.push(self.frames[i]);
            }
            i = i + 1;
        }
        assert(self.frames@.take(self.frames@.len() as int) =~= self.frames@);
        self.frames = kept;
    }
}

} // verus!
