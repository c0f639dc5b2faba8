//! The double-buffered presentation surface and its swap state machine.
//!
//! The surface owns two same-sized frames, an index naming the one on
//! screen, and a flag for an outstanding flip. Software writes only the
//! back frame; a second flip while one is pending is rejected rather than
//! queued; a completion event swaps the front designation and clears the
//! flag. The binary around the library performs the device calls and keeps
//! this model in step with the hardware, handing completion notifications
//! in as plain values.

use vstd::prelude::*;

verus! {

use vstd::arithmetic::div_mod::{
    lemma_div_is_ordered,
    lemma_fundamental_div_mod,
    lemma_fundamental_div_mod_converse,
};
use vstd::arithmetic::mul::lemma_mul_inequality;

/// One frame: the CPU-visible contents of a hardware pixel buffer.
#[derive(Debug)]
pub struct Frame {
    pub pixels: Vec<u8>,
}

/// Errors of the presentation pipeline.
#[derive(Clone, Copy, Debug, PartialEq, Eq, Structural)]
pub enum SurfaceError {
    /// A flip was requested while an earlier one was still outstanding.
    FlipAlreadyPending,
    /// The staging buffer cannot supply a full frame of bytes.
    BufferTooSmall,
}

/// One notification drained from the display device's event queue.
#[derive(Clone, Copy, Debug, PartialEq, Eq, Structural)]
pub enum DisplayEvent {
    /// A submitted flip has been presented.
    FlipCompleted,
    /// Any notification unrelated to flip completion.
    Other,
}

/// The double-buffered presentation surface.
#[derive(Debug)]
pub struct Surface {
    pub disp_w: usize,
    pub disp_h: usize,
    pub stride: usize,
    pub frame0: Frame,
    pub frame1: Frame,
    /// Index of the frame currently on screen: 0 or 1.
    pub front: usize,
    /// A flip has been submitted and its completion not yet absorbed.
    pub pending: bool,
}

impl Surface {
    /// The surface is well formed: the front index names one of the two
    /// frames, rows fit the stride, and both frames hold exactly
    /// height x stride bytes.
    pub open spec fn wf(self) -> bool {
        &&& self.front <= 1
        &&& self.stride >= 1
        &&& 4 * (self.disp_w as int) <= self.stride as int
        &&& self.frame0.pixels@.len() == (self.disp_h as int) * (self.stride as int)
        &&& self.frame1.pixels@.len() == (self.disp_h as int) * (self.stride as int)
    }

    /// Index of the frame not on screen.
    pub open spec fn back_spec(self) -> int {
        1 - self.front
    }

    /// Bytes of the frame currently on screen.
    pub open spec fn front_pixels(self) -> Seq<u8> {
        if self.front == 0 {
            self.frame0.pixels@
        } else {
            self.frame1.pixels@
        }
    }

    /// Bytes of the frame software may write.
    pub open spec fn back_pixels(self) -> Seq<u8> {
        if self.front == 0 {
            self.frame1.pixels@
        } else {
            self.frame0.pixels@
        }
    }
}

/// The surface after a successful flip request: only the pending flag is
/// raised; the front designation changes when the completion arrives.
pub open spec fn after_flip(s: Surface) -> Surface {
    Surface { pending: true, ..s }
}

/// A flip request is accepted exactly when none is outstanding.
pub open spec fn flip_allowed(s: Surface) -> bool {
    !s.pending
}

/// The surface after a flip completion is absorbed: front and back swap
/// and the pending flag clears, atomically.
pub open spec fn swapped(s: Surface) -> Surface {
    Surface { front: (1 - s.front as int) as usize, pending: false, ..s }
}

/// The surface after one completion notification: a swap if a flip was
/// pending, no change otherwise.
pub open spec fn after_completion(s: Surface) -> Surface {
    if s.pending {
        swapped(s)
    } else {
        s
    }
}

/// Some event in the first n is a flip completion.
pub open spec fn has_completion_upto(evs: Seq<DisplayEvent>, n: int) -> bool {
    exists|j: int| 0 <= j < n && evs[j] is FlipCompleted
}

/// Some event in the sequence is a flip completion.
pub open spec fn has_completion(evs: Seq<DisplayEvent>) -> bool {
    has_completion_upto(evs, evs.len() as int)
}

/// The back frame after a staging copy: each of the h rows takes its
/// first min(src_stride, frame_stride) bytes from the staging row at the
/// staging stride; row remainders and anything past the raster keep their
/// bytes.
pub open spec fn copied_back(dst: Seq<u8>, src: Seq<u8>, fs: int, ss: int, h: int) -> Seq<u8> {
    let m = if ss <= fs {
        ss
    } else {
        fs
    };
    Seq::new(
        dst.len(),
        |i: int|
            if i / fs < h && i % fs < m {
                src[(i / fs) * ss + i % fs]
            } else {
                dst[i]
            },
    )
}

/// Builds a vector of n zero bytes.
fn zero_vec(n: usize) -> (v: Vec<u8>)
    ensures
        v@.len() == n,
        forall|i: int| 0 <= i < n ==> v@[i] == 0u8,
{
    let mut v: Vec<u8> = Vec::new();
    let mut k: usize = 0;
    while k < n
        invariant
            k <= n,
            v@.len() == k,
            forall|i: int| 0 <= i < k ==> v@[i] == 0u8,
        decreases n - k,
    {
        v.push(0);
        k += 1;
    }
    v
}

/// Copies h rows of min(ss, fs) bytes each from a staging buffer with
/// stride ss into a frame buffer with stride fs.
#[verifier::loop_isolation(false)]
fn copy_rows(dst: &mut Vec<u8>, src: &Vec<u8>, fs: usize, ss: usize, h: usize)
    requires
        fs >= 1,
        old(dst)@.len() == (h as int) * (fs as int),
        (ss as int) * (h as int) <= src@.len(),
    ensures
        final(dst)@ == copied_back(old(dst)@, src@, fs as int, ss as int, h as int),
{
    let ghost fsi = fs as int;
    let ghost ssi = ss as int;
    let ghost hi = h as int;
    let m: usize = if ss <= fs {
        ss
    } else {
        fs
    };
    let ghost mi = m as int;
    let n: usize = dst.len();
    let sn: usize = src.len();
    proof {
        assert(old(dst)@.len() == n as int);
        assert(src@.len() == sn as int);
    }
    let mut y: usize = 0;
    while y < h
        invariant
            y <= h,
            dst@.len() == old(dst)@.len(),
            forall|i: int|
                0 <= i < old(dst)@.len()
                    ==> dst@[i] == (if i / fsi < y as int && i % fsi < mi {
                        src@[(i / fsi) * ssi + i % fsi]
                    } else {
                        old(dst)@[i]
                    }),
        decreases h - y,
    {
        proof {
            lemma_mul_inequality(y as int + 1, hi, fsi);
            assert((y as int + 1) * fsi == y as int * fsi + fsi) by (nonlinear_arith);
            lemma_mul_inequality(y as int + 1, hi, ssi);
            assert((y as int + 1) * ssi == y as int * ssi + ssi) by (nonlinear_arith);
            assert((ss as int) * (h as int) == (h as int) * (ss as int)) by (nonlinear_arith);
        }
        let mut k: usize = 0;
        while k < m
            invariant
                y < h,
                k <= m,
                dst@.len() == old(dst)@.len(),
                forall|i: int|
                    0 <= i < old(dst)@.len()
                        ==> dst@[i] == (if (i / fsi < y as int && i % fsi < mi) || (i / fsi
                            == y as int && i % fsi < k as int) {
                            src@[(i / fsi) * ssi + i % fsi]
                        } else {
                            old(dst)@[i]
                        }),
            decreases m - k,
        {
            let di: usize = y * fs + k;
            let si: usize = y * ss + k;
            let ghost pre = dst@;
            let b: u8 = src[si];
            dst[di] = b;
            proof {
                lemma_fundamental_div_mod_converse(di as int, fsi, y as int, k as int);
                assert forall|i: int|
                    0 <= i < old(dst)@.len()
                    implies dst@[i] == (if (i / fsi < y as int && i % fsi < mi) || (i / fsi
                        == y as int && i % fsi < k as int + 1) {
                        src@[(i / fsi) * ssi + i % fsi]
                    } else {
                        old(dst)@[i]
                    })
                by {
                    if i == di as int {
                        assert((di as int) / fsi == y as int);
                        assert((di as int) % fsi == k as int);
                        assert(((di as int) / fsi) * ssi == (y as int) * ssi) by (nonlinear_arith)
                            requires
                                (di as int) / fsi == y as int,
                        ;
                        assert(dst@[i] == b);
                        assert(si as int == (y as int) * ssi + k as int);
                    } else {
                        assert(dst@[i] == pre[i]);
                        lemma_fundamental_div_mod(i, fsi);
                        if i / fsi == y as int && i % fsi == k as int {
                            assert(fsi * (i / fsi) == (y as int) * fsi) by (nonlinear_arith)
                                requires
                                    i / fsi == y as int,
                            ;
                            assert(false);
                        }
                    }
                }
            }
            k += 1;
        }
        y += 1;
    }
    proof {
        assert(dst@ =~= copied_back(old(dst)@, src@, fsi, ssi, hi));
    }
}

impl Surface {
    /// Builds a surface with two zeroed frames, frame 0 on screen and no
    /// flip outstanding. The first frame is presented synchronously at
    /// construction and counts as settled: no completion event is owed
    /// before the first flip may be requested.
    pub fn new(disp_w: usize, disp_h: usize, stride: usize) -> (r: Surface)
        requires
            stride >= 1,
            4 * (disp_w as int) <= stride as int,
            (disp_h as int) * (stride as int) <= usize::MAX as int,
        ensures
            r.wf(),
            r.disp_w == disp_w,
            r.disp_h == disp_h,
            r.stride == stride,
            r.front == 0,
            !r.pending,
            forall|i: int| 0 <= i < r.frame0.pixels@.len() ==> r.frame0.pixels@[i] == 0u8,
            forall|i: int| 0 <= i < r.frame1.pixels@.len() ==> r.frame1.pixels@[i] == 0u8,
    {
        let n: usize = disp_h * stride;
        Surface {
            disp_w,
            disp_h,
            stride,
            frame0: Frame { pixels: zero_vec(n) },
            frame1: Frame { pixels: zero_vec(n) },
            front: 0,
            pending: false,
        }
    }

    /// Index of the frame not currently displayed.
    pub fn back(&self) -> (r: usize)
        requires
            self.front <= 1,
        ensures
            r as int == self.back_spec(),
            r <= 1,
            r != self.front,
    {
        1 - self.front
    }

    /// Row pitch of both hardware frames.
    pub fn row_stride(&self) -> (r: usize)
        ensures
            r == self.stride,
    {
        self.stride
    }

    /// Copies the staging buffer into the back frame: h rows of
    /// min(src_stride, stride) bytes each — a longer staging row is
    /// truncated, never wrapped. Fails with `BufferTooSmall`, changing
    /// nothing, exactly when the staging buffer holds fewer than
    /// src_stride x height bytes. The front frame and the swap state are
    /// never touched.
    pub fn write_to_back(&mut self, src: &Vec<u8>, src_stride: usize) -> (r: Result<
        (),
        SurfaceError,
    >)
        requires
            old(self).wf(),
        ensures
            final(self).wf(),
            r == Ok::<(), SurfaceError>(()) <==> (src_stride as int) * (old(self).disp_h as int)
                <= src@.len(),
            r is Err ==> r == Err::<(), SurfaceError>(SurfaceError::BufferTooSmall)
                && *final(self) == *old(self),
            r is Ok ==> final(self).back_pixels() == copied_back(
                old(self).back_pixels(),
                src@,
                old(self).stride as int,
                src_stride as int,
                old(self).disp_h as int,
            ),
            final(self).front_pixels() == old(self).front_pixels(),
            final(self).front == old(self).front,
            final(self).pending == old(self).pending,
            final(self).disp_w == old(self).disp_w,
            final(self).disp_h == old(self).disp_h,
            final(self).stride == old(self).stride,
    {
        let dh: usize = self.disp_h;
        proof {
            assert((src_stride as int) * (dh as int) <= u128::MAX as int) by (nonlinear_arith)
                requires
                    0 <= (src_stride as int) <= usize::MAX as int,
                    0 <= (dh as int) <= usize::MAX as int,
            ;
        }
        let need: u128 = (src_stride as u128) * (dh as u128);
        if (src.len() as u128) < need {
            return Err(SurfaceError::BufferTooSmall);
        }
        if self.front == 0 {
            copy_rows(&mut self.frame1.pixels, src, self.stride, src_stride, self.disp_h);
        } else {
            copy_rows(&mut self.frame0.pixels, src, self.stride, src_stride, self.disp_h);
        }
        Ok(())
    }

    /// Requests presentation of the back frame. Fails with
    /// `FlipAlreadyPending`, changing nothing, exactly when a flip is
    /// outstanding; otherwise only the pending flag is raised.
    pub fn flip(&mut self) -> (r: Result<(), SurfaceError>)
        requires
            old(self).wf(),
        ensures
            final(self).wf(),
            r == Ok::<(), SurfaceError>(()) <==> flip_allowed(*old(self)),
            old(self).pending ==> r == Err::<(), SurfaceError>(SurfaceError::FlipAlreadyPending)
                && *final(self) == *old(self),
            !old(self).pending ==> *final(self) == after_flip(*old(self)),
    {
        if self.pending {
            return Err(SurfaceError::FlipAlreadyPending);
        }
        self.pending = true;
        Ok(())
    }

    /// Drains a batch of display notifications. For a flip-completion
    /// notification while a flip is pending, the front and back frames
    /// swap and the pending flag clears; every other notification is
    /// ignored. Returns whether at least one completion was absorbed.
    pub fn absorb_completion_events(&mut self, events: &Vec<DisplayEvent>) -> (absorbed: bool)
        requires
            old(self).wf(),
        ensures
            final(self).wf(),
            absorbed == (old(self).pending && has_completion(events@)),
            absorbed ==> *final(self) == swapped(*old(self)),
            !absorbed ==> *final(self) == *old(self),
    {
        let mut absorbed = false;
        let mut i: usize = 0;
        let n = events.len();
        while i < n
            invariant
                i <= n,
                n == events@.len(),
                old(self).wf(),
                absorbed == (old(self).pending && has_completion_upto(events@, i as int)),
                absorbed ==> *self == swapped(*old(self)),
                !absorbed ==> *self == *old(self),
            decreases n - i,
        {
            let ev = events[i];
            if matches!(ev, DisplayEvent::FlipCompleted) && self.pending {
                self.front = 1 - self.front;
                self.pending = false;
                absorbed = true;
                proof {
                    assert(events@[i as int] is FlipCompleted);
                    assert(has_completion_upto(events@, i as int + 1));
                }
            }
            i += 1;
        }
        absorbed
    }
}

/// The swap exclusion law: with no flip outstanding a flip is accepted and
/// marks one pending; from then on every further flip is rejected — and a
/// rejected flip leaves the surface unchanged, so a second and third try
/// fail alike — until one completion event is absorbed, after which a flip
/// is accepted again and the other frame is on screen.
pub proof fn lemma_flip_exclusion(s: Surface)
    requires
        s.wf(),
        !s.pending,
    ensures
        flip_allowed(s),
        !flip_allowed(after_flip(s)),
        flip_allowed(after_completion(after_flip(s))),
        after_completion(after_flip(s)).front == 1 - s.front,
{
}

/// A full-width staging copy: when the staging stride equals the frame
/// stride, every byte of the back frame raster takes the staging byte at
/// the same index — an all-0xFF staging buffer reads back all 0xFF.
pub proof fn lemma_full_copy(dst: Seq<u8>, src: Seq<u8>, fs: int, h: int)
    requires
        fs >= 1,
        0 <= h,
        dst.len() == h * fs,
        src.len() >= h * fs,
    ensures
        forall|i: int| 0 <= i < dst.len() ==> copied_back(dst, src, fs, fs, h)[i] == src[i],
{
    assert forall|i: int| 0 <= i < dst.len() implies copied_back(dst, src, fs, fs, h)[i] == src[i]
    by {
        lemma_fundamental_div_mod(i, fs);
        lemma_div_is_ordered(i, h * fs - 1, fs);
        assert(h * fs - 1 == (h - 1) * fs + (fs - 1)) by (nonlinear_arith);
        lemma_fundamental_div_mod_converse(h * fs - 1, fs, h - 1, fs - 1);
        assert((i / fs) * fs + i % fs == i) by (nonlinear_arith)
            requires
                fs >= 1,
                i == fs * (i / fs) + i % fs,
        ;
    }
}

} // verus!
