//! Shared multi-channel ring buffer.
//!
//! One flat buffer of `total_frames * channels` samples (32-bit sample words,
//! interleaved by frame), addressed by absolute sample time modulo
//! `total_frames`. Writers copy a stereo pair into their two assigned
//! channels; readers copy whole frames out. A copy that crosses the end of
//! the buffer is split at the wrap boundary into two contiguous segments.

use vstd::arithmetic::div_mod::{
    lemma_fundamental_div_mod, lemma_fundamental_div_mod_converse, lemma_mod_bound,
    lemma_mod_sub_multiples_vanish, lemma_small_mod,
};
use vstd::prelude::*;

verus! {

/// The frame position in the ring that an absolute sample time lands on.
pub open spec fn wpos_spec(sample_time: u64, total_frames: int) -> int {
    sample_time as int % total_frames
}

/// Ring contents after one contiguous (non-wrapping) stereo segment copy:
/// frames `[dst, dst+count)` get `input` frames `[src, src+count)` on
/// channels `off` and `off+1`; every other sample is untouched.
pub open spec fn seg_write(
    ring: Seq<u32>,
    ch: int,
    dst: int,
    src: int,
    count: int,
    off: int,
    input: Seq<u32>,
) -> Seq<u32> {
    Seq::new(
        ring.len(),
        |j: int|
            {
                let f = j / ch;
                let c = j % ch;
                if (c == off || c == off + 1) && dst <= f < dst + count {
                    input[2 * (src + f - dst) + (c - off)]
                } else {
                    ring[j]
                }
            },
    )
}

/// Ring contents after writing `frames` stereo frames starting at ring
/// position `w` (wrapping modulo `tf`) on channels `off` and `off+1`:
/// the frame at position `(w+i) % tf` holds input frame `i`; every sample on
/// other channels or outside the written window is untouched.
pub open spec fn wrap_write(
    ring: Seq<u32>,
    tf: int,
    ch: int,
    w: int,
    frames: int,
    off: int,
    input: Seq<u32>,
) -> Seq<u32> {
    Seq::new(
        ring.len(),
        |j: int|
            {
                let f = j / ch;
                let c = j % ch;
                if (c == off || c == off + 1) && (f - w) % tf < frames {
                    input[2 * ((f - w) % tf) + (c - off)]
                } else {
                    ring[j]
                }
            },
    )
}

/// What a read of `frames` whole frames starting at ring position `r`
/// (wrapping modulo `tf`) returns: output frame `i` is the ring frame at
/// position `(r+i) % tf`, all channels.
pub open spec fn read_spec(ring: Seq<u32>, tf: int, ch: int, r: int, frames: int) -> Seq<u32> {
    Seq::new((frames * ch) as nat, |j: int| ring[((r + j / ch) % tf) * ch + j % ch])
}

/// A flat sample index decomposes into a frame below `tf` and a channel
/// below `ch`.
pub proof fn lemma_flat_decompose(j: int, tf: int, ch: int)
    requires
        0 < ch,
        0 < tf,
        0 <= j < tf * ch,
    ensures
        0 <= j % ch < ch,
        0 <= j / ch < tf,
        j == (j / ch) * ch + (j % ch),
{
    lemma_fundamental_div_mod(j, ch);
    lemma_mod_bound(j, ch);
    assert(ch * (j / ch) == (j / ch) * ch) by (nonlinear_arith);
    assert(j / ch < tf) by (nonlinear_arith)
        requires
            0 < ch,
            j == ch * (j / ch) + j % ch,
            0 <= j % ch < ch,
            j < tf * ch,
            0 <= j / ch,
    ;
    assert(j / ch >= 0) by (nonlinear_arith)
        requires
            0 < ch,
            0 <= j,
    ;
}

/// A (frame, channel) pair below `(tf, ch)` flattens to an in-range sample
/// index, and flattening inverts the decomposition.
pub proof fn lemma_flat_index(f: int, c: int, tf: int, ch: int)
    requires
        0 <= f < tf,
        0 <= c < ch,
    ensures
        0 <= f * ch + c < tf * ch,
        (f * ch + c) / ch == f,
        (f * ch + c) % ch == c,
{
    assert(0 <= f * ch + c < tf * ch) by (nonlinear_arith)
        requires
            0 <= f < tf,
            0 <= c < ch,
    ;
    assert(f * ch + c == ch * f + c) by (nonlinear_arith);
    lemma_fundamental_div_mod_converse(f * ch + c, ch, f, c);
}

/// Stepping `i` frames forward from ring position `w` lands on a position
/// whose distance back to `w` (modulo `tf`) is `i` again.
pub proof fn lemma_wrap_step(w: int, i: int, tf: int)
    requires
        0 <= w < tf,
        0 <= i < tf,
    ensures
        0 <= (w + i) % tf < tf,
        (w + i) % tf == if w + i < tf {
            w + i
        } else {
            w + i - tf
        },
        ((w + i) % tf - w) % tf == i,
{
    if w + i < tf {
        lemma_small_mod((w + i) as nat, tf as nat);
        if i >= w {
            lemma_small_mod((i) as nat, tf as nat);
        } else {
            lemma_small_mod((i) as nat, tf as nat);
        }
    } else {
        lemma_mod_sub_multiples_vanish(w + i, tf);
        lemma_small_mod((w + i - tf) as nat, tf as nat);
        lemma_mod_sub_multiples_vanish(i, tf);
        lemma_small_mod(i as nat, tf as nat);
        assert((w + i - tf - w) % tf == (i - tf) % tf);
    }
}

/// A ring position `f` is reached from position `w` by stepping forward
/// `(f - w) % tf` frames; that distance is the only step count below `tf`
/// that lands on `f`.
pub proof fn lemma_wrap_back(w: int, f: int, tf: int)
    requires
        0 <= w < tf,
        0 <= f < tf,
    ensures
        0 <= (f - w) % tf < tf,
        (f - w) % tf == if f >= w {
            f - w
        } else {
            f - w + tf
        },
        (w + (f - w) % tf) % tf == f,
{
    if f >= w {
        lemma_small_mod((f - w) as nat, tf as nat);
        lemma_small_mod(f as nat, tf as nat);
    } else {
        lemma_mod_sub_multiples_vanish(f - w + tf, tf);
        lemma_small_mod((f - w + tf) as nat, tf as nat);
        lemma_mod_sub_multiples_vanish(f + tf, tf);
        lemma_small_mod(f as nat, tf as nat);
        assert((w + (f - w + tf)) % tf == (f + tf) % tf);
    }
}

/// Multiplying a sum out, and multiplying both sides of a bound, for flat
/// sample-index arithmetic.
pub proof fn lemma_mul_distrib(a: int, b: int, c: int)
    ensures
        (a + b) * c == a * c + b * c,
{
    assert((a + b) * c == a * c + b * c) by (nonlinear_arith);
}

/// Frame counts scale monotonically to sample counts.
pub proof fn lemma_mul_le(a: int, b: int, c: int)
    requires
        a <= b,
        0 <= c,
    ensures
        a * c <= b * c,
{
    assert(a * c <= b * c) by (nonlinear_arith)
        requires
            a <= b,
            0 <= c,
    ;
}

/// An interleaved buffer with the samples of channels `off` and `off+1`
/// zeroed in every frame, all other samples untouched.
pub open spec fn zero_pair_spec(buf: Seq<u32>, ch: int, off: int) -> Seq<u32> {
    Seq::new(
        buf.len(),
        |j: int| if j % ch == off || j % ch == off + 1 {
            0u32
        } else {
            buf[j]
        },
    )
}

/// Zero channels `offset` and `offset+1` of every frame of an interleaved
/// buffer of `frames` frames.
pub fn zero_pair_channels(out: &mut Vec<u32>, frames: usize, channels: usize, offset: usize)
    requires
        offset + 1 < channels,
        1 <= frames,
        old(out)@.len() == frames * channels,
    ensures
        final(out)@ == zero_pair_spec(old(out)@, channels as int, offset as int),
{
    let ghost buf0 = out@;
    let ghost ch = channels as int;
    let ghost off = offset as int;
    let mut i: usize = 0;
    while i < frames
        invariant
            out@.len() == buf0.len(),
            buf0.len() == frames * ch,
            ch == channels as int,
            off == offset as int,
            i <= frames,
            offset + 1 < channels,
            1 <= frames,
            forall|j: int|
                0 <= j < buf0.len() && j / ch < i ==> out@[j] == zero_pair_spec(buf0, ch, off)[j],
            forall|j: int| 0 <= j < buf0.len() && j / ch >= i ==> out@[j] == buf0[j],
        decreases frames - i,
    {
        let ghost pre = out@;
        let n = out.len();
        proof {
            lemma_flat_index(i as int, off, frames as int, ch);
            lemma_flat_index(i as int, off + 1, frames as int, ch);
            assert(i as int * ch + off + 1 < n as int);
        }
        let base = i * channels + offset;
        out[base] = 0;
        out[base + 1] = 0;
        proof {
            assert forall|j: int| 0 <= j < buf0.len() && j / ch < i + 1 implies out@[j]
                == zero_pair_spec(buf0, ch, off)[j] by {
                lemma_flat_decompose(j, frames as int, ch);
                if j / ch == i && (j % ch == off || j % ch == off + 1) {
                    assert(j == i * ch + j % ch);
                } else {
                    assert(j != i * ch + off && j != i * ch + off + 1);
                    assert(out@[j] == pre[j]);
                }
            }
            assert forall|j: int| 0 <= j < buf0.len() && j / ch >= i + 1 implies out@[j]
                == buf0[j] by {
                lemma_flat_decompose(j, frames as int, ch);
                assert(j != i * ch + off && j != i * ch + off + 1);
                assert(out@[j] == pre[j]);
            }
        }
        i = i + 1;
    }
    proof {
        assert forall|j: int| 0 <= j < buf0.len() implies out@[j] == zero_pair_spec(
            buf0,
            ch,
            off,
        )[j] by {
            lemma_flat_decompose(j, frames as int, ch);
        }
        assert(out@ =~= zero_pair_spec(buf0, ch, off));
    }
}

/// The shared sample store: `total_frames * channels` 32-bit sample words.
/// Fixed at construction, never resized.
pub struct RingBuffer {
    pub samples: Vec<u32>,
    pub total_frames: usize,
    pub channels: usize,
}

impl RingBuffer {
    /// The buffer always holds exactly one sample word per (frame, channel)
    /// pair; the bus has at least the two reserved system-mix channels.
    pub open spec fn wf(&self) -> bool {
        &&& self.total_frames >= 1
        &&& self.channels >= 2
        &&& self.samples@.len() == self.total_frames * self.channels
    }

    /// A fresh ring buffer holding silence (sample word 0).
    pub fn new(total_frames: usize, channels: usize) -> (r: RingBuffer)
        requires
            total_frames >= 1,
            channels >= 2,
            total_frames * channels <= usize::MAX,
    ensures
            r.wf(),
            r.total_frames == total_frames,
            r.channels == channels,
            forall|j: int| 0 <= j < r.samples@.len() ==> r.samples@[j] == 0u32,
    {
        let len = total_frames * channels;
        RingBuffer { samples: vec![0u32; len], total_frames, channels }
    }

    /// Copy one contiguous run of stereo frames into channels `offset` and
    /// `offset+1`: ring frames `[dst_frame, dst_frame+count)` get input
    /// frames `[src_frame, src_frame+count)`. No wraparound here; this is
    /// one segment of a possibly split copy.
    fn write_segment(
        &mut self,
        dst_frame: usize,
        src_frame: usize,
        count: usize,
        offset: usize,
        input: &[u32],
    )
        requires
            old(self).wf(),
            offset + 1 < old(self).channels,
            dst_frame + count <= old(self).total_frames,
            2 * (src_frame + count) <= input@.len(),
        ensures
            final(self).wf(),
            final(self).total_frames == old(self).total_frames,
            final(self).channels == old(self).channels,
            final(self).samples@ == seg_write(
                old(self).samples@,
                old(self).channels as int,
                dst_frame as int,
                src_frame as int,
                count as int,
                offset as int,
                input@,
            ),
    {
        let ghost ring0 = self.samples@;
        let ghost tf = self.total_frames as int;
        let ghost ch = self.channels as int;
        let mut i: usize = 0;
        while i < count
            invariant
                self.wf(),
                self.total_frames == old(self).total_frames,
                self.channels == old(self).channels,
                tf == self.total_frames as int,
                ch == self.channels as int,
                ring0.len() == tf * ch,
                i <= count,
                offset + 1 < ch,
                dst_frame + count <= tf,
                2 * (src_frame + count) <= input@.len(),
                self.samples@ == seg_write(
                    ring0,
                    ch,
                    dst_frame as int,
                    src_frame as int,
                    i as int,
                    offset as int,
                    input@,
                ),
            decreases count - i,
        {
            let ghost pre = self.samples@;
            let f = dst_frame + i;
            let n = self.samples.len();
            let m = input.len();
            proof {
                assert(2 * (src_frame as int + i) + 1 < m as int);
                lemma_flat_index(f as int, offset as int, tf, ch);
                lemma_flat_index(f as int, offset as int + 1, tf, ch);
                assert(f as int * ch + offset as int + 1 < n as int);
            }
            let base = f * self.channels + offset;
            self.samples[base] = input[2 * (src_frame + i)];
            self.samples[base + 1] = input[2 * (src_frame + i) + 1];
            proof {
                let fi = f as int;
                let off = offset as int;
                assert forall|j: int| 0 <= j < ring0.len() implies self.samples@[j] == seg_write(
                    ring0,
                    ch,
                    dst_frame as int,
                    src_frame as int,
                    i as int + 1,
                    off,
                    input@,
                )[j] by {
                    lemma_flat_decompose(j, tf, ch);
                    let jf = j / ch;
                    let jc = j % ch;
                    if jf == fi && (jc == off || jc == off + 1) {
                        assert(j == fi * ch + jc);
                    } else {
                        assert(j != fi * ch + off && j != fi * ch + off + 1);
                        assert(self.samples@[j] == pre[j]);
                    }
                }
                assert(self.samples@ =~= seg_write(
                    ring0,
                    ch,
                    dst_frame as int,
                    src_frame as int,
                    i as int + 1,
                    off,
                    input@,
                ));
            }
            i = i + 1;
        }
    }

    /// Write `frames` stereo frames into channels `offset` and `offset+1`,
    /// starting at the ring position `sample_time` lands on. A run that
    /// crosses the end of the buffer is split into two contiguous segments
    /// (`[w, total_frames)`, then `[0, remainder)`).
    pub fn write_pair(&mut self, sample_time: u64, frames: usize, offset: usize, input: &[u32])
        requires
            old(self).wf(),
            offset + 1 < old(self).channels,
            frames <= old(self).total_frames,
            input@.len() == 2 * frames,
        ensures
            final(self).wf(),
            final(self).total_frames == old(self).total_frames,
            final(self).channels == old(self).channels,
            final(self).samples@ == wrap_write(
                old(self).samples@,
                old(self).total_frames as int,
                old(self).channels as int,
                wpos_spec(sample_time, old(self).total_frames as int),
                frames as int,
                offset as int,
                input@,
            ),
    {
        let ghost ring0 = self.samples@;
        let ghost tf = self.total_frames as int;
        let ghost ch = self.channels as int;
        let ghost off = offset as int;
        let w = self.wrap_pos(sample_time);
        let frames_until_wrap = self.total_frames - w;
        if frames <= frames_until_wrap {
            self.write_segment(w, 0, frames, offset, input);
            proof {
                assert forall|j: int| 0 <= j < ring0.len() implies self.samples@[j] == wrap_write(
                    ring0,
                    tf,
                    ch,
                    w as int,
                    frames as int,
                    off,
                    input@,
                )[j] by {
                    lemma_flat_decompose(j, tf, ch);
                    lemma_wrap_back(w as int, j / ch, tf);
                }
                assert(self.samples@ =~= wrap_write(
                    ring0,
                    tf,
                    ch,
                    w as int,
                    frames as int,
                    off,
                    input@,
                ));
            }
        } else {
            let remainder = frames - frames_until_wrap;
            self.write_segment(w, 0, frames_until_wrap, offset, input);
            let ghost mid = self.samples@;
            self.write_segment(0, frames_until_wrap, remainder, offset, input);
            proof {
                let futw = frames_until_wrap as int;
                assert forall|j: int| 0 <= j < ring0.len() implies self.samples@[j] == wrap_write(
                    ring0,
                    tf,
                    ch,
                    w as int,
                    frames as int,
                    off,
                    input@,
                )[j] by {
                    lemma_flat_decompose(j, tf, ch);
                    lemma_wrap_back(w as int, j / ch, tf);
                    let f = j / ch;
                    let c = j % ch;
                    if c == off || c == off + 1 {
                        if f < remainder {
                            assert(self.samples@[j] == input@[2 * (futw + f) + (c - off)]);
                        } else if f < w {
                            assert(self.samples@[j] == mid[j]);
                            assert(mid[j] == ring0[j]);
                        } else {
                            assert(self.samples@[j] == mid[j]);
                            assert(mid[j] == input@[2 * (f - w) + (c - off)]);
                        }
                    }
                }
                assert(self.samples@ =~= wrap_write(
                    ring0,
                    tf,
                    ch,
                    w as int,
                    frames as int,
                    off,
                    input@,
                ));
            }
        }
    }

    /// Copy one contiguous run of whole frames out of the ring: output
    /// frames `[dst_frame, dst_frame+count)` get ring frames
    /// `[src_frame, src_frame+count)`, all channels. One segment of a
    /// possibly split read.
    fn read_segment(&self, out: &mut Vec<u32>, dst_frame: usize, src_frame: usize, count: usize)
        requires
            self.wf(),
            src_frame + count <= self.total_frames,
            (dst_frame + count) * self.channels <= old(out)@.len(),
        ensures
            final(out)@.len() == old(out)@.len(),
            forall|j: int|
                dst_frame as int * self.channels as int <= j < (dst_frame + count) as int
                    * self.channels as int ==> final(out)@[j] == self.samples@[j - dst_frame as int
                    * self.channels as int + src_frame as int * self.channels as int],
            forall|j: int|
                0 <= j < old(out)@.len() && !(dst_frame as int * self.channels as int <= j < (
                dst_frame + count) as int * self.channels as int) ==> final(out)@[j] == old(
                    out,
                )@[j],
    {
        let ghost ch = self.channels as int;
        let ghost tf = self.total_frames as int;
        let ghost out0 = out@;
        let out_len = out.len();
        let samples_len = self.samples.len();
        proof {
            lemma_mul_distrib(dst_frame as int, count as int, ch);
            lemma_mul_distrib(src_frame as int, count as int, ch);
            lemma_mul_le(src_frame as int + count as int, tf, ch);
            lemma_mul_le(0, count as int, ch);
            lemma_mul_le(0, dst_frame as int, ch);
            lemma_mul_le(0, src_frame as int, ch);
        }
        let dst_base = dst_frame * self.channels;
        let src_base = src_frame * self.channels;
        let total = count * self.channels;
        let mut s: usize = 0;
        while s < total
            invariant
                self.wf(),
                out@.len() == out0.len(),
                s <= total,
                out_len == out0.len(),
                samples_len == self.samples@.len(),
                dst_base + total <= out_len,
                src_base + total <= samples_len,
                dst_base == dst_frame as int * self.channels as int,
                src_base == src_frame as int * self.channels as int,
                total == count as int * self.channels as int,
                forall|j: int|
                    dst_base as int <= j < dst_base as int + s ==> out@[j] == self.samples@[j
                        - dst_base as int + src_base as int],
                forall|j: int|
                    0 <= j < out0.len() && !(dst_base as int <= j < dst_base as int + s)
                        ==> out@[j] == out0[j],
            decreases total - s,
        {
            let v = self.samples[src_base + s];
            out[dst_base + s] = v;
            s = s + 1;
        }
    }

    /// Read `frames` whole frames (all channels) starting at the ring
    /// position `sample_time` lands on, splitting at the wrap boundary when
    /// the run crosses the end of the buffer.
    pub fn read_frames(&self, sample_time: u64, frames: usize) -> (out: Vec<u32>)
        requires
            self.wf(),
            frames <= self.total_frames,
        ensures
            out@.len() == frames * self.channels,
            out@ == read_spec(
                self.samples@,
                self.total_frames as int,
                self.channels as int,
                wpos_spec(sample_time, self.total_frames as int),
                frames as int,
            ),
    {
        let ghost tf = self.total_frames as int;
        let ghost ch = self.channels as int;
        let samples_len = self.samples.len();
        proof {
            lemma_mul_le(frames as int, tf, ch);
        }
        let r = self.wrap_pos(sample_time);
        let ghost w = r as int;
        let total = frames * self.channels;
        let mut out: Vec<u32> = vec![0u32; total];
        let frames_until_wrap = self.total_frames - r;
        let ghost futw = frames_until_wrap as int;
        if frames <= frames_until_wrap {
            self.read_segment(&mut out, 0, r, frames);
            proof {
                assert forall|j: int| 0 <= j < frames as int * ch implies out@[j] == read_spec(
                    self.samples@,
                    tf,
                    ch,
                    w,
                    frames as int,
                )[j] by {
                    lemma_flat_decompose(j, frames as int, ch);
                    let f = j / ch;
                    let c = j % ch;
                    lemma_wrap_step(w, f, tf);
                    lemma_mul_distrib(w, f, ch);
                    assert(out@[j] == self.samples@[j + w * ch]);
                    assert((w + f) * ch + c == j + w * ch);
                }
            }
        } else {
            let remainder = frames - frames_until_wrap;
            proof {
                lemma_mul_le(frames_until_wrap as int, frames as int, ch);
                lemma_mul_distrib(futw, remainder as int, ch);
            }
            self.read_segment(&mut out, 0, r, frames_until_wrap);
            self.read_segment(&mut out, frames_until_wrap, 0, remainder);
            proof {
                assert forall|j: int| 0 <= j < frames as int * ch implies out@[j] == read_spec(
                    self.samples@,
                    tf,
                    ch,
                    w,
                    frames as int,
                )[j] by {
                    lemma_flat_decompose(j, frames as int, ch);
                    let f = j / ch;
                    let c = j % ch;
                    lemma_wrap_step(w, f, tf);
                    lemma_mul_distrib(w, f, ch);
                    if f < futw {
                        lemma_flat_index(f, c, futw, ch);
                        assert(out@[j] == self.samples@[j + w * ch]);
                        assert((w + f) * ch + c == j + w * ch);
                    } else {
                        lemma_mul_le(futw, f, ch);
                        assert(j >= futw * ch);
                        assert(out@[j] == self.samples@[j - futw * ch]);
                        lemma_mul_distrib(w + f - tf, futw, ch);
                        assert((w + f - tf) * ch + c == j - futw * ch);
                    }
                }
            }
        }
        proof {
            assert(out@ =~= read_spec(self.samples@, tf, ch, w, frames as int));
        }
        out
    }

    /// The ring frame position an absolute sample time lands on.
    pub fn wrap_pos(&self, sample_time: u64) -> (w: usize)
        requires
            self.wf(),
        ensures
            w == wpos_spec(sample_time, self.total_frames as int),
            w < self.total_frames,
    {
        (sample_time % (self.total_frames as u64)) as usize
    }
}

} // verus!
