//! The channel router: per-callback I/O into the shared ring buffer, plus
//! the out-of-band routing control path.
//!
//! Three operation kinds run once per callback per (operation, stream,
//! client): a playback client writes its stereo frames into its assigned
//! channel pair (`ClientWrite`), the system mix writes the two reserved bus
//! channels 0-1 (`SystemMixWrite`), and a capture client reads the whole bus
//! back with stale channel pairs zeroed (`CaptureRead`). Any condition that
//! would otherwise require an error channel is converted to a silent no-op,
//! favoring silence over corruption.

use crate::registry::{
    count_matching, join_spec, leave_spec, set_offset_spec, slot_index_spec, snapshot_spec,
    with_write_time, ClientListEntry, ClientSlot, Registry, RoutingTarget, CAPACITY,
};
use crate::ring::{wpos_spec, wrap_write, RingBuffer};
use vstd::prelude::*;

verus! {

/// The stream object the capture clients read from.
pub const INPUT_STREAM_ID: u32 = 3;

/// The stream object the playback clients write to.
pub const OUTPUT_STREAM_ID: u32 = 4;

/// The pid value that addresses every active client at once.
pub const BROADCAST_PID: i32 = -1;

/// Fixed device-side configuration.
#[derive(Clone, Copy, Debug, PartialEq, Eq, Structural)]
pub struct PrismConfig {
    pub buffer_frame_size: u32,
    pub safety_offset: u32,
    pub ring_buffer_frame_size: u32,
    pub zero_timestamp_period: u32,
    pub num_channels: u32,
}

/// The stock configuration: a 64-channel bus.
pub open spec fn default_config() -> PrismConfig {
    PrismConfig {
        buffer_frame_size: 1024,
        safety_offset: 256,
        ring_buffer_frame_size: 1024,
        zero_timestamp_period: 1024,
        num_channels: 64,
    }
}

impl Default for PrismConfig {
    /// The stock configuration.
    fn default() -> (r: PrismConfig)
        ensures
            r == default_config(),
    {
        PrismConfig {
            buffer_frame_size: 1024,
            safety_offset: 256,
            ring_buffer_frame_size: 1024,
            zero_timestamp_period: 1024,
            num_channels: 64,
        }
    }
}

impl PrismConfig {
    /// Load the configuration; no persisted settings exist, so this is the
    /// stock configuration.
    pub fn load() -> (r: PrismConfig)
        ensures
            r == default_config(),
    {
        PrismConfig::default()
    }
}

/// An externally supplied routing change: a (pid, channel offset) pair, with
/// pid `BROADCAST_PID` meaning "apply the offset to every active slot".
#[derive(Clone, Copy, Debug, PartialEq, Eq, Structural)]
pub struct RoutingRequest {
    pub pid: i32,
    pub channel_offset: u32,
}

/// Why a routing change was refused.
#[derive(Clone, Copy, Debug, PartialEq, Eq, Structural)]
pub enum RoutingError {
    /// The proposed offset is odd or would overrun the bus.
    InvalidOffset,
    /// A pid-targeted change matched no registry slot.
    NoSuchClient,
}

/// The operation kinds of one I/O callback.
#[derive(Clone, Copy, Debug, PartialEq, Eq, Structural)]
pub enum IoOperation {
    ClientWrite,
    SystemMixWrite,
    CaptureRead,
}

/// An offset the control path accepts: even, and its stereo pair within the
/// bus. Offset 0 is accepted and parks the client on the reserved mix
/// channels, i.e. unrouted.
pub open spec fn valid_request_offset(off: int, ch: int) -> bool {
    off % 2 == 0 && 0 <= off && off + 1 < ch
}

/// An offset the I/O engine will write to and staleness-zero: even, not
/// aliased onto the reserved mix channels 0-1, and its stereo pair within
/// the bus. Anything else is treated as unrouted.
pub open spec fn routable_offset(off: int, ch: int) -> bool {
    off % 2 == 0 && 2 <= off && off + 1 < ch
}

/// Whether a client write proceeds: the direct-indexed slot must still be
/// held by this client id, its offset must be routable, and the frame count
/// must fit the ring. Anything else is a silent drop.
pub open spec fn write_accepted(
    slots: Seq<ClientSlot>,
    client_id: u32,
    frames: int,
    tf: int,
    ch: int,
) -> bool {
    let s = slots[slot_index_spec(client_id)];
    &&& s.client_id == client_id
    &&& routable_offset(s.channel_offset as int, ch)
    &&& frames <= tf
}

/// Whether the slot makes channel `c` stale for a read ending at `t_end`:
/// the slot is occupied, routably assigned to a pair containing `c`, and its
/// last confirmed write does not cover the read window.
pub open spec fn slot_claims_stale(s: ClientSlot, ch: int, c: int, t_end: int) -> bool {
    &&& s.client_id != 0
    &&& routable_offset(s.channel_offset as int, ch)
    &&& (c == s.channel_offset as int || c == s.channel_offset as int + 1)
    &&& t_end > s.last_write_time as int
}

/// Whether any registered slot makes channel `c` stale for a read ending at
/// `t_end`.
pub open spec fn stale_channel(slots: Seq<ClientSlot>, ch: int, c: int, t_end: int) -> bool {
    exists|k: int|
        0 <= k < slots.len() && #[trigger] slot_claims_stale(slots[k], ch, c, t_end)
}

/// What a capture read ending at `t_end` returns: the ring frames of the
/// read window, all channels, except that every channel of a stale pair is
/// zeroed for the whole window.
pub open spec fn capture_spec(
    ring: Seq<u32>,
    tf: int,
    ch: int,
    slots: Seq<ClientSlot>,
    r: int,
    frames: int,
    t_end: int,
) -> Seq<u32> {
    Seq::new(
        (frames * ch) as nat,
        |j: int|
            if stale_channel(slots, ch, j % ch, t_end) {
                0u32
            } else {
                ring[((r + j / ch) % tf) * ch + j % ch]
            },
    )
}

/// The router: the client registry and the shared ring buffer, exercised by
/// the per-callback I/O path and the out-of-band control path.
pub struct Router {
    pub registry: Registry,
    pub ring: RingBuffer,
}

/// State relation of one `ClientWrite`. On an accepted write the client's
/// stereo input lands in its assigned channel pair at the cycle's ring
/// position and the slot's write timestamp advances to the end of the
/// window; on a dropped write nothing changes.
pub open spec fn client_write_post(
    pre: Router,
    post: Router,
    client_id: u32,
    sample_time: u64,
    frames: int,
    input: Seq<u32>,
) -> bool {
    let tf = pre.spec_total_frames();
    let ch = pre.spec_channels();
    let idx = slot_index_spec(client_id);
    let s = pre.slots()[idx];
    &&& post.spec_total_frames() == tf
    &&& post.spec_channels() == ch
    &&& if write_accepted(pre.slots(), client_id, frames, tf, ch) {
        &&& post.samples() == wrap_write(
            pre.samples(),
            tf,
            ch,
            wpos_spec(sample_time, tf),
            frames,
            s.channel_offset as int,
            input,
        )
        &&& post.slots() == pre.slots().update(
            idx,
            with_write_time(s, (sample_time + frames) as u64),
        )
    } else {
        &&& post.samples() == pre.samples()
        &&& post.slots() == pre.slots()
    }
}

/// State relation of one `SystemMixWrite`: the same wraparound copy, always
/// into the reserved mix channels 0-1, no client lookup; a frame count that
/// cannot fit the ring is dropped.
pub open spec fn mix_write_post(
    pre: Router,
    post: Router,
    sample_time: u64,
    frames: int,
    input: Seq<u32>,
) -> bool {
    let tf = pre.spec_total_frames();
    let ch = pre.spec_channels();
    &&& post.spec_total_frames() == tf
    &&& post.spec_channels() == ch
    &&& post.slots() == pre.slots()
    &&& if frames <= tf {
        post.samples() == wrap_write(
            pre.samples(),
            tf,
            ch,
            wpos_spec(sample_time, tf),
            frames,
            0,
            input,
        )
    } else {
        post.samples() == pre.samples()
    }
}

/// What one `CaptureRead` returns: the full bus over the read window with
/// stale pairs zeroed; a window that cannot fit the ring yields silence.
pub open spec fn capture_post(pre: Router, out: Seq<u32>, sample_time: u64, frames: int) -> bool {
    let tf = pre.spec_total_frames();
    let ch = pre.spec_channels();
    &&& out.len() == frames * ch
    &&& if frames <= tf {
        out == capture_spec(
            pre.samples(),
            tf,
            ch,
            pre.slots(),
            wpos_spec(sample_time, tf),
            frames,
            sample_time as int + frames,
        )
    } else {
        forall|j: int| 0 <= j < out.len() ==> out[j] == 0u32
    }
}

/// State relation and result of one `apply_routing`. An odd or overrunning
/// offset is refused without touching any slot; a broadcast updates every
/// active slot; a pid-targeted change updates the matching slots and is
/// refused when there are none.
pub open spec fn routing_post(
    pre: Router,
    post: Router,
    request: RoutingRequest,
    res: Result<usize, RoutingError>,
) -> bool {
    let ch = pre.spec_channels();
    let off = request.channel_offset as int;
    &&& post.spec_total_frames() == pre.spec_total_frames()
    &&& post.spec_channels() == ch
    &&& post.samples() == pre.samples()
    &&& if !valid_request_offset(off, ch) {
        &&& res == Err::<usize, RoutingError>(RoutingError::InvalidOffset)
        &&& post.slots() == pre.slots()
    } else if request.pid == BROADCAST_PID {
        &&& post.slots() == set_offset_spec(
            pre.slots(),
            RoutingTarget::All,
            request.channel_offset as usize,
        )
        &&& res matches Ok(n) && n == count_matching(pre.slots(), RoutingTarget::All)
    } else {
        &&& post.slots() == set_offset_spec(
            pre.slots(),
            RoutingTarget::Pid(request.pid),
            request.channel_offset as usize,
        )
        &&& if count_matching(pre.slots(), RoutingTarget::Pid(request.pid)) == 0 {
            res == Err::<usize, RoutingError>(RoutingError::NoSuchClient)
        } else {
            res matches Ok(n) && n == count_matching(pre.slots(), RoutingTarget::Pid(request.pid))
        }
    }
}

impl Router {
    /// Both halves well-formed.
    pub open spec fn wf(&self) -> bool {
        &&& self.registry.wf()
        &&& self.ring.wf()
    }

    /// The registry contents.
    pub open spec fn slots(&self) -> Seq<ClientSlot> {
        self.registry.slots@
    }

    /// The ring buffer contents.
    pub open spec fn samples(&self) -> Seq<u32> {
        self.ring.samples@
    }

    /// The fixed ring capacity in frames.
    pub open spec fn spec_total_frames(&self) -> int {
        self.ring.total_frames as int
    }

    /// The fixed bus channel count.
    pub open spec fn spec_channels(&self) -> int {
        self.ring.channels as int
    }

    /// A fresh router: every slot unoccupied, the whole bus silent.
    pub fn new(total_frames: usize, channels: usize) -> (r: Router)
        requires
            total_frames >= 1,
            channels >= 2,
            total_frames * channels <= usize::MAX,
        ensures
            r.wf(),
            r.spec_total_frames() == total_frames,
            r.spec_channels() == channels,
            forall|k: int|
                0 <= k < CAPACITY ==> r.slots()[k] == crate::registry::empty_slot(),
            r.slots().len() == CAPACITY,
            forall|j: int| 0 <= j < r.samples().len() ==> r.samples()[j] == 0u32,
    {
        Router { registry: Registry::new(), ring: RingBuffer::new(total_frames, channels) }
    }

    /// The fixed ring capacity in frames.
    pub fn total_frames(&self) -> (n: usize)
        ensures
            n == self.spec_total_frames(),
    {
        self.ring.total_frames
    }

    /// The fixed bus channel count.
    pub fn channels(&self) -> (n: usize)
        ensures
            n == self.spec_channels(),
    {
        self.ring.channels
    }

    /// A client joins; see [`Registry::join`]. The ring is untouched.
    pub fn join(&mut self, client_id: u32, pid: i32)
        requires
            old(self).wf(),
        ensures
            final(self).wf(),
            final(self).slots() == join_spec(old(self).slots(), client_id, pid),
            final(self).samples() == old(self).samples(),
            final(self).spec_total_frames() == old(self).spec_total_frames(),
            final(self).spec_channels() == old(self).spec_channels(),
    {
        self.registry.join(client_id, pid);
    }

    /// A client leaves; see [`Registry::leave`]. The ring is untouched.
    pub fn leave(&mut self, client_id: u32, pid: i32)
        requires
            old(self).wf(),
        ensures
            final(self).wf(),
            final(self).slots() == leave_spec(old(self).slots(), client_id),
            final(self).samples() == old(self).samples(),
            final(self).spec_total_frames() == old(self).spec_total_frames(),
            final(self).spec_channels() == old(self).spec_channels(),
    {
        self.registry.leave(client_id, pid);
    }

    /// Export the client directory; see [`Registry::snapshot`].
    pub fn snapshot(&self) -> (r: Vec<ClientListEntry>)
        requires
            self.wf(),
        ensures
            r@ == snapshot_spec(self.slots()),
            forall|i: int| 0 <= i < r@.len() ==> #[trigger] r@[i].client_id != 0,
    {
        self.registry.snapshot()
    }

    /// The routing control path: validate the offset, then store it into the
    /// addressed slots. Never called from the audio callback threads, but
    /// concurrent with them; the store itself is a single registry pass.
    pub fn apply_routing(&mut self, request: RoutingRequest) -> (res: Result<usize, RoutingError>)
        requires
            old(self).wf(),
        ensures
            final(self).wf(),
            routing_post(*old(self), *final(self), request, res),
    {
        if request.channel_offset % 2 != 0 {
            return Err(RoutingError::InvalidOffset);
        }
        let off = request.channel_offset as usize;
        if off + 1 >= self.ring.channels {
            return Err(RoutingError::InvalidOffset);
        }
        if request.pid == BROADCAST_PID {
            let n = self.registry.set_offset(RoutingTarget::All, off);
            return Ok(n);
        }
        let n = self.registry.set_offset(RoutingTarget::Pid(request.pid), off);
        if n == 0 {
            return Err(RoutingError::NoSuchClient);
        }
        Ok(n)
    }

    /// A playback client delivers `frames` stereo frames for the cycle at
    /// `sample_time`. If the client has been evicted, is unrouted, or the
    /// window cannot fit the ring, the write is silently dropped; otherwise
    /// the frames land in the client's channel pair and the slot's write
    /// timestamp advances to `sample_time + frames`.
    pub fn client_write(&mut self, client_id: u32, sample_time: u64, frames: usize, input: &[u32])
        requires
            old(self).wf(),
            input@.len() == 2 * frames,
            sample_time + frames <= u64::MAX,
        ensures
            final(self).wf(),
            client_write_post(
                *old(self),
                *final(self),
                client_id,
                sample_time,
                frames as int,
                input@,
            ),
    {
        let idx = Registry::slot_index(client_id);
        let slot = self.registry.slots[idx];
        if slot.client_id != client_id {
            return ;
        }
        let off = slot.channel_offset;
        if off % 2 != 0 || off < 2 || off > self.ring.channels - 2 {
            return ;
        }
        if frames > self.ring.total_frames {
            return ;
        }
        self.ring.write_pair(sample_time, frames, off, input);
        let stamp = sample_time + (frames as u64);
        self.registry.slots[idx] = ClientSlot {
            client_id: slot.client_id,
            channel_offset: slot.channel_offset,
            pid: slot.pid,
            last_write_time: stamp,
        };
    }

    /// A capture client reads the full bus over the window
    /// `[sample_time, sample_time + frames)`: the whole interleaved frame
    /// range is copied out, then, for every occupied slot with a routable
    /// offset whose last confirmed write does not cover the window, the
    /// slot's two channels are zeroed, so stale or uninitialized audio never
    /// loops back. A window that cannot fit the ring yields silence.
    pub fn capture_read(&self, sample_time: u64, frames: usize) -> (out: Vec<u32>)
        requires
            self.wf(),
            sample_time + frames <= u64::MAX,
            frames * self.spec_channels() <= usize::MAX,
        ensures
            capture_post(*self, out@, sample_time, frames as int),
    {
        let ghost tf = self.spec_total_frames();
        let ghost ch = self.spec_channels();
        if frames > self.ring.total_frames {
            let total = frames * self.ring.channels;
            let out: Vec<u32> = vec![0u32; total];
            return out;
        }
        let mut out = self.ring.read_frames(sample_time, frames);
        let ghost w = wpos_spec(sample_time, tf);
        let t_end = sample_time + (frames as u64);
        let ghost te = t_end as int;
        proof {
            assert(out@ =~= capture_spec(
                self.samples(),
                tf,
                ch,
                self.slots().take(0),
                w,
                frames as int,
                te,
            ));
        }
        if frames == 0 {
            proof {
                assert(out@ =~= capture_spec(
                    self.samples(),
                    tf,
                    ch,
                    self.slots(),
                    w,
                    frames as int,
                    te,
                ));
            }
            return out;
        }
        let mut k: usize = 0;
        while k < CAPACITY
            invariant
                self.wf(),
                1 <= frames <= tf,
                tf == self.spec_total_frames(),
                ch == self.spec_channels(),
                w == wpos_spec(sample_time, tf),
                te == sample_time as int + frames as int,
                te == t_end as int,
                k <= CAPACITY,
                out@.len() == frames as int * ch,
                out@ == capture_spec(
                    self.samples(),
                    tf,
                    ch,
                    self.slots().take(k as int),
                    w,
                    frames as int,
                    te,
                ),
            decreases CAPACITY - k,
        {
            let ghost pre = out@;
            let slot = self.registry.slots[k];
            let off = slot.channel_offset;
            let routable = slot.client_id != 0 && off % 2 == 0 && off >= 2 && off
                <= self.ring.channels - 2;
            if routable && t_end > slot.last_write_time {
                crate::ring::zero_pair_channels(&mut out, frames, self.ring.channels, off);
                proof {
                    assert(slot_claims_stale(self.slots()[k as int], ch, off as int, te));
                    assert(slot_claims_stale(self.slots()[k as int], ch, off as int + 1, te));
                    assert forall|j: int| 0 <= j < pre.len() implies out@[j] == capture_spec(
                        self.samples(),
                        tf,
                        ch,
                        self.slots().take(k as int + 1),
                        w,
                        frames as int,
                        te,
                    )[j] by {
                        let c = j % ch;
                        let prefix = self.slots().take(k as int);
                        let prefix1 = self.slots().take(k as int + 1);
                        assert(prefix1[k as int] == self.slots()[k as int]);
                        if c == off as int || c == off as int + 1 {
                            assert(stale_channel(prefix1, ch, c, te));
                        } else {
                            assert(out@[j] == pre[j]);
                            if stale_channel(prefix1, ch, c, te) {
                                let k2 = choose|k2: int|
                                    0 <= k2 < prefix1.len() && #[trigger] slot_claims_stale(
                                        prefix1[k2],
                                        ch,
                                        c,
                                        te,
                                    );
                                assert(k2 < k as int);
                                assert(slot_claims_stale(prefix[k2], ch, c, te));
                            }
                            if stale_channel(prefix, ch, c, te) {
                                let k2 = choose|k2: int|
                                    0 <= k2 < prefix.len() && #[trigger] slot_claims_stale(
                                        prefix[k2],
                                        ch,
                                        c,
                                        te,
                                    );
                                assert(slot_claims_stale(prefix1[k2], ch, c, te));
                            }
                        }
                    }
                    assert(out@ =~= capture_spec(
                        self.samples(),
                        tf,
                        ch,
                        self.slots().take(k as int + 1),
                        w,
                        frames as int,
                        te,
                    ));
                }
            } else {
                proof {
                    assert forall|j: int| 0 <= j < pre.len() implies out@[j] == capture_spec(
                        self.samples(),
                        tf,
                        ch,
                        self.slots().take(k as int + 1),
                        w,
                        frames as int,
                        te,
                    )[j] by {
                        let c = j % ch;
                        let prefix = self.slots().take(k as int);
                        let prefix1 = self.slots().take(k as int + 1);
                        assert(prefix1[k as int] == self.slots()[k as int]);
                        assert(!slot_claims_stale(self.slots()[k as int], ch, c, te));
                        if stale_channel(prefix1, ch, c, te) {
                            let k2 = choose|k2: int|
                                0 <= k2 < prefix1.len() && #[trigger] slot_claims_stale(
                                    prefix1[k2],
                                    ch,
                                    c,
                                    te,
                                );
                            assert(k2 < k as int);
                            assert(slot_claims_stale(prefix[k2], ch, c, te));
                        }
                        if stale_channel(prefix, ch, c, te) {
                            let k2 = choose|k2: int|
                                0 <= k2 < prefix.len() && #[trigger] slot_claims_stale(
                                    prefix[k2],
                                    ch,
                                    c,
                                    te,
                                );
                            assert(slot_claims_stale(prefix1[k2], ch, c, te));
                        }
                    }
                    assert(out@ =~= capture_spec(
                        self.samples(),
                        tf,
                        ch,
                        self.slots().take(k as int + 1),
                        w,
                        frames as int,
                        te,
                    ));
                }
            }
            k = k + 1;
        }
        proof {
            assert(self.slots().take(CAPACITY as int) =~= self.slots());
        }
        out
    }

    /// The system mix delivers `frames` stereo frames for the cycle at
    /// `sample_time`, always into the reserved bus channels 0-1; no client
    /// lookup. A window that cannot fit the ring is silently dropped.
    pub fn system_mix_write(&mut self, sample_time: u64, frames: usize, input: &[u32])
        requires
            old(self).wf(),
            input@.len() == 2 * frames,
        ensures
            final(self).wf(),
            mix_write_post(*old(self), *final(self), sample_time, frames as int, input@),
    {
        if frames > self.ring.total_frames {
            return ;
        }
        self.ring.write_pair(sample_time, frames, 0, input);
    }

    /// The per-callback entry point: dispatch one operation for one stream.
    /// Writes belong to the output stream and reads to the input stream; an
    /// operation arriving on the wrong stream is ignored. Only a capture
    /// read returns a buffer.
    pub fn do_io(
        &mut self,
        op: IoOperation,
        stream_id: u32,
        client_id: u32,
        sample_time: u64,
        frames: usize,
        input: &[u32],
    ) -> (out: Option<Vec<u32>>)
        requires
            old(self).wf(),
            sample_time + frames <= u64::MAX,
            op != IoOperation::CaptureRead ==> input@.len() == 2 * frames,
            op == IoOperation::CaptureRead ==> frames * old(self).spec_channels() <= usize::MAX,
        ensures
            final(self).wf(),
            op == IoOperation::ClientWrite && stream_id == OUTPUT_STREAM_ID ==> out is None
                && client_write_post(
                *old(self),
                *final(self),
                client_id,
                sample_time,
                frames as int,
                input@,
            ),
            op == IoOperation::SystemMixWrite && stream_id == OUTPUT_STREAM_ID ==> out is None
                && mix_write_post(*old(self), *final(self), sample_time, frames as int, input@),
            op == IoOperation::CaptureRead && stream_id == INPUT_STREAM_ID ==> *final(self) == *old(
                self,
            ) && (out matches Some(v) && capture_post(*old(self), v@, sample_time, frames as int)),
            (op == IoOperation::ClientWrite || op == IoOperation::SystemMixWrite) && stream_id
                != OUTPUT_STREAM_ID ==> *final(self) == *old(self) && out is None,
            op == IoOperation::CaptureRead && stream_id != INPUT_STREAM_ID ==> *final(self)
                == *old(self) && out is None,
    {
        match op {
            IoOperation::ClientWrite => {
                if stream_id != OUTPUT_STREAM_ID {
                    return None;
                }
                self.client_write(client_id, sample_time, frames, input);
                None
            },
            IoOperation::SystemMixWrite => {
                if stream_id != OUTPUT_STREAM_ID {
                    return None;
                }
                self.system_mix_write(sample_time, frames, input);
                None
            },
            IoOperation::CaptureRead => {
                if stream_id != INPUT_STREAM_ID {
                    return None;
                }
                Some(self.capture_read(sample_time, frames))
            },
        }
    }
}

} // verus!
