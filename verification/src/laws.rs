//! Laws of the router, stated over the same spec functions its contracts
//! use: what a routed write reads back as, what staleness zeroing
//! suppresses, how a wrapped write splits at the boundary, and how the
//! registry behaves under stale leaves and broadcast routing.

use crate::registry::{
    count_matching, join_spec, leave_spec, left_slot, set_offset_spec, slot_index_spec,
    with_offset, with_write_time, ClientSlot, RoutingTarget, CAPACITY,
};
use crate::ring::{
    lemma_flat_decompose, lemma_flat_index, lemma_wrap_back, lemma_wrap_step, wpos_spec,
    wrap_write,
};
use crate::router::{
    capture_spec, routable_offset, slot_claims_stale, stale_channel, write_accepted,
};
use vstd::prelude::*;

verus! {

/// The registry contents after `apply_routing(pid, o)` routes the client and
/// a `ClientWrite` of `frames` frames at time `t` stamps its slot.
pub open spec fn routed_write_slots(
    slots: Seq<ClientSlot>,
    pid: i32,
    o: usize,
    client_id: u32,
    t: u64,
    frames: int,
) -> Seq<ClientSlot> {
    let idx = slot_index_spec(client_id);
    let slots1 = set_offset_spec(slots, RoutingTarget::Pid(pid), o);
    slots1.update(idx, with_write_time(slots1[idx], (t as int + frames) as u64))
}

/// What a capture over the same window then returns, per the contracts of
/// `apply_routing`, `client_write` and `capture_read` in turn.
pub open spec fn routed_write_capture(
    slots: Seq<ClientSlot>,
    ring: Seq<u32>,
    tf: int,
    ch: int,
    pid: i32,
    o: usize,
    client_id: u32,
    t: u64,
    frames: int,
    input: Seq<u32>,
) -> Seq<u32> {
    let ring1 = wrap_write(ring, tf, ch, wpos_spec(t, tf), frames, o as int, input);
    capture_spec(
        ring1,
        tf,
        ch,
        routed_write_slots(slots, pid, o, client_id, t, frames),
        wpos_spec(t, tf),
        frames,
        t as int + frames,
    )
}

/// Round-trip routing: route a client to a valid offset `o`, let it write
/// `frames` frames at time `t`, and capture the same window. The capture
/// carries the written samples on channels `o` and `o+1`, and zeros on the
/// channel pair of every other routed client whose write does not cover the
/// window. Requires that no other active client shares the pid (they would
/// be re-routed onto the same pair) or already sits on offset `o`.
pub proof fn lemma_round_trip(
    slots: Seq<ClientSlot>,
    ring: Seq<u32>,
    tf: int,
    ch: int,
    pid: i32,
    o: usize,
    client_id: u32,
    t: u64,
    frames: int,
    input: Seq<u32>,
)
    requires
        slots.len() == CAPACITY,
        1 <= tf,
        2 <= ch,
        ring.len() == tf * ch,
        routable_offset(o as int, ch),
        1 <= frames <= tf,
        input.len() == 2 * frames,
        t + frames <= u64::MAX,
        client_id != 0,
        slots[slot_index_spec(client_id)].client_id == client_id,
        slots[slot_index_spec(client_id)].pid == pid,
        forall|k: int|
            0 <= k < slots.len() && k != slot_index_spec(client_id) && #[trigger] slots[k].client_id
                != 0 ==> slots[k].pid != pid && slots[k].channel_offset != o,
    ensures
        count_matching(slots, RoutingTarget::Pid(pid)) >= 1,
        write_accepted(
            set_offset_spec(slots, RoutingTarget::Pid(pid), o),
            client_id,
            frames,
            tf,
            ch,
        ),
        forall|i: int, c: int|
            0 <= i < frames && 0 <= c < 2 ==> #[trigger] routed_write_capture(
                slots,
                ring,
                tf,
                ch,
                pid,
                o,
                client_id,
                t,
                frames,
                input,
            )[i * ch + o as int + c] == input[2 * i + c],
        forall|chan: int, i: int|
            0 <= i < frames && 0 <= chan < ch && stale_channel(
                routed_write_slots(slots, pid, o, client_id, t, frames),
                ch,
                chan,
                t as int + frames,
            ) ==> #[trigger] routed_write_capture(
                slots,
                ring,
                tf,
                ch,
                pid,
                o,
                client_id,
                t,
                frames,
                input,
            )[i * ch + chan] == 0,
{
    let idx = slot_index_spec(client_id);
    let slots1 = set_offset_spec(slots, RoutingTarget::Pid(pid), o);
    let slots2 = routed_write_slots(slots, pid, o, client_id, t, frames);
    let w = wpos_spec(t, tf);
    let ring1 = wrap_write(ring, tf, ch, w, frames, o as int, input);
    let te = t as int + frames;
    let out = routed_write_capture(slots, ring, tf, ch, pid, o, client_id, t, frames, input);

    lemma_count_matching_at_least_one(slots, RoutingTarget::Pid(pid), idx);

    // The written channels are not stale: the writer's own timestamp covers
    // the window, and no other slot claims its pair.
    assert forall|i: int, c: int| 0 <= i < frames && 0 <= c < 2 implies #[trigger] out[i * ch
        + o as int + c] == input[2 * i + c] by {
        let chan = o as int + c;
        lemma_flat_index(i, chan, frames, ch);
        let j = i * ch + chan;
        assert forall|k: int| 0 <= k < slots2.len() implies !slot_claims_stale(
            #[trigger] slots2[k],
            ch,
            chan,
            te,
        ) by {
            if k == idx {
                assert(slots2[k].last_write_time as int == te);
            } else {
                assert(slots2[k] == slots1[k]);
                if slots[k].client_id != 0 {
                    assert(slots[k].pid != pid);
                    assert(slots1[k] == slots[k]);
                }
            }
        }
        assert(!stale_channel(slots2, ch, chan, te));
        let p = (w + i) % tf;
        lemma_wrap_step(w, i, tf);
        lemma_flat_index(p, chan, tf, ch);
        assert(out[j] == ring1[p * ch + chan]);
        assert(ring1[p * ch + chan] == input[2 * i + c]);
    }

    // Every stale channel reads back as zero.
    assert forall|chan: int, i: int|
        0 <= i < frames && 0 <= chan < ch && stale_channel(slots2, ch, chan, te) implies #[trigger] out[i
        * ch + chan] == 0 by {
        lemma_flat_index(i, chan, frames, ch);
    }
}

/// Helper: a matching slot makes the match count positive.
pub proof fn lemma_count_matching_at_least_one(
    slots: Seq<ClientSlot>,
    target: RoutingTarget,
    idx: int,
)
    requires
        0 <= idx < slots.len(),
        crate::registry::slot_matches(slots[idx], target),
    ensures
        count_matching(slots, target) >= 1,
    decreases slots.len(),
{
    lemma_count_matching_nonneg(slots.drop_last(), target);
    if idx < slots.len() - 1 {
        lemma_count_matching_at_least_one(slots.drop_last(), target, idx);
    }
}

/// Helper: the match count is never negative.
pub proof fn lemma_count_matching_nonneg(slots: Seq<ClientSlot>, target: RoutingTarget)
    ensures
        count_matching(slots, target) >= 0,
    decreases slots.len(),
{
    if slots.len() > 0 {
        lemma_count_matching_nonneg(slots.drop_last(), target);
    }
}

/// Staleness: after a client's write at `t0` stamped its slot with
/// `t0 + frames0`, a capture whose window extends past that stamp (with no
/// intervening write) reads zeros on the client's channel pair, not the
/// leftover samples.
pub proof fn lemma_stale_window_zeroed(
    ring: Seq<u32>,
    tf: int,
    ch: int,
    slots: Seq<ClientSlot>,
    k: int,
    t1: u64,
    frames: int,
)
    requires
        1 <= tf,
        1 <= ch,
        1 <= frames <= tf,
        0 <= k < slots.len(),
        slots[k].client_id != 0,
        routable_offset(slots[k].channel_offset as int, ch),
        t1 as int + frames > slots[k].last_write_time as int,
    ensures
        forall|i: int|
            0 <= i < frames ==> #[trigger] capture_spec(
                ring,
                tf,
                ch,
                slots,
                wpos_spec(t1, tf),
                frames,
                t1 as int + frames,
            )[i * ch + slots[k].channel_offset as int] == 0 && capture_spec(
                ring,
                tf,
                ch,
                slots,
                wpos_spec(t1, tf),
                frames,
                t1 as int + frames,
            )[i * ch + slots[k].channel_offset as int + 1] == 0,
{
    assert forall|i: int| 0 <= i < frames implies #[trigger] capture_spec(
        ring,
        tf,
        ch,
        slots,
        wpos_spec(t1, tf),
        frames,
        t1 as int + frames,
    )[i * ch + slots[k].channel_offset as int] == 0 && capture_spec(
        ring,
        tf,
        ch,
        slots,
        wpos_spec(t1, tf),
        frames,
        t1 as int + frames,
    )[i * ch + slots[k].channel_offset as int + 1] == 0 by {
        let te = t1 as int + frames;
        let off = slots[k].channel_offset as int;
        lemma_flat_index(i, off, frames, ch);
        lemma_flat_index(i, off + 1, frames, ch);
        assert(slot_claims_stale(slots[k], ch, off, te));
        assert(slot_claims_stale(slots[k], ch, off + 1, te));
        assert(stale_channel(slots, ch, off, te));
        assert(stale_channel(slots, ch, off + 1, te));
    }
}

/// Idempotent leave: clearing a slot twice leaves exactly the state of
/// clearing it once.
pub proof fn lemma_leave_idempotent(slots: Seq<ClientSlot>, client_id: u32)
    requires
        slots.len() == CAPACITY,
    ensures
        leave_spec(leave_spec(slots, client_id), client_id) == leave_spec(slots, client_id),
{
    let idx = slot_index_spec(client_id);
    let s1 = leave_spec(slots, client_id);
    if slots[idx].client_id == client_id {
        if s1[idx].client_id == client_id {
            assert(left_slot(s1[idx]) == s1[idx]);
            assert(leave_spec(s1, client_id) =~= s1);
        }
    }
}

/// A stale leave never corrupts a newer occupant: once a different client
/// has joined the same slot, the old client's leave is a no-op.
pub proof fn lemma_stale_leave_is_noop(
    slots: Seq<ClientSlot>,
    old_id: u32,
    new_id: u32,
    pid: i32,
)
    requires
        slots.len() == CAPACITY,
        new_id != 0,
        new_id != old_id,
        slot_index_spec(new_id) == slot_index_spec(old_id),
    ensures
        leave_spec(join_spec(slots, new_id, pid), old_id) == join_spec(slots, new_id, pid),
{
    let joined = join_spec(slots, new_id, pid);
    assert(joined[slot_index_spec(old_id)].client_id == new_id);
}

/// Broadcast routing: a routing change addressed to every client updates
/// exactly the occupied slots and leaves the unoccupied ones untouched.
pub proof fn lemma_broadcast_routing(slots: Seq<ClientSlot>, offset: usize)
    ensures
        forall|k: int|
            0 <= k < slots.len() && #[trigger] slots[k].client_id != 0 ==> set_offset_spec(
                slots,
                RoutingTarget::All,
                offset,
            )[k] == with_offset(slots[k], offset),
        forall|k: int|
            0 <= k < slots.len() && #[trigger] slots[k].client_id == 0 ==> set_offset_spec(
                slots,
                RoutingTarget::All,
                offset,
            )[k] == slots[k],
{
}

/// Writers on distinct even offsets touch disjoint channel pairs, so their
/// writes commute: the buffer cannot tell in which order they landed. This
/// is what lets concurrent playback clients share the ring without locks.
pub proof fn lemma_disjoint_writers_commute(
    ring: Seq<u32>,
    tf: int,
    ch: int,
    w1: int,
    frames1: int,
    off1: int,
    input1: Seq<u32>,
    w2: int,
    frames2: int,
    off2: int,
    input2: Seq<u32>,
)
    requires
        1 <= tf,
        1 <= ch,
        ring.len() == tf * ch,
        off1 % 2 == 0,
        off2 % 2 == 0,
        off1 != off2,
        0 <= off1,
        0 <= off2,
    ensures
        wrap_write(
            wrap_write(ring, tf, ch, w1, frames1, off1, input1),
            tf,
            ch,
            w2,
            frames2,
            off2,
            input2,
        ) == wrap_write(
            wrap_write(ring, tf, ch, w2, frames2, off2, input2),
            tf,
            ch,
            w1,
            frames1,
            off1,
            input1,
        ),
{
    let a = wrap_write(
        wrap_write(ring, tf, ch, w1, frames1, off1, input1),
        tf,
        ch,
        w2,
        frames2,
        off2,
        input2,
    );
    let b = wrap_write(
        wrap_write(ring, tf, ch, w2, frames2, off2, input2),
        tf,
        ch,
        w1,
        frames1,
        off1,
        input1,
    );
    assert forall|j: int| 0 <= j < ring.len() implies a[j] == b[j] by {
        lemma_flat_decompose(j, tf, ch);
    }
    assert(a =~= b);
}

/// Wraparound correctness: writing `frames` frames starting `k` frames
/// before the wrap boundary leaves the ring exactly as two calls split at
/// the boundary do: `k` frames at the tail, then the remainder at the head.
pub proof fn lemma_wraparound_split(
    ring: Seq<u32>,
    tf: int,
    ch: int,
    off: int,
    k: int,
    frames: int,
    input: Seq<u32>,
)
    requires
        1 <= tf,
        1 <= ch,
        ring.len() == tf * ch,
        0 <= off,
        off + 1 < ch,
        0 < k < frames,
        frames <= tf,
        input.len() == 2 * frames,
    ensures
        wrap_write(ring, tf, ch, tf - k, frames, off, input) == wrap_write(
            wrap_write(ring, tf, ch, tf - k, k, off, input.take(2 * k)),
            tf,
            ch,
            0,
            frames - k,
            off,
            input.skip(2 * k),
        ),
{
    let w = tf - k;
    let first = wrap_write(ring, tf, ch, w, k, off, input.take(2 * k));
    let both = wrap_write(first, tf, ch, 0, frames - k, off, input.skip(2 * k));
    let direct = wrap_write(ring, tf, ch, w, frames, off, input);
    assert forall|j: int| 0 <= j < ring.len() implies direct[j] == both[j] by {
        lemma_flat_decompose(j, tf, ch);
        let f = j / ch;
        let c = j % ch;
        lemma_wrap_back(w, f, tf);
        lemma_wrap_back(0, f, tf);
        if c == off || c == off + 1 {
            if f >= w {
                assert((f - w) % tf == f - w < k);
                assert(both[j] == first[j]);
                assert(first[j] == input.take(2 * k)[2 * (f - w) + (c - off)]);
            } else if f < frames - k {
                assert((f - w) % tf == f + k < frames);
                assert(both[j] == input.skip(2 * k)[2 * f + (c - off)]);
            } else {
                assert((f - w) % tf == f + k >= frames);
                assert(both[j] == first[j]);
                assert(first[j] == ring[j]);
            }
        }
    }
    assert(direct =~= both);
}

} // verus!
