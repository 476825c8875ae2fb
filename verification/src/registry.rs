//! Fixed-capacity client registry.
//!
//! One slot per potential client, direct-indexed by `client_id & (CAPACITY-1)`.
//! A slot records whether a client occupies it (`client_id != 0`), the first
//! channel of its assigned stereo pair, the owning process id, and the
//! absolute sample time of its most recent completed write.

use vstd::prelude::*;

verus! {

/// Number of client slots; a power of two so that a client id can be
/// direct-indexed with a mask.
pub const CAPACITY: usize = 4096;

/// One registry slot. `client_id == 0` means the slot is unoccupied; zero is
/// a sentinel and never a valid client id.
#[derive(Clone, Copy, Debug, PartialEq, Eq, Structural)]
pub struct ClientSlot {
    pub client_id: u32,
    pub channel_offset: usize,
    pub pid: i32,
    pub last_write_time: u64,
}

/// One entry of a registry snapshot: the occupied slots, in slot order.
#[derive(Clone, Copy, Debug, PartialEq, Eq, Structural)]
pub struct ClientListEntry {
    pub pid: i32,
    pub client_id: u32,
    pub channel_offset: usize,
}

/// The target of a routing change: one process, or every active client.
#[derive(Clone, Copy, Debug, PartialEq, Eq, Structural)]
pub enum RoutingTarget {
    All,
    Pid(i32),
}

/// The state of a slot that has never been used, and of one that a client
/// joined and then left (up to its retained write timestamp).
pub open spec fn empty_slot() -> ClientSlot {
    ClientSlot { client_id: 0, channel_offset: 0, pid: 0, last_write_time: 0 }
}

/// The slot index that a client id is direct-mapped to.
pub open spec fn slot_index_spec(client_id: u32) -> int {
    client_id as int % (CAPACITY as int)
}

/// The slot state right after a join: default offset 0 (unrouted) and a
/// cleared write timestamp.
pub open spec fn joined_slot(client_id: u32, pid: i32) -> ClientSlot {
    ClientSlot { client_id: client_id, channel_offset: 0, pid: pid, last_write_time: 0 }
}

/// Registry contents after `join(client_id, pid)`: a nonzero id claims its
/// direct-indexed slot (evicting any previous occupant); id 0 is refused.
pub open spec fn join_spec(slots: Seq<ClientSlot>, client_id: u32, pid: i32) -> Seq<ClientSlot> {
    if client_id == 0 {
        slots
    } else {
        slots.update(slot_index_spec(client_id), joined_slot(client_id, pid))
    }
}

/// The slot state after its occupant leaves: identity and routing cleared,
/// write timestamp retained.
pub open spec fn left_slot(s: ClientSlot) -> ClientSlot {
    ClientSlot { client_id: 0, channel_offset: 0, pid: 0, last_write_time: s.last_write_time }
}

/// Registry contents after `leave(client_id, _)`: the slot is cleared only if
/// it is still held by the same client id; a stale leave is a no-op.
pub open spec fn leave_spec(slots: Seq<ClientSlot>, client_id: u32) -> Seq<ClientSlot> {
    let idx = slot_index_spec(client_id);
    if slots[idx].client_id == client_id {
        slots.update(idx, left_slot(slots[idx]))
    } else {
        slots
    }
}

/// Whether a routing change addresses this slot: the slot must be occupied,
/// and for a pid-targeted change the owning pid must match.
pub open spec fn slot_matches(s: ClientSlot, target: RoutingTarget) -> bool {
    s.client_id != 0 && match target {
        RoutingTarget::All => true,
        RoutingTarget::Pid(p) => s.pid == p,
    }
}

/// A slot with its channel offset replaced and everything else kept.
pub open spec fn with_offset(s: ClientSlot, offset: usize) -> ClientSlot {
    ClientSlot {
        client_id: s.client_id,
        channel_offset: offset,
        pid: s.pid,
        last_write_time: s.last_write_time,
    }
}

/// A slot with its last write timestamp replaced and everything else kept.
pub open spec fn with_write_time(s: ClientSlot, t: u64) -> ClientSlot {
    ClientSlot {
        client_id: s.client_id,
        channel_offset: s.channel_offset,
        pid: s.pid,
        last_write_time: t,
    }
}

/// Registry contents after `set_offset(target, offset)`: every matching slot
/// gets the new offset; every other slot is untouched.
pub open spec fn set_offset_spec(
    slots: Seq<ClientSlot>,
    target: RoutingTarget,
    offset: usize,
) -> Seq<ClientSlot> {
    Seq::new(
        slots.len(),
        |k: int| if slot_matches(slots[k], target) {
            with_offset(slots[k], offset)
        } else {
            slots[k]
        },
    )
}

/// How many slots a routing change addresses.
pub open spec fn count_matching(slots: Seq<ClientSlot>, target: RoutingTarget) -> int
    decreases slots.len(),
{
    if slots.len() == 0 {
        0
    } else {
        count_matching(slots.drop_last(), target) + if slot_matches(slots.last(), target) {
            1int
        } else {
            0int
        }
    }
}

/// The entry a snapshot emits for an occupied slot.
pub open spec fn entry_of(s: ClientSlot) -> ClientListEntry {
    ClientListEntry { pid: s.pid, client_id: s.client_id, channel_offset: s.channel_offset }
}

/// What `snapshot` returns: one entry per occupied slot, in slot order.
pub open spec fn snapshot_spec(slots: Seq<ClientSlot>) -> Seq<ClientListEntry>
    decreases slots.len(),
{
    if slots.len() == 0 {
        Seq::empty()
    } else {
        snapshot_spec(slots.drop_last()) + if slots.last().client_id != 0 {
            seq![entry_of(slots.last())]
        } else {
            Seq::empty()
        }
    }
}

/// Every snapshot entry comes from an occupied slot, so none carries the
/// unoccupied sentinel id 0.
pub proof fn lemma_snapshot_entries_active(slots: Seq<ClientSlot>)
    ensures
        forall|i: int| 0 <= i < snapshot_spec(slots).len() ==> #[trigger] snapshot_spec(
            slots,
        )[i].client_id != 0,
    decreases slots.len(),
{
    if slots.len() > 0 {
        lemma_snapshot_entries_active(slots.drop_last());
        let prefix = snapshot_spec(slots.drop_last());
        assert forall|i: int| 0 <= i < snapshot_spec(slots).len() implies #[trigger] snapshot_spec(
            slots,
        )[i].client_id != 0 by {
            if i < prefix.len() {
                assert(snapshot_spec(slots)[i] == prefix[i]);
            }
        }
    }
}

/// The fixed-size array of client slots. Every operation touches single
/// slots (or makes one pass over all of them) with bounded work.
pub struct Registry {
    pub slots: Vec<ClientSlot>,
}

impl Registry {
    /// The registry always holds exactly `CAPACITY` slots.
    pub open spec fn wf(&self) -> bool {
        self.slots@.len() == CAPACITY
    }

    /// A fresh registry: every slot unoccupied.
    pub fn new() -> (r: Registry)
        ensures
            r.wf(),
            forall|k: int| 0 <= k < CAPACITY ==> r.slots@[k] == empty_slot(),
    {
        let slot = ClientSlot { client_id: 0, channel_offset: 0, pid: 0, last_write_time: 0 };
        Registry { slots: vec![slot; CAPACITY] }
    }

    /// The slot index a client id is direct-mapped to (mask, since
    /// `CAPACITY` is a power of two).
    pub fn slot_index(client_id: u32) -> (idx: usize)
        ensures
            idx == slot_index_spec(client_id),
            idx < CAPACITY,
    {
        assert(client_id & 4095 == client_id % 4096 && client_id & 4095 < 4096) by (bit_vector);
        (client_id & 4095) as usize
    }

    /// A client joins: a nonzero id claims its slot, evicting any previous
    /// occupant (last-writer-wins is the accepted collision policy); the
    /// offset starts at 0 (unrouted) and the write timestamp is cleared.
    /// Joining with the sentinel id 0 is refused.
    pub fn join(&mut self, client_id: u32, pid: i32)
        requires
            old(self).wf(),
        ensures
            final(self).wf(),
            final(self).slots@ == join_spec(old(self).slots@, client_id, pid),
    {
        if client_id == 0 {
            return ;
        }
        let idx = Self::slot_index(client_id);
        self.slots[idx] = ClientSlot { client_id, channel_offset: 0, pid, last_write_time: 0 };
    }

    /// A client leaves: the slot is cleared only if it is still held by this
    /// client id, so a stale leave racing a newer join into the same slot is
    /// a no-op. The pid is not consulted.
    pub fn leave(&mut self, client_id: u32, _pid: i32)
        requires
            old(self).wf(),
        ensures
            final(self).wf(),
            final(self).slots@ == leave_spec(old(self).slots@, client_id),
    {
        let idx = Self::slot_index(client_id);
        let cur = self.slots[idx];
        if cur.client_id == client_id {
            self.slots[idx] = ClientSlot {
                client_id: 0,
                channel_offset: 0,
                pid: 0,
                last_write_time: cur.last_write_time,
            };
        }
    }

    /// Store a new channel offset into every slot the target addresses and
    /// report how many there were; zero means "no matching client", which
    /// callers treat as a user-facing failure, not a crash.
    pub fn set_offset(&mut self, target: RoutingTarget, offset: usize) -> (count: usize)
        requires
            old(self).wf(),
        ensures
            final(self).wf(),
            final(self).slots@ == set_offset_spec(old(self).slots@, target, offset),
            count == count_matching(old(self).slots@, target),
    {
        let ghost slots0 = self.slots@;
        let mut count: usize = 0;
        let mut k: usize = 0;
        while k < CAPACITY
            invariant
                self.wf(),
                k <= CAPACITY,
                count <= k,
                slots0.len() == CAPACITY,
                forall|j: int| 0 <= j < k ==> self.slots@[j] == set_offset_spec(
                    slots0,
                    target,
                    offset,
                )[j],
                forall|j: int| k <= j < CAPACITY ==> self.slots@[j] == slots0[j],
                count == count_matching(slots0.take(k as int), target),
            decreases CAPACITY - k,
        {
            proof {
                assert(slots0.take(k as int + 1).drop_last() =~= slots0.take(k as int));
                assert(slots0.take(k as int + 1).last() == slots0[k as int]);
            }
            let cur = self.slots[k];
            let matched = match target {
                RoutingTarget::All => cur.client_id != 0,
                RoutingTarget::Pid(p) => cur.client_id != 0 && cur.pid == p,
            };
            if matched {
                self.slots[k] = ClientSlot {
                    client_id: cur.client_id,
                    channel_offset: offset,
                    pid: cur.pid,
                    last_write_time: cur.last_write_time,
                };
                count = count + 1;
            }
            k = k + 1;
        }
        proof {
            assert(slots0.take(CAPACITY as int) =~= slots0);
            assert(self.slots@ =~= set_offset_spec(slots0, target, offset));
        }
        count
    }

    /// A pure read pass over all slots: one entry per occupied slot, in slot
    /// order. Never emits an entry with the unoccupied sentinel id 0.
    pub fn snapshot(&self) -> (r: Vec<ClientListEntry>)
        requires
            self.wf(),
        ensures
            r@ == snapshot_spec(self.slots@),
            forall|i: int| 0 <= i < r@.len() ==> #[trigger] r@[i].client_id != 0,
    {
        let mut out: Vec<ClientListEntry> = Vec::new();
        let mut k: usize = 0;
        while k < CAPACITY
            invariant
                self.wf(),
                k <= CAPACITY,
                out@ == snapshot_spec(self.slots@.take(k as int)),
            decreases CAPACITY - k,
        {
            proof {
                assert(self.slots@.take(k as int + 1).drop_last() =~= self.slots@.take(k as int));
                assert(self.slots@.take(k as int + 1).last() == self.slots@[k as int]);
            }
            let cur = self.slots[k];
            if cur.client_id != 0 {
                out.push(ClientListEntry {
                    pid: cur.pid,
                    client_id: cur.client_id,
                    channel_offset: cur.channel_offset,
                });
                proof {
                    assert(out@ =~= snapshot_spec(self.slots@.take(k as int + 1)));
                }
            }
            k = k + 1;
        }
        proof {
            assert(self.slots@.take(CAPACITY as int) =~= self.slots@);
            lemma_snapshot_entries_active(self.slots@);
        }
        out
    }
}

} // verus!
