//! The wire form of a routing update: 8 little-endian bytes, the pid (as a
//! 32-bit two's-complement word) followed by the channel offset. This is the
//! payload the control plane sends and the driver decodes.

use crate::router::RoutingRequest;
use vstd::bytes::{
    lemma_auto_spec_u32_to_from_le_bytes, spec_u32_from_le_bytes, spec_u32_to_le_bytes,
    u32_from_le_bytes, u32_to_le_bytes,
};
use vstd::prelude::*;
use vstd::slice::slice_subrange;

verus! {

/// The 8 bytes a routing update travels as.
pub open spec fn routing_update_bytes(req: RoutingRequest) -> Seq<u8> {
    spec_u32_to_le_bytes(req.pid as u32) + spec_u32_to_le_bytes(req.channel_offset)
}

/// Encode a routing update for the wire.
pub fn encode_routing_update(req: &RoutingRequest) -> (r: Vec<u8>)
    ensures
        r@ == routing_update_bytes(*req),
        r@.len() == 8,
{
    let mut out = u32_to_le_bytes(req.pid as u32);
    let mut tail = u32_to_le_bytes(req.channel_offset);
    out.append(&mut tail);
    proof {
        assert(out@ =~= routing_update_bytes(*req));
    }
    out
}

/// Decode a routing update from its first 8 bytes; shorter payloads are
/// refused, longer ones keep their leading update (trailing bytes ignored).
pub fn decode_routing_update(data: &[u8]) -> (r: Option<RoutingRequest>)
    ensures
        data@.len() < 8 ==> r is None,
        data@.len() >= 8 ==> (r matches Some(req) && req.pid as u32 == spec_u32_from_le_bytes(
            data@.subrange(0, 4),
        ) && req.channel_offset == spec_u32_from_le_bytes(data@.subrange(4, 8))),
{
    if data.len() < 8 {
        return Option::None;
    }
    let pid_word = u32_from_le_bytes(slice_subrange(data, 0, 4));
    let offset = u32_from_le_bytes(slice_subrange(data, 4, 8));
    proof {
        assert((pid_word as i32) as u32 == pid_word) by (bit_vector);
    }
    Option::Some(RoutingRequest { pid: pid_word as i32, channel_offset: offset })
}

/// Decoding inverts encoding: the update read back off the wire is the one
/// that was sent.
pub proof fn lemma_routing_update_round_trip(req: RoutingRequest)
    ensures
        routing_update_bytes(req).len() == 8,
        forall|data: Seq<u8>|
            #[trigger] data.subrange(0, 8) == routing_update_bytes(req) && data.len() >= 8 ==> {
                &&& spec_u32_from_le_bytes(data.subrange(0, 4)) == req.pid as u32
                &&& spec_u32_from_le_bytes(data.subrange(4, 8)) == req.channel_offset
            },
{
    lemma_auto_spec_u32_to_from_le_bytes();
    assert forall|data: Seq<u8>|
        #[trigger] data.subrange(0, 8) == routing_update_bytes(req) && data.len() >= 8 implies {
        &&& spec_u32_from_le_bytes(data.subrange(0, 4)) == req.pid as u32
        &&& spec_u32_from_le_bytes(data.subrange(4, 8)) == req.channel_offset
    } by {
        assert(data.subrange(0, 4) =~= data.subrange(0, 8).subrange(0, 4));
        assert(data.subrange(4, 8) =~= data.subrange(0, 8).subrange(4, 8));
        assert(routing_update_bytes(req).subrange(0, 4) =~= spec_u32_to_le_bytes(req.pid as u32));
        assert(routing_update_bytes(req).subrange(4, 8) =~= spec_u32_to_le_bytes(
            req.channel_offset,
        ));
    }
}

} // verus!
