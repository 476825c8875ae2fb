use prism::process::resolve_responsible_identity;
use prism::registry::{ClientListEntry, RoutingTarget};
use prism::router::{
    IoOperation, PrismConfig, Router, RoutingError, RoutingRequest, BROADCAST_PID,
    INPUT_STREAM_ID, OUTPUT_STREAM_ID,
};

fn stereo_ramp(frames: usize, base: u32) -> Vec<u32> {
    let mut v = Vec::new();
    let mut i: u32 = 0;
    while (i as usize) < 2 * frames {
        v.push(base + i);
        i += 1;
    }
    v
}

#[test]
fn join_appears_in_snapshot() {
    let mut r = Router::new(16, 8);
    r.join(5, 100);
    let snap = r.snapshot();
    assert_eq!(snap.len(), 1);
    assert_eq!(
        snap[0],
        ClientListEntry { pid: 100, client_id: 5, channel_offset: 0 }
    );
}

#[test]
fn join_with_sentinel_id_is_refused() {
    let mut r = Router::new(16, 8);
    r.join(0, 50);
    assert!(r.snapshot().is_empty());
}

#[test]
fn colliding_join_evicts_previous_occupant() {
    let mut r = Router::new(16, 8);
    r.join(1, 10);
    // 4097 & 4095 == 1: same slot, last writer wins.
    r.join(4097, 20);
    let snap = r.snapshot();
    assert_eq!(snap.len(), 1);
    assert_eq!(snap[0].client_id, 4097);
    assert_eq!(snap[0].pid, 20);
}

#[test]
fn leave_is_idempotent() {
    let mut r = Router::new(16, 8);
    r.join(5, 100);
    r.leave(5, 100);
    assert!(r.snapshot().is_empty());
    r.leave(5, 100);
    assert!(r.snapshot().is_empty());
}

#[test]
fn stale_leave_does_not_corrupt_new_occupant() {
    let mut r = Router::new(16, 8);
    r.join(5, 100);
    // A different client takes the same slot (4101 & 4095 == 5)...
    r.join(4101, 200);
    // ...then the old client's leave arrives late: it must be a no-op.
    r.leave(5, 100);
    let snap = r.snapshot();
    assert_eq!(snap.len(), 1);
    assert_eq!(snap[0].client_id, 4101);
    assert_eq!(snap[0].pid, 200);
}

#[test]
fn odd_offset_is_rejected_without_mutation() {
    let mut r = Router::new(16, 64);
    r.join(5, 100);
    let res = r.apply_routing(RoutingRequest { pid: 100, channel_offset: 1 });
    assert_eq!(res, Err(RoutingError::InvalidOffset));
    assert_eq!(r.snapshot()[0].channel_offset, 0);
}

#[test]
fn overrunning_offset_is_rejected_without_mutation() {
    let mut r = Router::new(16, 64);
    r.join(5, 100);
    // 63 is both odd and the final (reserved) channel; 64 overruns outright.
    assert_eq!(
        r.apply_routing(RoutingRequest { pid: 100, channel_offset: 63 }),
        Err(RoutingError::InvalidOffset)
    );
    assert_eq!(
        r.apply_routing(RoutingRequest { pid: 100, channel_offset: 64 }),
        Err(RoutingError::InvalidOffset)
    );
    assert_eq!(r.snapshot()[0].channel_offset, 0);
}

#[test]
fn routing_with_no_matching_client_fails() {
    let mut r = Router::new(16, 8);
    assert_eq!(
        r.apply_routing(RoutingRequest { pid: 42, channel_offset: 2 }),
        Err(RoutingError::NoSuchClient)
    );
}

#[test]
fn routing_updates_every_slot_of_the_pid() {
    let mut r = Router::new(16, 8);
    r.join(1, 100);
    r.join(2, 100);
    r.join(3, 200);
    let res = r.apply_routing(RoutingRequest { pid: 100, channel_offset: 4 });
    assert_eq!(res, Ok(2));
    let snap = r.snapshot();
    for e in &snap {
        if e.pid == 100 {
            assert_eq!(e.channel_offset, 4);
        } else {
            assert_eq!(e.channel_offset, 0);
        }
    }
}

#[test]
fn round_trip_written_samples_come_back_on_the_routed_pair() {
    let mut r = Router::new(16, 8);
    r.join(7, 500);
    assert_eq!(
        r.apply_routing(RoutingRequest { pid: 500, channel_offset: 2 }),
        Ok(1)
    );
    // A second routed client that never writes: its pair must read as zeros.
    r.join(9, 600);
    assert_eq!(
        r.apply_routing(RoutingRequest { pid: 600, channel_offset: 4 }),
        Ok(1)
    );
    let frames = 4;
    let input = stereo_ramp(frames, 1000);
    r.client_write(7, 3, frames, &input);
    let out = r.capture_read(3, frames);
    let ch = 8;
    assert_eq!(out.len(), frames * ch);
    for i in 0..frames {
        assert_eq!(out[i * ch + 2], input[2 * i]);
        assert_eq!(out[i * ch + 3], input[2 * i + 1]);
        assert_eq!(out[i * ch + 4], 0);
        assert_eq!(out[i * ch + 5], 0);
    }
}

#[test]
fn float_samples_survive_the_round_trip_bitwise() {
    let mut r = Router::new(16, 8);
    r.join(7, 500);
    r.apply_routing(RoutingRequest { pid: 500, channel_offset: 2 }).unwrap();
    let samples: Vec<f32> = vec![0.25, -0.5, 1.0, 0.125];
    let input: Vec<u32> = samples.iter().map(|s| s.to_bits()).collect();
    r.client_write(7, 0, 2, &input);
    let out = r.capture_read(0, 2);
    assert_eq!(f32::from_bits(out[2]), 0.25);
    assert_eq!(f32::from_bits(out[3]), -0.5);
    assert_eq!(f32::from_bits(out[8 + 2]), 1.0);
    assert_eq!(f32::from_bits(out[8 + 3]), 0.125);
}

#[test]
fn read_past_the_last_write_yields_zeros() {
    let mut r = Router::new(16, 8);
    r.join(7, 500);
    r.apply_routing(RoutingRequest { pid: 500, channel_offset: 2 }).unwrap();
    let input = stereo_ramp(4, 1000);
    r.client_write(7, 0, 4, &input);
    // The write covers [0, 4): a capture of [0, 4) sees the data...
    let fresh = r.capture_read(0, 4);
    assert_eq!(fresh[2], 1000);
    // ...but a capture of [8, 12), past the stamp, sees zeros, not leftovers.
    let stale = r.capture_read(8, 4);
    for i in 0..4 {
        assert_eq!(stale[i * 8 + 2], 0);
        assert_eq!(stale[i * 8 + 3], 0);
    }
}

#[test]
fn wrapped_write_equals_two_writes_split_at_the_boundary() {
    let frames = 6;
    let input = stereo_ramp(frames, 3000);
    // total_frames = 8; writing 6 frames at position 6 wraps after 2.
    let t: u64 = 6;

    let mut single = Router::new(8, 8);
    single.join(1, 10);
    single.apply_routing(RoutingRequest { pid: 10, channel_offset: 2 }).unwrap();
    single.client_write(1, t, frames, &input);

    let mut split = Router::new(8, 8);
    split.join(1, 10);
    split.apply_routing(RoutingRequest { pid: 10, channel_offset: 2 }).unwrap();
    split.client_write(1, t, 2, &input[..4]);
    split.client_write(1, t + 2, 4, &input[4..]);

    let a = single.capture_read(t, frames);
    let b = split.capture_read(t, frames);
    assert_eq!(a, b);
    // And the samples really are the written ones, across the wrap.
    for i in 0..frames {
        assert_eq!(a[i * 8 + 2], input[2 * i]);
        assert_eq!(a[i * 8 + 3], input[2 * i + 1]);
    }
}

#[test]
fn broadcast_updates_every_active_slot_only() {
    let mut r = Router::new(16, 8);
    r.join(1, 10);
    r.join(2, 20);
    r.join(3, 30);
    r.leave(2, 20);
    let res = r.apply_routing(RoutingRequest { pid: BROADCAST_PID, channel_offset: 6 });
    assert_eq!(res, Ok(2));
    let snap = r.snapshot();
    assert_eq!(snap.len(), 2);
    for e in &snap {
        assert_eq!(e.channel_offset, 6);
    }
    // A slot freed before the broadcast was left untouched: a client joining
    // it afterwards starts unrouted.
    r.join(2, 20);
    let snap2 = r.snapshot();
    let rejoined = snap2.iter().find(|e| e.client_id == 2).unwrap();
    assert_eq!(rejoined.channel_offset, 0);
}

#[test]
fn snapshot_never_reports_the_sentinel_id() {
    let mut r = Router::new(16, 8);
    for k in 1..40u32 {
        r.join(k, k as i32 * 7);
        if k % 3 == 0 {
            r.leave(k, k as i32 * 7);
        }
    }
    for e in &r.snapshot() {
        assert_ne!(e.client_id, 0);
    }
}

#[test]
fn unrouted_write_produces_no_change_to_the_buffer() {
    let mut r = Router::new(16, 8);
    r.join(7, 500);
    // Default offset 0 is the reserved mix pair: the client is unrouted.
    let input = stereo_ramp(4, 1000);
    r.client_write(7, 0, 4, &input);
    let out = r.capture_read(0, 4);
    assert!(out.iter().all(|&s| s == 0));
}

#[test]
fn write_after_eviction_is_dropped() {
    let mut r = Router::new(16, 8);
    r.join(1, 10);
    r.apply_routing(RoutingRequest { pid: 10, channel_offset: 2 }).unwrap();
    r.join(4097, 20);
    let input = stereo_ramp(4, 1000);
    r.client_write(1, 0, 4, &input);
    let out = r.capture_read(0, 4);
    // The evicted client's samples never landed; the new occupant is
    // unrouted and stale, so nothing shows anywhere.
    assert!(out.iter().all(|&s| s == 0));
}

#[test]
fn offset_zero_request_unroutes_a_client() {
    let mut r = Router::new(16, 8);
    r.join(1, 10);
    r.apply_routing(RoutingRequest { pid: 10, channel_offset: 2 }).unwrap();
    assert_eq!(
        r.apply_routing(RoutingRequest { pid: 10, channel_offset: 0 }),
        Ok(1)
    );
    let input = stereo_ramp(2, 1000);
    r.client_write(1, 0, 2, &input);
    let out = r.capture_read(0, 2);
    assert!(out.iter().all(|&s| s == 0));
}

#[test]
fn system_mix_lands_on_the_reserved_channels() {
    let mut r = Router::new(16, 8);
    let input = stereo_ramp(3, 7000);
    r.system_mix_write(0, 3, &input);
    let out = r.capture_read(0, 3);
    for i in 0..3 {
        assert_eq!(out[i * 8], input[2 * i]);
        assert_eq!(out[i * 8 + 1], input[2 * i + 1]);
    }
}

#[test]
fn oversized_windows_are_dropped_or_silent() {
    let mut r = Router::new(8, 8);
    r.join(1, 10);
    r.apply_routing(RoutingRequest { pid: 10, channel_offset: 2 }).unwrap();
    let input = stereo_ramp(9, 1000);
    // More frames than the ring holds: the write is dropped...
    r.client_write(1, 0, 9, &input);
    let out = r.capture_read(0, 8);
    assert!(out.iter().all(|&s| s == 0));
    // ...and an oversized read yields silence of the right length.
    let silent = r.capture_read(0, 9);
    assert_eq!(silent.len(), 9 * 8);
    assert!(silent.iter().all(|&s| s == 0));
}

#[test]
fn do_io_dispatches_by_operation_and_stream() {
    let mut r = Router::new(16, 8);
    r.join(7, 500);
    r.apply_routing(RoutingRequest { pid: 500, channel_offset: 2 }).unwrap();
    let input = stereo_ramp(2, 1000);

    // A write on the input stream is ignored.
    assert!(r
        .do_io(IoOperation::ClientWrite, INPUT_STREAM_ID, 7, 0, 2, &input)
        .is_none());
    let silent = r
        .do_io(IoOperation::CaptureRead, INPUT_STREAM_ID, 0, 0, 2, &[])
        .unwrap();
    assert!(silent.iter().all(|&s| s == 0));

    // On the right streams the write lands and the read returns it.
    assert!(r
        .do_io(IoOperation::ClientWrite, OUTPUT_STREAM_ID, 7, 0, 2, &input)
        .is_none());
    let out = r
        .do_io(IoOperation::CaptureRead, INPUT_STREAM_ID, 0, 0, 2, &[])
        .unwrap();
    assert_eq!(out[2], 1000);
    assert_eq!(out[3], 1001);

    // A read on the output stream is ignored.
    assert!(r
        .do_io(IoOperation::CaptureRead, OUTPUT_STREAM_ID, 0, 0, 2, &[])
        .is_none());

    // The mix write needs the output stream too.
    assert!(r
        .do_io(IoOperation::SystemMixWrite, OUTPUT_STREAM_ID, 0, 4, 2, &input)
        .is_none());
    let out2 = r
        .do_io(IoOperation::CaptureRead, INPUT_STREAM_ID, 0, 4, 2, &[])
        .unwrap();
    assert_eq!(out2[0], 1000);
    assert_eq!(out2[1], 1001);
}

#[test]
fn registry_set_offset_counts_matches() {
    let mut r = Router::new(16, 8);
    r.join(1, 10);
    r.join(2, 10);
    let n = r.registry.set_offset(RoutingTarget::Pid(10), 4);
    assert_eq!(n, 2);
    let all = r.registry.set_offset(RoutingTarget::All, 6);
    assert_eq!(all, 2);
    assert_eq!(r.registry.set_offset(RoutingTarget::Pid(999), 2), 0);
}

#[test]
fn default_config_matches_the_device() {
    let c = PrismConfig::default();
    assert_eq!(c.num_channels, 64);
    assert_eq!(c.buffer_frame_size, 1024);
    assert_eq!(c.safety_offset, 256);
    assert_eq!(c.ring_buffer_frame_size, 1024);
    assert_eq!(c.zero_timestamp_period, 1024);
    assert_eq!(PrismConfig::load(), c);
}

#[test]
fn routing_update_survives_the_wire() {
    let req = prism::router::RoutingRequest { pid: -1, channel_offset: 6 };
    let bytes = prism::wire::encode_routing_update(&req);
    assert_eq!(bytes.len(), 8);
    assert_eq!(prism::wire::decode_routing_update(&bytes), Some(req));

    let pos = prism::router::RoutingRequest { pid: 4242, channel_offset: 62 };
    let bytes2 = prism::wire::encode_routing_update(&pos);
    assert_eq!(bytes2, vec![0x92, 0x10, 0, 0, 62, 0, 0, 0]);
    assert_eq!(prism::wire::decode_routing_update(&bytes2), Some(pos));

    // Short payloads are refused; trailing bytes are ignored.
    assert_eq!(prism::wire::decode_routing_update(&bytes2[..7]), None);
    let mut long = bytes2.clone();
    long.push(0xFF);
    assert_eq!(prism::wire::decode_routing_update(&long), Some(pos));
}

#[test]
fn resolve_responsible_identity_prefers_the_responsible_pid() {
    let id = resolve_responsible_identity(50, Some(40), Some(String::from("/Applications/X.app/Contents/MacOS/X")))
        .unwrap();
    assert_eq!(id.pid, 40);
    assert_eq!(id.display_name.as_deref(), Some("X"));
    let fallback = resolve_responsible_identity(50, None, None).unwrap();
    assert_eq!(fallback.pid, 50);
    assert!(resolve_responsible_identity(0, None, None).is_none());
    assert!(resolve_responsible_identity(-3, Some(9), None).is_none());
}

#[test]
fn zero_frame_capture_is_empty() {
    let mut r = Router::new(8, 8);
    r.join(1, 10);
    let out = r.capture_read(0, 0);
    assert!(out.is_empty());
}

#[test]
fn leave_matches_on_client_id_not_pid() {
    let mut r = Router::new(16, 8);
    r.join(5, 100);
    // The pid is not consulted: a leave for the right client id clears the
    // slot even under a mismatched pid.
    r.leave(5, 999);
    assert!(r.snapshot().is_empty());
}
