use camstream::fanout::BroadcastState;
use camstream::h264::H264NalUnit;
use camstream::registry::{SinkKind, SinkRegistry};

fn sps() -> H264NalUnit {
    H264NalUnit::new(vec![0, 0, 1, 0x67, 0x64])
}

fn pps() -> H264NalUnit {
    H264NalUnit::new(vec![0, 0, 1, 0x68, 0xEE])
}

fn keyframe(tag: u8) -> H264NalUnit {
    H264NalUnit::new(vec![0, 0, 1, 0x65, tag])
}

fn frame(tag: u8) -> H264NalUnit {
    H264NalUnit::new(vec![0, 0, 1, 0x41, tag])
}

/// Run one full fan-out pass; returns the planned writes (empty when the
/// unit was a parameter set and was not forwarded).
fn pass(
    bs: &mut BroadcastState,
    reg: &mut SinkRegistry,
    unit: H264NalUnit,
    ok: Vec<bool>,
) -> Vec<(String, Vec<u8>, bool)> {
    match bs.accept_unit(unit) {
        Some(u) => {
            let cmds = bs.plan_writes(reg, &u);
            let out = cmds.into_iter().map(|c| (c.key, c.bytes, c.bundle)).collect();
            bs.complete_unit(reg, u, &ok);
            out
        }
        None => Vec::new(),
    }
}

#[test]
fn parameter_sets_are_cached_not_forwarded() {
    let mut bs = BroadcastState::new();
    let mut reg = SinkRegistry::new();
    reg.register("A".to_string(), SinkKind::Network);
    assert!(!bs.has_sps());
    assert_eq!(pass(&mut bs, &mut reg, sps(), vec![]).len(), 0);
    assert_eq!(pass(&mut bs, &mut reg, pps(), vec![]).len(), 0);
    assert!(bs.has_sps());
    assert!(bs.has_pps());
    assert_eq!(bs.backlog_len(), 0);
}

#[test]
fn first_write_is_one_self_contained_bundle() {
    // A sink registered before the first unit receives parameter sets,
    // the (empty) backlog and the unit as a single write.
    let mut bs = BroadcastState::new();
    let mut reg = SinkRegistry::new();
    reg.register("A".to_string(), SinkKind::Network);
    pass(&mut bs, &mut reg, sps(), vec![]);
    pass(&mut bs, &mut reg, pps(), vec![]);
    let writes = pass(&mut bs, &mut reg, frame(1), vec![true]);
    assert_eq!(writes.len(), 1);
    let (key, bytes, bundle) = &writes[0];
    assert_eq!(key, "A");
    assert!(bundle);
    let mut expected = Vec::new();
    expected.extend(sps().raw_bytes);
    expected.extend(pps().raw_bytes);
    expected.extend(frame(1).raw_bytes);
    assert_eq!(bytes, &expected);
}

#[test]
fn known_sink_gets_raw_late_sink_gets_bundle() {
    // "A" is known; "B" registers after a keyframe.  On the next unit,
    // "A" receives exactly the unit's bytes while "B" receives
    // parameter sets, the backlog and the unit as one write.
    let mut bs = BroadcastState::new();
    let mut reg = SinkRegistry::new();
    reg.register("A".to_string(), SinkKind::Network);
    pass(&mut bs, &mut reg, sps(), vec![]);
    pass(&mut bs, &mut reg, pps(), vec![]);
    pass(&mut bs, &mut reg, frame(1), vec![true]);
    pass(&mut bs, &mut reg, keyframe(9), vec![true]);
    reg.register("B".to_string(), SinkKind::Network);

    let writes = pass(&mut bs, &mut reg, frame(2), vec![true, true]);
    assert_eq!(writes.len(), 2);

    let (a_key, a_bytes, a_bundle) = &writes[0];
    assert_eq!(a_key, "A");
    assert!(!a_bundle);
    assert_eq!(a_bytes, &frame(2).raw_bytes);

    let (b_key, b_bytes, b_bundle) = &writes[1];
    assert_eq!(b_key, "B");
    assert!(b_bundle);
    let mut expected = Vec::new();
    expected.extend(sps().raw_bytes);
    expected.extend(pps().raw_bytes);
    expected.extend(keyframe(9).raw_bytes); // the backlog since the keyframe
    expected.extend(frame(2).raw_bytes);
    assert_eq!(b_bytes, &expected);
}

#[test]
fn keyframe_clears_backlog_and_is_its_first_entry() {
    let mut bs = BroadcastState::new();
    let mut reg = SinkRegistry::new();
    pass(&mut bs, &mut reg, frame(1), vec![]);
    pass(&mut bs, &mut reg, frame(2), vec![]);
    assert_eq!(bs.backlog_len(), 2);
    pass(&mut bs, &mut reg, keyframe(3), vec![]);
    assert_eq!(bs.backlog_len(), 1);
    pass(&mut bs, &mut reg, frame(4), vec![]);
    assert_eq!(bs.backlog_len(), 2);
}

#[test]
fn failed_sink_is_evicted_and_rejoins_with_a_bundle() {
    let mut bs = BroadcastState::new();
    let mut reg = SinkRegistry::new();
    reg.register("A".to_string(), SinkKind::Network);
    reg.register("B".to_string(), SinkKind::Network);
    pass(&mut bs, &mut reg, frame(1), vec![true, true]);

    // B's write fails on the second unit.
    let writes = pass(&mut bs, &mut reg, frame(2), vec![true, false]);
    assert_eq!(writes.len(), 2);
    assert_eq!(reg.len(), 1);
    assert_eq!(reg.key_at(0), "A");

    // The next pass writes only to A; a re-registered B is no longer
    // known and receives a fresh bundle.
    reg.register("B".to_string(), SinkKind::Network);
    let writes = pass(&mut bs, &mut reg, frame(3), vec![true, true]);
    assert_eq!(writes.len(), 2);
    assert!(!writes[0].2, "A stays on raw units");
    assert!(writes[1].2, "B must be caught up again");
}

#[test]
fn backlog_is_cut_to_a_minimal_remainder_at_capacity() {
    // 1000 units without a keyframe fill the backlog to its capacity;
    // the next unit cuts it back instead of letting it grow.
    let mut bs = BroadcastState::new();
    let mut reg = SinkRegistry::new();
    for i in 0..1000u32 {
        pass(&mut bs, &mut reg, frame((i % 251) as u8), vec![]);
    }
    assert_eq!(bs.backlog_len(), 1000);
    pass(&mut bs, &mut reg, frame(7), vec![]);
    assert_eq!(bs.backlog_len(), 2);
    pass(&mut bs, &mut reg, frame(8), vec![]);
    assert_eq!(bs.backlog_len(), 3);
}

#[test]
fn registry_keys_are_unique_and_probes_are_not_demand() {
    let mut reg = SinkRegistry::new();
    assert!(!reg.has_consumers());
    reg.register("probe".to_string(), SinkKind::Probe);
    assert_eq!(reg.len(), 1);
    assert!(!reg.has_consumers(), "a probe is not a real consumer");
    reg.register("A".to_string(), SinkKind::Network);
    assert_eq!(reg.consumer_count(), 1);
    reg.register("A".to_string(), SinkKind::Pipe);
    assert_eq!(reg.len(), 2, "re-registering replaces, not duplicates");
    assert_eq!(reg.consumer_count(), 1);
    reg.remove(&"A".to_string());
    assert_eq!(reg.len(), 1);
    assert!(!reg.has_consumers());
}

#[test]
fn newer_parameter_sets_replace_older_ones() {
    let mut bs = BroadcastState::new();
    let mut reg = SinkRegistry::new();
    let old_sps = H264NalUnit::new(vec![0, 0, 1, 0x67, 0x01]);
    let new_sps = H264NalUnit::new(vec![0, 0, 1, 0x67, 0x02]);
    pass(&mut bs, &mut reg, old_sps, vec![]);
    pass(&mut bs, &mut reg, pps(), vec![]);
    pass(&mut bs, &mut reg, new_sps.clone(), vec![]);

    reg.register("A".to_string(), SinkKind::Network);
    let writes = pass(&mut bs, &mut reg, frame(1), vec![true]);
    let mut expected = Vec::new();
    expected.extend(new_sps.raw_bytes);
    expected.extend(pps().raw_bytes);
    expected.extend(frame(1).raw_bytes);
    assert_eq!(writes[0].1, expected, "the bundle carries the newest parameter sets");
}

#[test]
fn eviction_of_one_sink_leaves_the_others_in_order() {
    let mut bs = BroadcastState::new();
    let mut reg = SinkRegistry::new();
    reg.register("A".to_string(), SinkKind::Network);
    reg.register("B".to_string(), SinkKind::Network);
    reg.register("C".to_string(), SinkKind::Network);
    pass(&mut bs, &mut reg, frame(1), vec![true, false, true]);
    assert_eq!(reg.len(), 2);
    assert_eq!(reg.key_at(0), "A");
    assert_eq!(reg.key_at(1), "C");
}
