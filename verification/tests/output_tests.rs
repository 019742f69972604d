use orbit_audio::retirement::LineRetirement;
use orbit_audio::lines::{
    decode_bus_routing_sentinel, default_bus_line_ops, default_master_line_ops, legacy_line_ops,
    advance_block_transport, bus_target_positions, ops_with_all_outputs_thru, ops_with_output_target,
    ops_with_sends, collect_source_feeds, mark_render_targets,
    rendered_unit_count, source_feed_route, validate_bus_topology, BlockTransport, FeedRoute, validate_line_program, validate_source_slots, BusSend, BusStageLine, BusTarget, LineOp, LineOutput,
    LineProgram, OutputDest, SourceDest, SourceDestCell, UNITY_GAIN_BITS,
};
use orbit_audio::output::{
    after_dead_probe, channel_egress_active, confirm_callback_step, resolve_device_choice, CallbackConfirmation,
    FIRST_CALLBACK_POLL_US, resolve_requested_device_name,
    scan_device_names, validate_expected_sample_rate, DeviceChoice, DeviceFallbackPolicy, OutputError, OutputFault,
    StreamBuildStage,
};
use orbit_audio::stream_stats::{
    CallbackTimeStats, StreamErrorKind, StreamStats, BUCKET_NS, HIST_BUCKETS,
};

#[test]
fn resolve_requested_device_name_none_when_not_requested() {
    let available = vec!["Built-in Output".to_string(), "USB Audio".to_string()];
    assert_eq!(resolve_requested_device_name(None, &available), None);
}

#[test]
fn resolve_requested_device_name_exact_match() {
    let available = vec!["Built-in Output".to_string(), "USB Audio".to_string()];
    assert_eq!(
        resolve_requested_device_name(Some("USB Audio"), &available),
        Some("USB Audio".to_string())
    );
}

#[test]
fn resolve_requested_device_name_falls_back_when_absent() {
    let available = vec!["Built-in Output".to_string()];
    assert_eq!(
        resolve_requested_device_name(Some("Nonexistent Device"), &available),
        None
    );
}

#[test]
fn resolve_requested_device_name_is_case_sensitive() {
    let available = vec!["USB Audio".to_string()];
    assert_eq!(
        resolve_requested_device_name(Some("usb audio"), &available),
        None
    );
}

#[test]
fn sample_rate_mismatch_reports_device_and_both_rates() {
    let error = validate_expected_sample_rate("USB Audio", 44_100, Some(48_000))
        .expect_err("a live switch must reject a different nominal rate");
    assert!(matches!(
        error,
        OutputError::SampleRateMismatch {
            ref device,
            device_rate: 44_100,
            engine_rate: 48_000,
        } if device == "USB Audio"
    ));
    validate_expected_sample_rate("USB Audio", 48_000, Some(48_000))
        .expect("equal rates are accepted");
    validate_expected_sample_rate("USB Audio", 44_100, None)
        .expect("startup accepts the selected device rate");
}

#[test]
fn stream_stats_starts_at_zero() {
    let stats = StreamStats::default();
    let snap = stats.snapshot();
    assert_eq!(snap.xruns, 0);
    assert_eq!(snap.buffer_underruns, 0);
    assert!(!snap.device_lost);
    assert_eq!(snap.callbacks, 0);
    assert_eq!(snap.last_frames, 0);
}

#[test]
fn record_xrun_increments_only_xruns() {
    let mut stats = StreamStats::default();
    stats.record_xrun();
    stats.record_xrun();
    stats.record_xrun();
    let snap = stats.snapshot();
    assert_eq!(snap.xruns, 3);
    assert_eq!(snap.buffer_underruns, 0);
    assert!(!snap.device_lost);
}

#[test]
fn snapshot_is_monotonic() {
    let mut stats = StreamStats::default();
    let s1 = stats.snapshot();
    stats.record_xrun();
    let s2 = stats.snapshot();
    assert!(s2.xruns > s1.xruns);
}

#[test]
fn record_device_lost_sets_flag() {
    let mut stats = StreamStats::default();
    assert!(!stats.snapshot().device_lost);
    stats.record_device_lost();
    assert!(stats.snapshot().device_lost);
}

#[test]
fn device_lost_and_xrun_are_independent() {
    let mut stats = StreamStats::default();
    stats.record_xrun();
    let after_xrun = stats.snapshot();
    assert_eq!(after_xrun.xruns, 1);
    assert!(!after_xrun.device_lost);

    stats.record_device_lost();
    let after_lost = stats.snapshot();
    assert_eq!(
        after_lost.xruns, 1,
        "record_device_lost must not touch xruns"
    );
    assert!(after_lost.device_lost);
}

#[test]
fn record_error_dispatches_device_not_available_as_device_lost() {
    let mut stats = StreamStats::default();
    stats.record_error(StreamErrorKind::DeviceNotAvailable);
    let snap = stats.snapshot();
    assert!(snap.device_lost);
    assert_eq!(snap.xruns, 0);
}

#[test]
fn record_error_dispatches_backend_specific_as_xrun() {
    let mut stats = StreamStats::default();
    stats.record_error(StreamErrorKind::BackendSpecific);
    let snap = stats.snapshot();
    assert!(!snap.device_lost);
    assert_eq!(snap.xruns, 1);
}

#[test]
fn callback_and_contention_counters() {
    let mut stats = StreamStats::default();
    stats.record_callback(512);
    stats.record_callback(256);
    stats.record_render_contention();
    let snap = stats.snapshot();
    assert_eq!(snap.callbacks, 2);
    assert_eq!(snap.last_frames, 256);
    assert_eq!(snap.render_contentions, 1);
    assert_eq!(snap.xruns, 0);
}

#[test]
fn channel_egress_active_requires_ready_and_sized_scratch() {
    assert!(channel_egress_active(true, 512, 512));
    assert!(channel_egress_active(true, 1024, 512));
    assert!(!channel_egress_active(false, 1024, 512));
    assert!(!channel_egress_active(true, 256, 512));
    assert!(!channel_egress_active(false, 0, 512));
}

#[test]
fn p99_none_when_no_callbacks() {
    let s = CallbackTimeStats::new();
    assert_eq!(s.p99_ns(), None);
    let snap = s.snapshot();
    assert_eq!(snap.callback_count, 0);
    assert_eq!(snap.min_ns, 0);
    assert_eq!(snap.mean_ns, 0);
}

#[test]
fn record_updates_min_max_mean() {
    let mut s = CallbackTimeStats::new();
    s.record(100_000);
    s.record(300_000);
    let snap = s.snapshot();
    assert_eq!(snap.callback_count, 2);
    assert_eq!(snap.min_ns, 100_000);
    assert_eq!(snap.max_ns, 300_000);
    assert_eq!(snap.mean_ns, 200_000);
}

#[test]
fn p99_crosses_into_tail_bucket() {
    let mut s = CallbackTimeStats::new();
    for _ in 0..99 {
        s.record(2 * BUCKET_NS + 1_000);
    }
    s.record(10 * BUCKET_NS + 1_000);
    assert_eq!(s.p99_ns(), Some(2 * BUCKET_NS));
}

#[test]
fn p99_saturates_to_overflow_bucket() {
    let mut s = CallbackTimeStats::new();
    s.record(60_000_000);
    assert_eq!(s.p99_ns(), Some((HIST_BUCKETS - 1) as u64 * BUCKET_NS));
}

#[test]
fn p99_reaches_the_last_callback_when_fewer_than_a_hundred() {
    let mut s = CallbackTimeStats::new();
    for _ in 0..9 {
        s.record(1_000);
    }
    s.record(5 * BUCKET_NS);
    assert_eq!(s.p99_ns(), Some(5 * BUCKET_NS));
    assert_eq!(s.snapshot().p99_ns, 5 * BUCKET_NS);
}

#[test]
fn output_fault_suppresses_only_the_real_stream() {
    assert!(OutputFault::DeadRealStream.suppresses_real_callback(StreamBuildStage::Startup));
    assert!(OutputFault::DeadRealStream.suppresses_real_callback(StreamBuildStage::Switch));
    assert!(!OutputFault::DeadRealStreamOnSwitch.suppresses_real_callback(StreamBuildStage::Startup));
    assert!(OutputFault::DeadRealStreamOnSwitch.suppresses_real_callback(StreamBuildStage::Switch));
    assert!(!OutputFault::DeadAllProbes.suppresses_real_callback(StreamBuildStage::Switch));
    assert!(!OutputFault::default().suppresses_real_callback(StreamBuildStage::Switch));
}

#[test]
fn device_choice_without_request_uses_the_host_default() {
    let names = vec!["A".to_string()];
    assert!(matches!(
        resolve_device_choice(None, &names, None, DeviceFallbackPolicy::RejectAndKeepCurrent),
        Ok(DeviceChoice::HostDefault { fallback: None })
    ));
}

#[test]
fn device_choice_uses_a_matched_output_device() {
    let names: Vec<String> = Vec::new();
    assert!(matches!(
        resolve_device_choice(Some("USB"), &names, Some(true), DeviceFallbackPolicy::RejectAndKeepCurrent),
        Ok(DeviceChoice::Requested)
    ));
}

#[test]
fn device_choice_missing_device_falls_back_with_the_available_names() {
    let names = vec!["Built-in Output".to_string(), "HDMI".to_string()];
    match resolve_device_choice(Some("USB"), &names, None, DeviceFallbackPolicy::FallBackToHostDefault) {
        Ok(DeviceChoice::HostDefault { fallback: Some(fallback) }) => {
            assert_eq!(fallback.requested, "USB");
            assert_eq!(
                fallback.reason,
                "requested device \"USB\" not found (available: [\"Built-in Output\", \"HDMI\"]) — falling back to system default output"
            );
        }
        other => panic!("unexpected choice: {other:?}"),
    }
}

#[test]
fn device_choice_missing_device_is_refused_on_a_live_switch() {
    let names = vec!["HDMI".to_string()];
    match resolve_device_choice(Some("USB"), &names, None, DeviceFallbackPolicy::RejectAndKeepCurrent) {
        Err(OutputError::DeviceUnavailable { requested, reason }) => {
            assert_eq!(requested, "USB");
            assert_eq!(reason, "not found (available: [\"HDMI\"])");
        }
        other => panic!("unexpected choice: {other:?}"),
    }
}

#[test]
fn device_choice_input_only_device_falls_back_or_is_refused() {
    let names: Vec<String> = Vec::new();
    match resolve_device_choice(Some("Mic"), &names, Some(false), DeviceFallbackPolicy::FallBackToHostDefault) {
        Ok(DeviceChoice::HostDefault { fallback: Some(fallback) }) => {
            assert_eq!(
                fallback.reason,
                "requested device \"Mic\" is not an output device — falling back to system default output"
            );
        }
        other => panic!("unexpected choice: {other:?}"),
    }
    match resolve_device_choice(Some("Mic"), &names, Some(false), DeviceFallbackPolicy::RejectAndKeepCurrent) {
        Err(OutputError::DeviceUnavailable { reason, .. }) => assert_eq!(reason, "not an output device"),
        other => panic!("unexpected choice: {other:?}"),
    }
}

#[test]
fn source_dest_cell_roundtrips_every_destination_and_defaults_invalid_values() {
    let mut cell = SourceDestCell::default();
    assert_eq!(cell.load(), SourceDest::Silence);
    for dest in [
        SourceDest::Master,
        SourceDest::Bus(0),
        SourceDest::Bus(63),
        SourceDest::Link(0),
        SourceDest::Link(63),
        SourceDest::Silence,
    ] {
        cell.store(dest);
        assert_eq!(cell.load(), dest);
    }
    cell.store(SourceDest::Bus(64));
    assert_eq!(cell.load(), SourceDest::Silence);
    cell.store(SourceDest::Link(64));
    assert_eq!(cell.load(), SourceDest::Silence);
    assert_eq!(SourceDestCell::decode(10_000), SourceDest::Silence);
    assert_eq!(SourceDestCell::new(SourceDest::Bus(3)).load(), SourceDest::Bus(3));
}

#[test]
fn bus_routing_sentinel_decodes_override_master_and_bus() {
    assert_eq!(decode_bus_routing_sentinel(0), None);
    assert_eq!(decode_bus_routing_sentinel(1), Some(BusTarget::Master));
    assert_eq!(decode_bus_routing_sentinel(2), Some(BusTarget::Bus(0)));
    assert_eq!(decode_bus_routing_sentinel(9), Some(BusTarget::Bus(7)));
}

#[test]
fn legacy_line_ops_chain_the_sends_after_the_output() {
    let half = 0.5f32.to_bits();
    let sends = [BusSend { target: 2, gain_bits: half }, BusSend { target: 3, gain_bits: UNITY_GAIN_BITS }];
    let ops = legacy_line_ops(BusTarget::Bus(1), &sends);
    assert_eq!(
        ops,
        vec![
            LineOp::Rack,
            LineOp::Output(LineOutput { dest: OutputDest::Bus(1), thru: true, gain_bits: 1.0f32.to_bits() }),
            LineOp::Output(LineOutput { dest: OutputDest::Bus(2), thru: true, gain_bits: half }),
            LineOp::Output(LineOutput { dest: OutputDest::Bus(3), thru: false, gain_bits: UNITY_GAIN_BITS }),
        ]
    );
    let plain = legacy_line_ops(BusTarget::Master, &[]);
    assert_eq!(
        plain,
        vec![
            LineOp::Rack,
            LineOp::Output(LineOutput { dest: OutputDest::Master, thru: false, gain_bits: UNITY_GAIN_BITS }),
        ]
    );
}

#[test]
fn default_line_programs() {
    assert_eq!(default_bus_line_ops(), vec![LineOp::Rack]);
    let stereo = default_master_line_ops(2);
    assert_eq!(
        stereo[2],
        LineOp::Output(LineOutput {
            dest: OutputDest::Device { left: 0, right: Some(1) },
            thru: false,
            gain_bits: UNITY_GAIN_BITS
        })
    );
    let mono = default_master_line_ops(1);
    assert_eq!(
        mono[2],
        LineOp::Output(LineOutput { dest: OutputDest::Device { left: 0, right: None }, thru: false, gain_bits: UNITY_GAIN_BITS })
    );
    assert_eq!(mono[1], LineOp::Gain(1.0f32.to_bits()));
}

#[test]
fn line_program_rejects_non_forward_bus_output_during_topology_validation() {
    let program = LineProgram::settled(vec![
        LineOp::Rack,
        LineOp::Output(LineOutput { dest: OutputDest::Bus(1), thru: false, gain_bits: UNITY_GAIN_BITS }),
    ]);
    match validate_line_program(&program, 1, 3) {
        Err(OutputError::NoConfig(message)) => {
            assert_eq!(message, "insert bus index 1 output Bus(1) must be a later stage")
        }
        other => panic!("unexpected result: {other:?}"),
    }
    assert!(validate_line_program(&program, 0, 3).is_ok());
    assert!(validate_line_program(&program, 0, 1).is_err());
}

#[test]
fn line_program_install_rejects_unwired_render_destination() {
    let program = LineProgram::new(vec![LineOp::Output(LineOutput { dest: OutputDest::Render(0), thru: false, gain_bits: UNITY_GAIN_BITS })]);
    match validate_line_program(&program, 0, 1) {
        Err(OutputError::NoConfig(message)) => assert!(message.contains("Render is not wired")),
        other => panic!("unexpected result: {other:?}"),
    }
}

#[test]
fn line_program_install_rejects_unwired_link_destination() {
    let program = LineProgram::new(vec![LineOp::Output(LineOutput { dest: OutputDest::Link(0), thru: false, gain_bits: UNITY_GAIN_BITS })]);
    match validate_line_program(&program, 0, 1) {
        Err(OutputError::NoConfig(message)) => assert!(message.contains("Link is not wired")),
        other => panic!("unexpected result: {other:?}"),
    }
}

#[test]
fn line_program_shape_mismatch_is_reported() {
    let program = LineProgram::with_seeds(vec![LineOp::Rack, LineOp::Rack], vec![UNITY_GAIN_BITS]);
    match validate_line_program(&program, 0, 1) {
        Err(OutputError::NoConfig(message)) => assert_eq!(message, "line program has 2 ops but 1 gain cells"),
        other => panic!("unexpected result: {other:?}"),
    }
}

#[test]
fn settled_program_starts_at_every_target() {
    let half = 0.5f32.to_bits();
    let program = LineProgram::settled(vec![LineOp::Rack, LineOp::Gain(half), LineOp::Pan(7)]);
    assert_eq!(program.current_gain, vec![UNITY_GAIN_BITS, half, 7]);
    let fresh = LineProgram::new(vec![LineOp::Gain(half)]);
    assert_eq!(fresh.current_gain, vec![UNITY_GAIN_BITS]);
}

#[test]
fn source_slot_limits_are_enforced() {
    assert!(validate_source_slots(&[16, 0, 3]).is_ok());
    match validate_source_slots(&[1, 17]) {
        Err(OutputError::NoConfig(message)) => {
            assert_eq!(message, "source slot 1 has too many output units: 17 (max 16)")
        }
        other => panic!("unexpected result: {other:?}"),
    }
    let too_many = vec![0usize; 33];
    match validate_source_slots(&too_many) {
        Err(OutputError::NoConfig(message)) => assert_eq!(message, "too many source slots: 33 (max 32)"),
        other => panic!("unexpected result: {other:?}"),
    }
}

fn stage(name: &str, program: LineProgram) -> BusStageLine {
    BusStageLine { name: name.to_string(), program: Some(program) }
}

fn explicit_master_with_target(name: &str, target: BusTarget) -> BusStageLine {
    stage(name, LineProgram::legacy(target, &[]))
}

fn default_stage(name: &str) -> BusStageLine {
    stage(name, LineProgram::settled(default_bus_line_ops()))
}

#[test]
fn invalid_forward_reference_rejected() {
    let self_ref = vec![explicit_master_with_target("a", BusTarget::Bus(0))];
    assert!(validate_bus_topology(&self_ref).is_err());

    let backward_ref = vec![explicit_master_with_target("a", BusTarget::Bus(0)), default_stage("b")];
    assert!(validate_bus_topology(&backward_ref).is_err());

    let half_gain = 0.5f32.to_bits();
    let bad_send = vec![stage(
        "a",
        LineProgram::legacy(BusTarget::Master, &[BusSend { target: 0, gain_bits: half_gain }]),
    )];
    assert!(validate_bus_topology(&bad_send).is_err());

    let ok = vec![explicit_master_with_target("a", BusTarget::Bus(1)), default_stage("b")];
    assert!(validate_bus_topology(&ok).is_ok());
}

#[test]
fn bus_topology_error_names_the_stage() {
    let stages = vec![default_stage("first"), explicit_master_with_target("second", BusTarget::Bus(1))];
    match validate_bus_topology(&stages) {
        Err(OutputError::NoConfig(message)) => assert_eq!(
            message,
            "insert bus 'second': no supported output config: insert bus index 1 output Bus(1) must be a later stage"
        ),
        other => panic!("unexpected result: {other:?}"),
    }
    let missing = vec![BusStageLine { name: "x".to_string(), program: None }];
    match validate_bus_topology(&missing) {
        Err(OutputError::NoConfig(message)) => assert_eq!(message, "insert bus 'x' has no line program"),
        other => panic!("unexpected result: {other:?}"),
    }
    assert!(validate_bus_topology(&[]).is_ok());
}

#[test]
fn first_callback_confirmation_observes_baseline_and_deadline_boundaries() {
    assert_eq!(
        confirm_callback_step(7, 6, 0, 0),
        CallbackConfirmation::Confirmed(0),
        "an already-observed callback wins even at the deadline"
    );
    assert_eq!(
        confirm_callback_step(7, 7, 0, 0),
        CallbackConfirmation::Expired,
        "an unchanged counter is dead at the deadline"
    );
}

#[test]
fn callback_wait_sleeps_one_poll_or_up_to_the_deadline() {
    assert_eq!(confirm_callback_step(0, 0, 0, 3_000_000), CallbackConfirmation::Wait(FIRST_CALLBACK_POLL_US));
    assert_eq!(confirm_callback_step(0, 0, 2_996_000, 3_000_000), CallbackConfirmation::Wait(4_000));
    assert_eq!(confirm_callback_step(1, 0, 2_345_678, 3_000_000), CallbackConfirmation::Confirmed(2_345));
    assert_eq!(confirm_callback_step(0, 0, 3_000_001, 3_000_000), CallbackConfirmation::Expired);
}

fn out(dest: OutputDest, thru: bool) -> LineOp {
    LineOp::Output(LineOutput { dest, thru, gain_bits: UNITY_GAIN_BITS })
}

#[test]
fn inactive_sum_target_still_receives_member_output() {
    let programs = vec![
        LineProgram::settled(vec![LineOp::Rack, out(OutputDest::Bus(1), false)]),
        LineProgram::settled(vec![LineOp::Rack, out(OutputDest::Master, false)]),
    ];
    let targets = mark_render_targets(&[true, false], &programs, &[None, None], &[vec![false], vec![]]);
    assert_eq!(targets.to_vec(), vec![true, true]);
}

fn marking_programs(thru: bool) -> Vec<LineProgram> {
    vec![
        LineProgram::settled(vec![LineOp::Rack, out(OutputDest::Master, thru), out(OutputDest::Bus(1), false)]),
        LineProgram::settled(default_bus_line_ops()),
    ]
}

#[test]
fn marking_stops_before_bus_output_after_thru_false() {
    let stopped = mark_render_targets(&[true, false], &marking_programs(false), &[None, None], &[vec![], vec![]]);
    assert_eq!(stopped.to_vec(), vec![true, false], "an unreachable bus output must not mark the later bus");
}

#[test]
fn marking_reaches_bus_output_after_thru_true() {
    let reached = mark_render_targets(&[true, false], &marking_programs(true), &[None, None], &[vec![], vec![]]);
    assert_eq!(reached.to_vec(), vec![true, true], "a reachable bus output marks the later bus");
}

#[test]
fn legacy_override_redirects_the_first_output_and_sends_mark_when_the_line_runs_through() {
    let programs = vec![
        LineProgram::settled(vec![LineOp::Rack, out(OutputDest::Master, true)]),
        LineProgram::settled(default_bus_line_ops()),
        LineProgram::settled(default_bus_line_ops()),
    ];
    let redirected = mark_render_targets(
        &[true, false, false],
        &programs,
        &[Some(OutputDest::Bus(2)), None, None],
        &[vec![false, false], vec![], vec![]],
    );
    assert_eq!(redirected.to_vec(), vec![true, false, true]);
    let sent = mark_render_targets(&[true, false, false], &programs, &[None, None, None], &[vec![true, false], vec![], vec![]]);
    assert_eq!(sent.to_vec(), vec![true, true, false]);
    let inactive_sender = mark_render_targets(&[false, false, false], &programs, &[None, None, None], &[vec![true, true], vec![], vec![]]);
    assert_eq!(inactive_sender.to_vec(), vec![false, false, false]);
}

fn cells(dests: &[SourceDest]) -> Vec<SourceDestCell> {
    dests.iter().map(|d| SourceDestCell::new(*d)).collect()
}

#[test]
fn every_reported_unit_contributes_a_feed() {
    let dests = vec![cells(&[SourceDest::Master, SourceDest::Master, SourceDest::Master])];
    let rendered = vec![rendered_unit_count(3, 3)];
    assert_eq!(rendered, vec![3]);
    let feeds = collect_source_feeds(&dests, &rendered, &[]);
    assert_eq!(
        feeds.to_vec(),
        vec![(0, 0, FeedRoute::Hardware), (0, 1, FeedRoute::Hardware), (0, 2, FeedRoute::Hardware)]
    );
}

#[test]
fn none_source_is_rendered_but_does_not_publish_a_feed() {
    let mut cell = SourceDestCell::new(SourceDest::Master);
    cell.store(SourceDest::Silence);
    let feeds = collect_source_feeds(&[vec![cell]], &[1], &[]);
    assert!(feeds.is_empty());
}

#[test]
fn unregistered_source_bus_is_silent_for_the_whole_block() {
    let positions = bus_target_positions(&[]);
    assert_eq!(source_feed_route(SourceDest::Bus(7), &positions), FeedRoute::Discard);
    let feeds = collect_source_feeds(&[cells(&[SourceDest::Bus(7)])], &[1], &positions);
    assert!(feeds.is_empty());
    let registered = bus_target_positions(&[true]);
    assert_eq!(source_feed_route(SourceDest::Bus(0), &registered), FeedRoute::Channel(0));
    assert_eq!(source_feed_route(SourceDest::Master, &registered), FeedRoute::Hardware);
}

#[test]
fn unwired_link_source_is_silent_for_the_whole_block() {
    let positions = bus_target_positions(&[true]);
    assert_eq!(source_feed_route(SourceDest::Link(0), &positions), FeedRoute::Discard);
    let feeds = collect_source_feeds(&[cells(&[SourceDest::Link(0)])], &[1], &positions);
    assert!(feeds.is_empty());
}

#[test]
fn registered_source_bus_resolves_through_position_map_and_insert() {
    let positions = bus_target_positions(&[false, true, false, true]);
    assert_eq!(positions.to_vec(), vec![None, Some(0), None, Some(1)]);
    let dests = vec![
        cells(&[SourceDest::Bus(3), SourceDest::Bus(0)]),
        cells(&[SourceDest::Bus(1), SourceDest::Link(2), SourceDest::Master]),
    ];
    let feeds = collect_source_feeds(&dests, &[2, 3], &positions);
    assert_eq!(feeds.to_vec(), vec![(0, 0, FeedRoute::Channel(1)), (1, 0, FeedRoute::Channel(0)), (1, 2, FeedRoute::Hardware)]);
    assert_eq!(collect_source_feeds(&dests, &[1], &positions).to_vec(), vec![(0, 0, FeedRoute::Channel(1))]);
}

#[test]
fn rendered_units_are_clamped_to_the_limit_and_the_destinations() {
    assert_eq!(rendered_unit_count(20, 32), 16);
    assert_eq!(rendered_unit_count(5, 2), 2);
    assert_eq!(rendered_unit_count(1, 4), 1);
}

#[test]
fn source_transport_cursor_advances_by_the_block_length_every_callback() {
    let mut transport = BlockTransport { cursor_frames: 0, sample_rate: 48_000 };
    advance_block_transport(&mut transport, 4);
    advance_block_transport(&mut transport, 6);
    assert_eq!(transport.cursor_frames, 10);
    assert_eq!(transport.sample_rate, 48_000);
    transport.cursor_frames = u64::MAX - 1;
    advance_block_transport(&mut transport, 6);
    assert_eq!(transport.cursor_frames, u64::MAX);
}

#[test]
fn probe_suppression_follows_the_injected_fault() {
    assert!(OutputFault::DeadAllProbes.suppresses_probe_callback(false));
    assert!(OutputFault::DeadAllProbes.suppresses_probe_callback(true));
    assert!(OutputFault::DeadProbeRequested.suppresses_probe_callback(true));
    assert!(!OutputFault::DeadProbeRequested.suppresses_probe_callback(false));
    assert!(!OutputFault::DeadRealStream.suppresses_probe_callback(true));
    assert!(!OutputFault::NoFault.suppresses_probe_callback(true));
}

#[test]
fn dead_requested_probe_falls_back_only_when_allowed() {
    match after_dead_probe(Some("USB Audio"), DeviceFallbackPolicy::FallBackToHostDefault, "USB Audio") {
        Ok(fallback) => {
            assert_eq!(fallback.requested, "USB Audio");
            assert_eq!(
                fallback.reason,
                "requested device \"USB Audio\" produced no callback within 3000 ms — falling back to system default output"
            );
        }
        other => panic!("unexpected result: {other:?}"),
    }
    assert!(matches!(
        after_dead_probe(Some("USB Audio"), DeviceFallbackPolicy::RejectAndKeepCurrent, "USB Audio"),
        Err(OutputError::StreamDead { waited_ms: 3000, .. })
    ));
    match after_dead_probe(None, DeviceFallbackPolicy::FallBackToHostDefault, "Built-in Output") {
        Err(OutputError::StreamDead { device, waited_ms, .. }) => {
            assert_eq!(device, "Built-in Output");
            assert_eq!(waited_ms, 3000);
        }
        other => panic!("unexpected result: {other:?}"),
    }
}

#[test]
fn retired_line_program_survives_an_in_flight_rt_read() {
    let mut retirement: LineRetirement<&str> = LineRetirement::new();
    retirement.retire("p0", 0);
    retirement.retire("p1", 1);
    let held: Vec<(&str, u64)> = retirement.retired.iter().map(|e| (e.program, e.retired_at_generation)).collect();
    assert_eq!(held, vec![("p0", 2), ("p1", 3)]);
    retirement.retire("p2", 2);
    let held: Vec<(&str, u64)> = retirement.retired.iter().map(|e| (e.program, e.retired_at_generation)).collect();
    assert_eq!(held, vec![("p1", 3), ("p2", 4)]);
    retirement.retire("p3", u64::MAX);
    let held: Vec<(&str, u64)> = retirement.retired.iter().map(|e| (e.program, e.retired_at_generation)).collect();
    assert_eq!(held, vec![("p3", u64::MAX)]);
}

#[test]
fn legacy_output_target_and_sends_match_line_program_bit_for_bit() {
    let master = legacy_line_ops(BusTarget::Master, &[]);
    assert_eq!(ops_with_output_target(&master, BusTarget::Bus(1)), legacy_line_ops(BusTarget::Bus(1), &[]));
    assert_eq!(ops_with_output_target(&default_bus_line_ops(), BusTarget::Bus(1)), default_bus_line_ops());

    let sends = [BusSend { target: 2, gain_bits: 0.5f32.to_bits() }, BusSend { target: 3, gain_bits: UNITY_GAIN_BITS }];
    assert_eq!(ops_with_sends(&master, &sends), legacy_line_ops(BusTarget::Master, &sends));
    let with_sends = legacy_line_ops(BusTarget::Bus(1), &sends);
    assert_eq!(ops_with_sends(&with_sends, &[]), legacy_line_ops(BusTarget::Bus(1), &[]));

    let thru = ops_with_all_outputs_thru(&with_sends);
    assert_eq!(thru.len(), with_sends.len());
    assert!(thru.iter().all(|op| match op {
        LineOp::Output(o) => o.thru,
        _ => true,
    }));
    assert_eq!(thru[0], LineOp::Rack);
}

#[test]
fn device_scan_stops_at_the_first_exact_name_and_skips_unreadable_ones() {
    let names = vec![
        Some("Built-in".to_string()),
        None,
        Some("USB Interface".to_string()),
        Some("USB".to_string()),
        Some("USB".to_string()),
    ];
    let (matched, available) = scan_device_names(&names, "USB");
    assert_eq!(matched, Some(3));
    assert_eq!(available, vec!["Built-in".to_string(), "USB Interface".to_string()]);
    let (missing, all) = scan_device_names(&names, "usb");
    assert_eq!(missing, None);
    assert_eq!(all.len(), 4);
    let (none, empty) = scan_device_names(&[], "USB");
    assert_eq!(none, None);
    assert!(empty.is_empty());
}

#[test]
fn output_failures_read_as_messages() {
    assert_eq!(OutputError::NoDevice.message(), "no default output device found");
    let mismatch = OutputError::SampleRateMismatch { device: "USB".to_string(), device_rate: 44100, engine_rate: 48000 };
    assert_eq!(
        mismatch.message(),
        "audio output device \"USB\" uses 44100 Hz, but the running engine uses 48000 Hz; restart the engine to change sample rate"
    );
    let both = OutputError::SwitchRecoveryFailed {
        primary: Box::new(OutputError::BuildStream("busy".to_string())),
        resume: Box::new(OutputError::PlayStream("gone".to_string())),
    };
    assert_eq!(
        both.message(),
        "cpal build stream error: busy; additionally failed to resume the old audio stream: cpal play stream error: gone"
    );
}
