use orbit_audio::cstr::{read_cstr_field, write_cstr_field};
use orbit_audio::event_ring::{
    increment_dirty_epoch, EventHandler, EventPollOutcome, FnHandler, EventRingChild, EventRingChildError,
    EventRingEvent, EventRingHost, EventRingHostError, EVT_ARG_FALLBACK,
};
use orbit_audio::layout::{
    slot_offset, APPLY_CHAIN_MAILBOX_TIMEOUT_MS, CHILD_FLAG_HAS_AUDIO_INPUT, CHILD_STATUS_READY,
    CHILD_STATUS_STARTING, CMD_APPLY_CHAIN, CMD_ARG_BYTES, CMD_CLOSE_UI, CMD_NONE, CMD_OPEN_UI,
    CMD_RESULT_BAD_ARG, CMD_RESULT_CHILD_EXITED, CMD_RESULT_IO_ERROR, CMD_RESULT_OK,
    CMD_RESULT_PLUGIN_ERROR, CMD_RESULT_UNKNOWN_KIND, CMD_SAVE_STATE, CMD_SAVE_STATE_AT,
    CONTROL_QUIT, CONTROL_RUN, EVT_UI_CLOSED, EVT_UI_CLOSED_DONE, OPEN_UI_MAILBOX_TIMEOUT_MS,
    PLUGIN_STATE_MAILBOX_TIMEOUT_MS, SLOTS,
};
use orbit_audio::mailbox::{
    save_state_command, service_command_mailbox, CommandMailboxError, CommandMailboxHost,
    CommandOutcome, IssueStep,
};
use orbit_audio::shared::{publish_child_ready, reset_child_starting, reset_control_run, SharedControl};
use orbit_audio::ui_codec::{
    decode_ui_closed_arg, decode_ui_closed_done_arg, encode_ui_closed_arg,
    encode_ui_closed_done_arg, UiCloseCompletion,
};

#[test]
fn save_state_command_rejects_missing_and_empty_paths_before_capture() {
    for path in [None, Some("")] {
        let mut captures = 0;
        let outcome = save_state_command(
            path,
            || {
                captures += 1;
                Ok::<_, String>(b"must not be captured".to_vec())
            },
            |_: &str, _: &[u8]| Ok::<(), String>(()),
        );
        assert_eq!(outcome.result, CMD_RESULT_BAD_ARG);
        assert_eq!(outcome.len, 0);
        assert_eq!(captures, 0, "invalid arguments must not invoke capture");
    }
}

#[test]
fn save_state_command_reports_sidecar_io_errors_with_the_reason() {
    let outcome = save_state_command(
        Some("/missing/state.bin"),
        || Ok::<_, String>(b"captured state".to_vec()),
        |_: &str, _: &[u8]| Err::<(), String>("No such file or directory (os error 2)".to_string()),
    );
    assert_eq!(outcome.result, CMD_RESULT_IO_ERROR);
    assert_eq!(outcome.len, 0);
    assert_eq!(
        outcome.detail,
        "write /missing/state.bin: No such file or directory (os error 2)"
    );
}

#[test]
fn save_state_command_reports_capture_errors_as_plugin_failures() {
    let mut writes = 0;
    let outcome = save_state_command(
        Some("/tmp/state.bin"),
        || Err::<Vec<u8>, _>("oracle refused capture".to_string()),
        |_: &str, _: &[u8]| {
            writes += 1;
            Ok::<(), String>(())
        },
    );
    assert_eq!(outcome.result, CMD_RESULT_PLUGIN_ERROR);
    assert_eq!(outcome.len, 0);
    assert_eq!(outcome.detail, "oracle refused capture");
    assert_eq!(writes, 0, "capture failure must not create a sidecar");
}

#[test]
fn save_state_command_success_len_matches_the_written_bytes() {
    let payload = b"captured plugin state";
    let mut written = Vec::new();
    let outcome = save_state_command(
        Some("/tmp/state.bin"),
        || Ok::<_, String>(payload.to_vec()),
        |path: &str, bytes: &[u8]| {
            assert_eq!(path, "/tmp/state.bin");
            written = bytes.to_vec();
            Ok::<(), String>(())
        },
    );
    assert_eq!(outcome.result, CMD_RESULT_OK);
    assert_eq!(outcome.len, payload.len() as u64);
    assert_eq!(outcome.detail, "");
    assert_eq!(written, payload);
}

#[test]
fn command_outcome_constructors() {
    let ok = CommandOutcome::ok(12);
    assert_eq!((ok.result, ok.len, ok.detail.as_str()), (CMD_RESULT_OK, 12, ""));
    let failed = CommandOutcome::failed(CMD_RESULT_IO_ERROR, "disk".to_string());
    assert_eq!((failed.result, failed.len, failed.detail.as_str()), (CMD_RESULT_IO_ERROR, 0, "disk"));
}

#[test]
fn slot_offset_cycles_by_modulo() {
    for s in 0..(SLOTS as u64 * 3) {
        assert_ne!(slot_offset(s), slot_offset(s + 1));
    }
    for s in 0..(SLOTS as u64 * 3) {
        assert_eq!(slot_offset(s), slot_offset(s + SLOTS as u64));
    }
}

#[test]
fn event_ring_queue_rejects_unknown_kind_without_enqueueing() {
    let mut child = EventRingChild::new();
    assert_eq!(
        child.queue(99, "detail"),
        Err(EventRingChildError::UnknownKind(99))
    );
    assert_eq!(
        child.pending_len(),
        0,
        "a programming error must not enqueue anything"
    );
}

#[test]
fn apply_chain_has_a_dedicated_timeout_longer_than_single_state_save() {
    assert!(APPLY_CHAIN_MAILBOX_TIMEOUT_MS > PLUGIN_STATE_MAILBOX_TIMEOUT_MS);
}

#[test]
fn cstr_field_round_trips_paths() {
    let mut field = [0u8; CMD_ARG_BYTES];
    let path = "/tmp/orbit-state-42.bin";
    assert!(write_cstr_field(&mut field, path), "the value fits");
    assert_eq!(read_cstr_field(&field), Some(path));
}

#[test]
fn cstr_field_refuses_to_truncate() {
    let mut field = [0u8; 8];
    assert!(
        !write_cstr_field(&mut field, "0123456789"),
        "a value that does not fit was written (truncation would name another path)"
    );
    assert!(write_cstr_field(&mut field, "0123456"));
    assert_eq!(read_cstr_field(&field), Some("0123456"));
}

#[test]
fn cstr_field_rejects_unterminated_and_invalid_utf8() {
    let unterminated = [b'a'; 8];
    assert_eq!(read_cstr_field(&unterminated), None, "an unterminated field was accepted");

    let mut invalid = [0u8; 8];
    invalid[0] = 0xFF;
    invalid[1] = 0;
    assert_eq!(read_cstr_field(&invalid), None, "invalid UTF-8 was accepted");

    let empty_terminated = [0u8; 8];
    assert_eq!(read_cstr_field(&empty_terminated), Some(""));
}

#[test]
fn cstr_field_refuses_a_value_with_an_embedded_nul() {
    let mut field = [0u8; 32];
    assert!(
        !write_cstr_field(&mut field, "before\0after"),
        "an embedded NUL was accepted"
    );
    assert_eq!(
        field, [0u8; 32],
        "a refused value was partly written (it would corrupt the previous value)"
    );
}

#[test]
fn p14_ui_event_argument_codec_round_trips_every_key_and_completion_shape() {
    let windows = [None, Some(0), Some(1), Some(u64::MAX)];
    let completions = [
        UiCloseCompletion::SafepointCompleted,
        UiCloseCompletion::TimedOutWithoutSave,
    ];
    for window in windows {
        assert_eq!(
            decode_ui_closed_arg(Some(&encode_ui_closed_arg(window))),
            Ok(window)
        );
        for completion in completions {
            assert_eq!(
                decode_ui_closed_done_arg(Some(&encode_ui_closed_done_arg(window, completion,))),
                Ok((window, completion))
            );
        }
    }
}

#[test]
fn ui_argument_grammar_rejects_malformed_text() {
    assert!(decode_ui_closed_arg(Some("{\"window\":01}")).is_err());
    assert!(decode_ui_closed_arg(Some("{\"window\":}")).is_err());
    assert!(decode_ui_closed_arg(Some("window")).is_err());
    assert_eq!(decode_ui_closed_arg(None), Ok(None));
    assert_eq!(decode_ui_closed_arg(Some("")), Ok(None));
    assert!(decode_ui_closed_done_arg(None).is_err());
    assert!(decode_ui_closed_done_arg(Some("done")).is_err());
    assert!(decode_ui_closed_done_arg(Some("{\"window\":1,\"completion\":\"later\"}")).is_err());
    assert_eq!(encode_ui_closed_arg(Some(7)), "{\"window\":7}");
    assert_eq!(
        encode_ui_closed_done_arg(Some(7), UiCloseCompletion::TimedOutWithoutSave),
        "{\"window\":7,\"completion\":\"timeout-without-save\"}"
    );
    assert_eq!(
        encode_ui_closed_done_arg(None, UiCloseCompletion::SafepointCompleted),
        "safepoint-completed"
    );
}

struct AcceptAll(Vec<(u64, u32, Option<String>)>);

impl EventHandler for AcceptAll {
    fn handle(&mut self, event: EventRingEvent) -> bool {
        self.0.push((event.seq, event.kind, event.arg().map(str::to_string)));
        true
    }
}

struct AcceptFirst(usize);

impl EventHandler for AcceptFirst {
    fn handle(&mut self, _event: EventRingEvent) -> bool {
        if self.0 == 0 {
            false
        } else {
            self.0 -= 1;
            true
        }
    }
}

#[test]
fn event_ring_host_processes_strictly_in_sequence_and_acks_only_completion() {
    let mut region = SharedControl::new();
    let mut child = EventRingChild::new();
    child.queue(EVT_UI_CLOSED, "first").unwrap();
    child.queue(EVT_UI_CLOSED_DONE, "second").unwrap();
    assert_eq!(child.service(&mut region.events), Ok(2));
    let host = EventRingHost::new();
    let mut blocked = AcceptFirst(1);
    assert_eq!(
        host.poll(&mut region.events, &mut blocked),
        Ok(EventPollOutcome::Blocked { handled: 1, seq: 2, kind: EVT_UI_CLOSED_DONE })
    );
    assert_eq!(region.events.evt_ack_seq.read(), 1);
    let mut all = AcceptAll(Vec::new());
    assert_eq!(
        host.poll(&mut region.events, &mut all),
        Ok(EventPollOutcome::Advanced { handled: 1 })
    );
    assert_eq!(all.0, vec![(2, EVT_UI_CLOSED_DONE, Some("second".to_string()))]);
    assert_eq!(host.poll(&mut region.events, &mut all), Ok(EventPollOutcome::Idle));
}

#[test]
fn event_ring_child_retains_blocked_event_and_retries_after_ack() {
    let mut region = SharedControl::new();
    let mut child = EventRingChild::new();
    for arg in ["a", "b", "c"] {
        child.queue(EVT_UI_CLOSED, arg).unwrap();
    }
    assert_eq!(child.service(&mut region.events), Ok(2));
    assert_eq!(child.pending_len(), 1);
    assert!(!child.is_drained(&region.events));
    let host = EventRingHost::new();
    let mut one = AcceptFirst(1);
    host.poll(&mut region.events, &mut one).unwrap();
    assert_eq!(child.service(&mut region.events), Ok(1));
    let mut all = AcceptAll(Vec::new());
    host.poll(&mut region.events, &mut all).unwrap();
    let args: Vec<_> = all.0.iter().map(|e| e.2.clone().unwrap()).collect();
    assert_eq!(args, vec!["b".to_string(), "c".to_string()]);
    assert!(child.is_drained(&region.events));
}

#[test]
fn event_ring_queue_replaces_unencodable_arg_but_never_drops_the_event() {
    let mut region = SharedControl::new();
    let mut child = EventRingChild::new();
    let long = "x".repeat(300);
    child.queue(EVT_UI_CLOSED, &long).unwrap();
    child.queue(EVT_UI_CLOSED_DONE, "nul\0inside").unwrap();
    assert_eq!(child.service(&mut region.events), Ok(2));
    let host = EventRingHost::new();
    let mut all = AcceptAll(Vec::new());
    host.poll(&mut region.events, &mut all).unwrap();
    assert_eq!(
        all.0[0].2.as_deref(),
        Some(format!("{EVT_ARG_FALLBACK} (original len 300)").as_str())
    );
    assert_eq!(
        all.0[1].2.as_deref(),
        Some(format!("{EVT_ARG_FALLBACK} (original len 10)").as_str())
    );
}

#[test]
fn event_ring_service_fails_loud_on_sequence_exhaustion_and_retains_event() {
    let mut region = SharedControl::new();
    region.events.evt_seq.publish(u64::MAX);
    region.events.evt_ack_seq.publish(u64::MAX);
    let mut child = EventRingChild::new();
    child.queue(EVT_UI_CLOSED, "").unwrap();
    assert_eq!(child.service(&mut region.events), Err(EventRingChildError::SequenceExhausted));
    assert_eq!(child.pending_len(), 1);
}

#[test]
fn event_ring_poll_fails_loud_when_ack_exceeds_published() {
    let mut region = SharedControl::new();
    region.events.evt_ack_seq.publish(3);
    region.events.evt_seq.publish(1);
    let host = EventRingHost::new();
    let mut all = AcceptAll(Vec::new());
    assert_eq!(
        host.poll(&mut region.events, &mut all),
        Err(EventRingHostError::AckExceedsPublished { ack: 3, published: 1 })
    );
    assert_eq!(region.events.evt_ack_seq.read(), 3);
}

#[test]
fn event_ring_exhausted_service_writes_no_slot() {
    let mut region = SharedControl::new();
    region.events.evt_seq.publish(u64::MAX);
    region.events.evt_ack_seq.publish(u64::MAX);
    let kinds = region.events.evt_kind;
    let args = region.events.evt_arg;
    let mut child = EventRingChild::new();
    child.queue(EVT_UI_CLOSED_DONE, "kept").unwrap();
    assert_eq!(child.service(&mut region.events), Err(EventRingChildError::SequenceExhausted));
    assert_eq!(region.events.evt_seq.read(), u64::MAX);
    assert_eq!(region.events.evt_kind, kinds);
    assert_eq!(region.events.evt_arg, args);
}

#[test]
fn event_ring_ack_error_leaves_the_handler_uncalled() {
    let mut region = SharedControl::new();
    region.events.evt_ack_seq.publish(4);
    let host = EventRingHost::new();
    let mut all = AcceptAll(Vec::new());
    assert_eq!(
        host.poll(&mut region.events, &mut all),
        Err(EventRingHostError::AckExceedsPublished { ack: 4, published: 0 })
    );
    assert!(all.0.is_empty());
    assert_eq!(region.events.evt_ack_seq.read(), 4);
}

#[test]
fn closure_handler_sees_events_in_order_until_it_refuses() {
    let mut region = SharedControl::new();
    let mut child = EventRingChild::new();
    child.queue(EVT_UI_CLOSED, "one").unwrap();
    child.queue(EVT_UI_CLOSED_DONE, "two").unwrap();
    assert_eq!(child.service(&mut region.events), Ok(2));
    let host = EventRingHost::new();
    let mut seen = Vec::new();
    {
        let mut handler = FnHandler::new(|event: EventRingEvent| {
            seen.push((event.seq, event.kind, event.arg().map(str::to_string)));
            event.seq < 2
        });
        assert_eq!(
            host.poll(&mut region.events, &mut handler),
            Ok(EventPollOutcome::Blocked { handled: 1, seq: 2, kind: EVT_UI_CLOSED_DONE })
        );
    }
    assert_eq!(
        seen,
        vec![(1, EVT_UI_CLOSED, Some("one".to_string())), (2, EVT_UI_CLOSED_DONE, Some("two".to_string()))]
    );
    assert_eq!(region.events.evt_ack_seq.read(), 1);
}

#[test]
fn event_ring_pending_len_counts_queued_minus_published() {
    let mut region = SharedControl::new();
    let mut child = EventRingChild::new();
    assert_eq!(child.pending_len(), 0);
    for arg in ["a", "b", "c"] {
        child.queue(EVT_UI_CLOSED, arg).unwrap();
    }
    assert_eq!(child.queue(7, "refused"), Err(EventRingChildError::UnknownKind(7)));
    assert_eq!(child.pending_len(), 3);
    assert_eq!(child.service(&mut region.events), Ok(2));
    assert_eq!(child.pending_len(), 1);
    child.queue(EVT_UI_CLOSED_DONE, "d").unwrap();
    assert_eq!(child.service(&mut region.events), Ok(0));
    assert_eq!(child.pending_len(), 2);
}

#[test]
fn dirty_epoch_increments_and_host_observes_monotone_watermark() {
    let mut region = SharedControl::new();
    let mut host = EventRingHost::new();
    assert_eq!(host.observe_dirty_epoch(&region.events), None);
    assert_eq!(increment_dirty_epoch(&mut region.events), 1);
    assert_eq!(increment_dirty_epoch(&mut region.events), 2);
    assert_eq!(host.observe_dirty_epoch(&region.events), Some(2));
    assert_eq!(host.observe_dirty_epoch(&region.events), None);
}

#[test]
fn reset_child_starting_clears_event_ring_but_preserves_dirty_epoch() {
    let mut region = SharedControl::new();
    let mut child = EventRingChild::new();
    child.queue(EVT_UI_CLOSED, "x").unwrap();
    child.service(&mut region.events).unwrap();
    increment_dirty_epoch(&mut region.events);
    publish_child_ready(&mut region, true);
    reset_child_starting(&mut region);
    assert_eq!(region.events.evt_seq.read(), 0);
    assert_eq!(region.events.evt_ack_seq.read(), 0);
    assert_eq!(region.events.dirty_epoch.read(), 1);
    assert_eq!(region.child_status, CHILD_STATUS_STARTING);
    assert_eq!(region.child_flags, 0);
}

#[test]
fn publish_child_ready_stores_flags_and_status_for_both_branches() {
    let mut region = SharedControl::new();
    publish_child_ready(&mut region, true);
    assert_eq!(region.child_status, CHILD_STATUS_READY);
    assert_eq!(region.child_flags, CHILD_FLAG_HAS_AUDIO_INPUT);
    publish_child_ready(&mut region, false);
    assert_eq!(region.child_flags, 0);
}

#[test]
fn reset_control_run_rearms_region_after_attach_teardown() {
    let mut region = SharedControl::new();
    region.control = CONTROL_QUIT;
    reset_control_run(&mut region);
    assert_eq!(region.control, CONTROL_RUN);
}

fn published(step: Result<IssueStep<String>, CommandMailboxError>) -> (u64, u64, u64) {
    match step {
        Ok(IssueStep::Published { seq, generation, timeout_ms }) => (seq, generation, timeout_ms),
        other => panic!("expected a published command, got {other:?}"),
    }
}

#[test]
fn command_mailbox_host_round_trips_one_exact_ack() {
    let mut region = SharedControl::new();
    let mut host: CommandMailboxHost<String> = CommandMailboxHost::new();
    let path = "/tmp/orbit-mailbox-state.bin";
    let (seq, generation, timeout) = published(host.issue_save_state(
        &mut region.mailbox,
        true,
        Some(path),
        path.to_string(),
    ));
    assert_eq!((seq, generation, timeout), (1, 0, PLUGIN_STATE_MAILBOX_TIMEOUT_MS));
    assert!(host.poll_ack(&region.mailbox, seq, generation, 0, timeout).is_none());
    let serviced = service_command_mailbox(&mut region.mailbox, |kind, arg| {
        assert_eq!(kind, CMD_SAVE_STATE);
        assert_eq!(arg, Some(path));
        Some(CommandOutcome::ok(321))
    });
    assert!(serviced);
    let response = host
        .poll_ack(&region.mailbox, seq, generation, 3, timeout)
        .expect("acked")
        .expect("mailbox success");
    assert_eq!(response.bytes_written, 321);
    assert_eq!(response.detail, "");
    assert!(host.in_flight.is_none());
    assert!(!service_command_mailbox(&mut region.mailbox, |_, _| None));
}

#[test]
fn command_mailbox_host_issues_open_and_close_ui_with_success_detail() {
    let mut region = SharedControl::new();
    let mut host: CommandMailboxHost<String> = CommandMailboxHost::new();
    let (seq, generation, timeout) =
        published(host.issue_open_ui(&mut region.mailbox, "Oracle — lead[0]"));
    assert_eq!(timeout, OPEN_UI_MAILBOX_TIMEOUT_MS);
    service_command_mailbox(&mut region.mailbox, |kind, arg| {
        assert_eq!(kind, CMD_OPEN_UI);
        assert_eq!(arg, Some("Oracle — lead[0]"));
        Some(CommandOutcome::ok(0))
    });
    let open = host.poll_ack(&region.mailbox, seq, generation, 0, timeout).unwrap().unwrap();
    assert_eq!((open.bytes_written, open.detail.as_str()), (0, ""));

    let (seq, generation, timeout) = published(host.issue_close_ui(&mut region.mailbox));
    service_command_mailbox(&mut region.mailbox, |kind, arg| {
        assert_eq!(kind, CMD_CLOSE_UI);
        assert_eq!(arg, Some(""));
        Some(CommandOutcome { result: CMD_RESULT_OK, len: 0, detail: "already-closing".to_string() })
    });
    let close = host.poll_ack(&region.mailbox, seq, generation, 0, timeout).unwrap().unwrap();
    assert_eq!(close.detail, "already-closing");
}

#[test]
fn command_mailbox_host_rejects_a_second_outstanding_command() {
    let mut region = SharedControl::new();
    let mut host: CommandMailboxHost<String> = CommandMailboxHost::new();
    let (seq, _, _) = published(host.issue_save_state(&mut region.mailbox, true, Some("/tmp/a"), "/tmp/a".into()));
    let second = host
        .issue_save_state(&mut region.mailbox, true, Some("/tmp/b"), "/tmp/b".into())
        .expect_err("second command must not overwrite the first");
    assert!(matches!(second, CommandMailboxError::Busy { seq: busy } if busy == seq));
    assert_eq!(region.mailbox.cmd_seq, seq);
}

#[test]
fn command_mailbox_timeout_keeps_the_slot_poisoned_until_late_ack() {
    let mut region = SharedControl::new();
    let mut host: CommandMailboxHost<String> = CommandMailboxHost::new();
    let (seq, generation, _) = published(host.issue_save_state_with_timeout(
        &mut region.mailbox,
        true,
        Some("/tmp/late.bin"),
        "/tmp/late.bin".into(),
        15,
    ));
    match host.poll_ack(&region.mailbox, seq, generation, 15, 15) {
        Some(Err(CommandMailboxError::Timeout { seq: s, elapsed_ms })) => {
            assert_eq!((s, elapsed_ms), (seq, 15))
        }
        other => panic!("expected timeout, got {other:?}"),
    }
    assert!(matches!(
        host.issue_close_ui(&mut region.mailbox),
        Err(CommandMailboxError::Poisoned { seq: s }) if s == seq
    ));
    service_command_mailbox(&mut region.mailbox, |_, _| Some(CommandOutcome::ok(9)));
    match host.issue_close_ui(&mut region.mailbox) {
        Ok(IssueStep::Released { command, saved_after_abandon }) => {
            assert_eq!(command.seq, seq);
            assert_eq!(command.sidecar_path.as_deref(), Some("/tmp/late.bin"));
            assert!(saved_after_abandon);
        }
        other => panic!("expected release, got {other:?}"),
    }
    let (next, _, _) = published(host.issue_close_ui(&mut region.mailbox));
    assert_eq!(next, seq + 1);
}

#[test]
fn command_mailbox_late_failed_ack_does_not_report_a_saved_state() {
    let mut region = SharedControl::new();
    let mut host: CommandMailboxHost<String> = CommandMailboxHost::new();
    let (seq, generation, _) = published(host.issue_save_state(&mut region.mailbox, true, Some("/tmp/x"), "/tmp/x".into()));
    host.poll_ack(&region.mailbox, seq, generation, 10_000, 5_000);
    service_command_mailbox(&mut region.mailbox, |_, _| {
        Some(CommandOutcome::failed(CMD_RESULT_PLUGIN_ERROR, "no state".to_string()))
    });
    match host.issue_close_ui(&mut region.mailbox) {
        Ok(IssueStep::Released { saved_after_abandon, .. }) => assert!(!saved_after_abandon),
        other => panic!("expected release, got {other:?}"),
    }
}

#[test]
fn command_mailbox_reset_fails_inflight_before_replacement_spawn() {
    let mut region = SharedControl::new();
    let mut host: CommandMailboxHost<String> = CommandMailboxHost::new();
    let (seq, generation, timeout) =
        published(host.issue_apply_chain(&mut region.mailbox, Some("/tmp/plan.json")));
    assert_eq!(region.mailbox.cmd_kind, CMD_APPLY_CHAIN);
    assert_eq!(timeout, APPLY_CHAIN_MAILBOX_TIMEOUT_MS);
    let reset = host.reset_after_child_exit(&mut region);
    assert_eq!(reset.released.map(|c| c.seq), Some(seq));
    assert!(!reset.saved_after_abandon);
    assert_eq!(region.mailbox.cmd_ack_seq, seq);
    assert_eq!(region.mailbox.cmd_result, CMD_RESULT_CHILD_EXITED);
    assert_eq!(region.mailbox.cmd_kind, CMD_NONE);
    match host.poll_ack(&region.mailbox, seq, generation, 0, timeout) {
        Some(Err(CommandMailboxError::ChildExited { seq: s, detail })) => {
            assert_eq!(s, seq);
            assert_eq!(detail, "child died and the mailbox was reset before replacement spawn");
        }
        other => panic!("expected child exit, got {other:?}"),
    }
    assert_eq!(host.generation, 1);
}

#[test]
fn command_mailbox_requires_an_exact_ack_and_valid_bounded_path() {
    let mut region = SharedControl::new();
    let mut host: CommandMailboxHost<String> = CommandMailboxHost::new();
    assert!(matches!(
        host.issue_save_state(&mut region.mailbox, false, Some("relative.bin"), "relative.bin".into()),
        Err(CommandMailboxError::InvalidArgument(ref m)) if m == "path must be absolute"
    ));
    assert!(matches!(
        host.issue_save_state(&mut region.mailbox, true, None, "/bad".into()),
        Err(CommandMailboxError::InvalidArgument(ref m)) if m == "path must be valid UTF-8"
    ));
    assert!(matches!(
        host.issue_apply_chain(&mut region.mailbox, None),
        Err(CommandMailboxError::InvalidArgument(ref m)) if m == "plan path must be valid UTF-8"
    ));
    let too_long = format!("/{}", "a".repeat(CMD_ARG_BYTES));
    assert!(matches!(
        host.issue_save_state(&mut region.mailbox, true, Some(&too_long), too_long.clone()),
        Err(CommandMailboxError::InvalidArgument(ref m))
            if m == "command argument must contain no NUL and fit in CMD_ARG_BYTES=1024"
    ));
    assert_eq!(region.mailbox.cmd_seq, 0);
    assert!(host.in_flight.is_none());

    let (seq, generation, _) = published(host.issue_save_state_at(&mut region.mailbox, "stage-1", true, "/tmp/s1".into()));
    assert_eq!(region.mailbox.cmd_kind, CMD_SAVE_STATE_AT);
    region.mailbox.cmd_ack_seq = seq + 1;
    match host.poll_ack(&region.mailbox, seq, generation, 0, 100) {
        Some(Err(CommandMailboxError::Protocol { seq: s, ack })) => assert_eq!((s, ack), (seq, seq + 1)),
        other => panic!("expected protocol error, got {other:?}"),
    }
    assert!(host.in_flight.as_ref().unwrap().abandoned);
}

#[test]
fn command_mailbox_unknown_kind_is_acked_not_ignored() {
    let mut region = SharedControl::new();
    let mut host: CommandMailboxHost<String> = CommandMailboxHost::new();
    let (seq, generation, _) = published(host.issue_open_ui_at(&mut region.mailbox, "7"));
    region.mailbox.cmd_kind = 42;
    assert!(service_command_mailbox(&mut region.mailbox, |_, _| None));
    assert_eq!(region.mailbox.cmd_result, CMD_RESULT_UNKNOWN_KIND);
    match host.poll_ack(&region.mailbox, seq, generation, 0, 100) {
        Some(Err(CommandMailboxError::CommandFailed { result, detail, .. })) => {
            assert_eq!(result, CMD_RESULT_UNKNOWN_KIND);
            assert_eq!(detail, "unknown cmd_kind 42");
        }
        other => panic!("expected failure, got {other:?}"),
    }
}

#[test]
fn command_mailbox_detail_that_does_not_fit_is_replaced() {
    let mut region = SharedControl::new();
    let mut host: CommandMailboxHost<String> = CommandMailboxHost::new();
    let (seq, generation, _) = published(host.issue_close_ui_at(&mut region.mailbox, "3"));
    service_command_mailbox(&mut region.mailbox, |_, _| {
        Some(CommandOutcome::failed(CMD_RESULT_IO_ERROR, "e".repeat(400)))
    });
    match host.poll_ack(&region.mailbox, seq, generation, 0, 100) {
        Some(Err(CommandMailboxError::CommandFailed { detail, .. })) => {
            assert_eq!(detail, "detail too long")
        }
        other => panic!("expected failure, got {other:?}"),
    }
    let mut host2: CommandMailboxHost<String> = CommandMailboxHost::new();
    assert!(!host2.child_is_ready(&region));
    publish_child_ready(&mut region, false);
    assert!(host2.child_is_ready(&region));
    let _ = &mut host2;
}

#[test]
fn event_ring_two_inflight_events_use_distinct_unacked_slots() {
    let mut region = SharedControl::new();
    let mut child = EventRingChild::new();
    child.queue(EVT_UI_CLOSED, "first-slot").unwrap();
    child.queue(EVT_UI_CLOSED_DONE, "second-slot").unwrap();
    assert_eq!(child.service(&mut region.events), Ok(2), "both close-cycle events fit before either ack");
    assert_eq!(region.events.evt_ack_seq.read(), 0);
    let first_index = 1usize;
    let second_index = 0usize;
    assert_eq!(read_cstr_field(&region.events.evt_arg[first_index]), Some("first-slot"));
    assert_eq!(read_cstr_field(&region.events.evt_arg[second_index]), Some("second-slot"));
    assert_eq!(region.events.evt_kind[first_index], EVT_UI_CLOSED);
    assert_eq!(region.events.evt_kind[second_index], EVT_UI_CLOSED_DONE);
}

#[test]
fn event_ring_host_survives_respawn_seq_reset_without_local_cursor() {
    let mut region = SharedControl::new();
    let host = EventRingHost::new();
    let mut old_child = EventRingChild::new();
    old_child.queue(EVT_UI_CLOSED, "old-start").unwrap();
    old_child.queue(EVT_UI_CLOSED_DONE, "old-done").unwrap();
    assert_eq!(old_child.service(&mut region.events), Ok(2));
    let mut all = AcceptAll(Vec::new());
    assert_eq!(host.poll(&mut region.events, &mut all), Ok(EventPollOutcome::Advanced { handled: 2 }));

    reset_child_starting(&mut region);

    let mut new_child = EventRingChild::new();
    new_child.queue(EVT_UI_CLOSED, "new-start").unwrap();
    new_child.queue(EVT_UI_CLOSED_DONE, "new-done").unwrap();
    assert_eq!(new_child.service(&mut region.events), Ok(2));
    let mut fresh = AcceptAll(Vec::new());
    assert_eq!(host.poll(&mut region.events, &mut fresh), Ok(EventPollOutcome::Advanced { handled: 2 }));
    assert_eq!(
        fresh.0,
        vec![
            (1, EVT_UI_CLOSED, Some("new-start".to_string())),
            (2, EVT_UI_CLOSED_DONE, Some("new-done".to_string())),
        ]
    );
}

#[test]
fn event_ring_kind_travels_in_its_slot_not_derived_from_seq() {
    let mut region = SharedControl::new();
    let mut child = EventRingChild::new();
    child.queue(EVT_UI_CLOSED_DONE, "seq1").unwrap();
    child.queue(EVT_UI_CLOSED, "seq2").unwrap();
    child.queue(EVT_UI_CLOSED_DONE, "seq3").unwrap();
    assert_eq!(child.service(&mut region.events), Ok(2));
    let host = EventRingHost::new();
    let mut drain = AcceptAll(Vec::new());
    assert_eq!(host.poll(&mut region.events, &mut drain), Ok(EventPollOutcome::Advanced { handled: 2 }));
    assert_eq!(child.service(&mut region.events), Ok(1));
    assert_eq!(host.poll(&mut region.events, &mut drain), Ok(EventPollOutcome::Advanced { handled: 1 }));
    let delivered: Vec<(u64, u32)> = drain.0.iter().map(|e| (e.0, e.1)).collect();
    assert_eq!(delivered, vec![(1, EVT_UI_CLOSED_DONE), (2, EVT_UI_CLOSED), (3, EVT_UI_CLOSED_DONE)]);
    assert_eq!(region.events.evt_kind[1], EVT_UI_CLOSED_DONE);
    assert_eq!(region.events.evt_kind[0], EVT_UI_CLOSED);
}

#[test]
fn event_ring_child_is_drained_requires_no_pending_and_equal_cursors() {
    let mut region = SharedControl::new();
    let mut child = EventRingChild::new();
    assert!(child.is_drained(&region.events), "the initial empty ring is drained");
    child.queue(EVT_UI_CLOSED, "pending").unwrap();
    assert!(!child.is_drained(&region.events), "a pending event keeps the ring undrained");
    assert_eq!(child.service(&mut region.events), Ok(1));
    assert_eq!(child.pending_len(), 0);
    assert!(!child.is_drained(&region.events), "unequal cursors keep the ring undrained");
    region.events.evt_ack_seq.publish(1);
    assert!(child.is_drained(&region.events), "no pending events and equal cursors drain the ring");
}

#[test]
fn reset_child_starting_clears_previous_incarnation_readiness() {
    let mut region = SharedControl::new();
    publish_child_ready(&mut region, true);
    reset_child_starting(&mut region);
    assert_eq!(region.child_flags, 0);
    assert_eq!(region.child_status, CHILD_STATUS_STARTING);
}

#[test]
fn child_readiness_defaults_to_starting_with_no_flags() {
    let region = SharedControl::new();
    assert_eq!(region.child_status, CHILD_STATUS_STARTING);
    assert_eq!(region.child_flags, 0);
}

#[test]
fn mailbox_and_ring_failures_read_as_messages() {
    assert_eq!(
        CommandMailboxError::Timeout { seq: 7, elapsed_ms: 1500 }.message(),
        "plugin state mailbox command 7 timed out after 1500 ms"
    );
    assert_eq!(
        CommandMailboxError::CommandFailed { seq: 3, result: 4, detail: "disk full".to_string() }.message(),
        "plugin state mailbox command 3 failed (result=4): disk full"
    );
    assert_eq!(
        CommandMailboxError::Protocol { seq: 2, ack: 9 }.message(),
        "plugin state mailbox ack mismatch: expected exactly 2, got 9"
    );
    assert_eq!(CommandMailboxError::Busy { seq: 0 }.message(), "plugin state mailbox command 0 is still in flight");
    assert_eq!(
        EventRingHostError::AckExceedsPublished { ack: 4, published: 0 }.message(),
        "event ring ack 4 exceeds published sequence 0"
    );
    assert_eq!(EventRingChildError::UnknownKind(99).message(), "unsupported child event kind 99");
}
