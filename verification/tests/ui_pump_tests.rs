use orbit_audio::event_ring::{EventPollOutcome, EventRingChild, EventRingHostError};
use orbit_audio::layout::{EVT_UI_CLOSED, EVT_UI_CLOSED_DONE};
use orbit_audio::mailbox::{CommandMailboxError, CommandMailboxHost};
use orbit_audio::shared::SharedControl;
use orbit_audio::ui_codec::{encode_ui_closed_arg, encode_ui_closed_done_arg, UiCloseCompletion};
use orbit_audio::ui_pump::{
    FnSink, PendingSafepoint, UiEventPump, UiEventPumpError, UiLifecycle, UiNotificationSink,
    UiProtocolError, UiPumpNotification,
};

/// Records every notification; accepts according to `accept`.
struct Recorder {
    seen: Vec<UiPumpNotification>,
    accept: bool,
}

impl Recorder {
    fn accepting() -> Self {
        Recorder { seen: Vec::new(), accept: true }
    }
    fn refusing() -> Self {
        Recorder { seen: Vec::new(), accept: false }
    }
}

impl UiNotificationSink for Recorder {
    fn deliver(&mut self, notification: UiPumpNotification) -> bool {
        self.seen.push(notification);
        self.accept
    }
}

fn advanced(handled: usize) -> EventPollOutcome {
    EventPollOutcome::Advanced { handled }
}

fn publish_ui_event(region: &mut SharedControl, child: &mut EventRingChild, kind: u32, arg: &str) {
    child.queue(kind, arg).expect("queue UI event");
    assert_eq!(child.service(&mut region.events).expect("publish UI event"), 1);
}

fn reset(pump: &mut UiEventPump, mailbox: &mut CommandMailboxHost<String>, region: &mut SharedControl) -> u64 {
    pump.reset_after_child_exit(mailbox, region, |_released| Ok(()))
        .expect("reset pump and mailbox")
        .generation
}

#[test]
fn p1_two_windows_can_be_open_concurrently() {
    let mut pump = UiEventPump::new();
    pump.begin_open(Some(1)).expect("reserve window 1");
    pump.begin_open(Some(2)).expect("reserve window 2");
    pump.finish_open(Some(1), true);
    pump.finish_open(Some(2), true);

    assert_eq!(pump.state.windows.len(), 2);
    assert_eq!(pump.state.lifecycle_of(Some(1)), UiLifecycle::Open);
    assert_eq!(pump.state.lifecycle_of(Some(2)), UiLifecycle::Open);
}

#[test]
fn p2_reusing_a_live_window_token_is_loud_and_preserves_state() {
    let mut pump = UiEventPump::new();
    pump.begin_open(Some(1)).expect("first reservation");

    let error = pump.begin_open(Some(1)).expect_err("live token reuse must fail");
    assert!(matches!(error, UiEventPumpError::Protocol(_)));
    assert_eq!(pump.state.windows.len(), 1);
    assert_eq!(pump.state.lifecycle_of(Some(1)), UiLifecycle::Opening);
}

#[test]
fn p3_ack_requires_matching_generation_window_and_event_sequence() {
    let mut region = SharedControl::new();
    let mut child = EventRingChild::new();
    publish_ui_event(&mut region, &mut child, EVT_UI_CLOSED, &encode_ui_closed_arg(Some(2)));
    let mut pump = UiEventPump::new();
    pump.poll_step(&mut region.events, &mut Recorder::accepting()).expect("publish safepoint");

    assert!(matches!(
        pump.ack_safepoint(&mut region.events, 0, Some(1), 1),
        Err(UiEventPumpError::Protocol(_))
    ));
    assert_eq!(pump.state.pending_safepoint, Some(PendingSafepoint { window: Some(2), evt_seq: 1 }));
    pump.ack_safepoint(&mut region.events, 0, Some(2), 1).expect("matching triplet advances");
    assert_eq!(region.events.evt_ack_seq.read(), 1);
}

#[test]
fn p4_stale_generation_is_rejected_for_an_indexed_window() {
    let mut region = SharedControl::new();
    let mut pump = UiEventPump::new();
    let mut mailbox: CommandMailboxHost<String> = CommandMailboxHost::new();
    assert_eq!(reset(&mut pump, &mut mailbox, &mut region), 1);
    let mut child = EventRingChild::new();
    publish_ui_event(&mut region, &mut child, EVT_UI_CLOSED, &encode_ui_closed_arg(Some(4)));
    pump.poll_step(&mut region.events, &mut Recorder::accepting()).expect("publish safepoint");

    assert!(matches!(
        pump.ack_safepoint(&mut region.events, 0, Some(4), 1),
        Err(UiEventPumpError::GenerationMismatch { expected: 1, actual: 0 })
    ));
    assert_eq!(region.events.evt_ack_seq.read(), 0);
}

#[test]
fn p5_safepoint_notification_carries_the_decoded_window() {
    let mut region = SharedControl::new();
    let mut child = EventRingChild::new();
    publish_ui_event(&mut region, &mut child, EVT_UI_CLOSED, &encode_ui_closed_arg(Some(2)));
    let mut pump = UiEventPump::new();
    let mut sink = Recorder::accepting();
    pump.poll_step(&mut region.events, &mut sink).expect("poll indexed close");
    assert_eq!(
        sink.seen,
        vec![UiPumpNotification::Safepoint { generation: 0, evt_seq: 1, window: Some(2) }]
    );
}

#[test]
fn p6_indexed_done_is_decoded_and_advances_the_ring() {
    let mut region = SharedControl::new();
    let mut child = EventRingChild::new();
    publish_ui_event(
        &mut region,
        &mut child,
        EVT_UI_CLOSED_DONE,
        &encode_ui_closed_done_arg(Some(1), UiCloseCompletion::SafepointCompleted),
    );
    let mut pump = UiEventPump::new();
    let mut sink = Recorder::accepting();
    assert_eq!(pump.poll_step(&mut region.events, &mut sink).expect("poll indexed DONE"), advanced(1));
    assert_eq!(
        sink.seen,
        vec![UiPumpNotification::CloseDone { completion: UiCloseCompletion::SafepointCompleted, window: Some(1) }]
    );
    assert_eq!(region.events.evt_ack_seq.read(), 1);
}

#[test]
fn p7_non_indexed_close_arguments_preserve_the_legacy_protocol() {
    let mut region = SharedControl::new();
    let mut child = EventRingChild::new();
    publish_ui_event(&mut region, &mut child, EVT_UI_CLOSED, "");
    let mut pump = UiEventPump::new();
    let mut sink = Recorder::accepting();
    pump.poll_step(&mut region.events, &mut sink).expect("poll legacy close");
    pump.ack_safepoint(&mut region.events, 0, None, 1).expect("ack legacy close");
    publish_ui_event(&mut region, &mut child, EVT_UI_CLOSED_DONE, "safepoint-completed");
    assert_eq!(pump.poll_step(&mut region.events, &mut sink).expect("poll legacy DONE"), advanced(1));
    assert_eq!(
        sink.seen,
        vec![
            UiPumpNotification::Safepoint { generation: 0, evt_seq: 1, window: None },
            UiPumpNotification::CloseDone { completion: UiCloseCompletion::SafepointCompleted, window: None },
        ]
    );
}

#[test]
fn p8_respawn_reset_reports_every_visible_window_in_key_order() {
    let mut region = SharedControl::new();
    let mut pump = UiEventPump::new();
    let mut mailbox: CommandMailboxHost<String> = CommandMailboxHost::new();
    pump.begin_open(Some(2)).expect("reserve window 2");
    pump.finish_open(Some(2), true);
    pump.begin_open(Some(1)).expect("reserve window 1");
    pump.finish_open(Some(1), true);
    pump.state.set_lifecycle(Some(2), UiLifecycle::Closing);

    let outcome = pump
        .reset_after_child_exit(&mut mailbox, &mut region, |_released| Ok(()))
        .expect("reset pump and mailbox");
    assert_eq!(outcome.closed_windows, vec![Some(1), Some(2)]);
    assert_eq!(outcome.generation, 1);
    assert!(pump.state.windows.is_empty());
}

#[test]
fn p9_abandoned_safepoints_are_retained_per_window() {
    let mut region = SharedControl::new();
    let mut pump = UiEventPump::new();
    let mut child = EventRingChild::new();
    for window in [1, 2] {
        publish_ui_event(&mut region, &mut child, EVT_UI_CLOSED, &encode_ui_closed_arg(Some(window)));
        publish_ui_event(
            &mut region,
            &mut child,
            EVT_UI_CLOSED_DONE,
            &encode_ui_closed_done_arg(Some(window), UiCloseCompletion::TimedOutWithoutSave),
        );
        assert_eq!(pump.poll_step(&mut region.events, &mut Recorder::accepting()).expect("abandon cycle"), advanced(2));
    }

    assert_eq!(region.events.evt_ack_seq.read(), 4);
    pump.ack_safepoint(&mut region.events, 0, Some(1), 1).expect("late ack for first window");
    pump.ack_safepoint(&mut region.events, 0, Some(2), 3).expect("late ack for second window");
    assert!(pump.state.windows.is_empty());
}

#[test]
fn p10_begin_open_rejection_preserves_the_lifecycle_anchor() {
    let mut pump = UiEventPump::new();
    pump.begin_open(Some(10)).expect("reserve window");
    pump.finish_open(Some(10), true);
    let error = pump.begin_open(Some(10)).expect_err("duplicate open must fail");
    assert!(matches!(
        error,
        UiEventPumpError::Protocol(UiProtocolError::OpenWhileNotClosed {
            window: Some(10),
            lifecycle: UiLifecycle::Open,
        })
    ));
}

#[test]
fn p11_abandon_escape_requires_the_same_window() {
    let run = |done_window: u64| {
        let mut region = SharedControl::new();
        let mut pump = UiEventPump::new();
        let mut child = EventRingChild::new();
        publish_ui_event(&mut region, &mut child, EVT_UI_CLOSED, &encode_ui_closed_arg(Some(1)));
        publish_ui_event(
            &mut region,
            &mut child,
            EVT_UI_CLOSED_DONE,
            &encode_ui_closed_done_arg(Some(done_window), UiCloseCompletion::TimedOutWithoutSave),
        );
        let outcome = pump.poll_step(&mut region.events, &mut Recorder::accepting()).expect("poll escape candidate");
        (outcome, region.events.evt_ack_seq.read())
    };

    assert!(matches!(run(2), (EventPollOutcome::Blocked { seq: 1, .. }, 0)));
    assert_eq!(run(1), (advanced(2), 2));
}

#[test]
fn p12_closed_abandoned_window_survives_until_its_late_ack() {
    let mut region = SharedControl::new();
    let mut pump = UiEventPump::new();
    let mut child = EventRingChild::new();
    publish_ui_event(&mut region, &mut child, EVT_UI_CLOSED, &encode_ui_closed_arg(Some(12)));
    publish_ui_event(
        &mut region,
        &mut child,
        EVT_UI_CLOSED_DONE,
        &encode_ui_closed_done_arg(Some(12), UiCloseCompletion::TimedOutWithoutSave),
    );
    assert_eq!(pump.poll_step(&mut region.events, &mut Recorder::accepting()).expect("abandon close"), advanced(2));
    assert_eq!(pump.state.lifecycle_of(Some(12)), UiLifecycle::Closed);
    assert_eq!(pump.state.abandoned_of(Some(12)), Some(1));
    assert_eq!(pump.state.windows.len(), 1);
    pump.ack_safepoint(&mut region.events, 0, Some(12), 1).expect("late ack remains routable");
    assert!(pump.state.windows.is_empty());
}

#[test]
fn p13_safepoint_retry_is_counted_and_deduplicated_by_window_and_sequence() {
    let mut region = SharedControl::new();
    let mut pump = UiEventPump::new();
    let mut child = EventRingChild::new();
    publish_ui_event(&mut region, &mut child, EVT_UI_CLOSED, &encode_ui_closed_arg(Some(13)));
    let mut attempts = Vec::new();
    for accepted in [false, true, true] {
        let mut sink = Recorder { seen: Vec::new(), accept: accepted };
        assert!(matches!(
            pump.poll_step(&mut region.events, &mut sink).expect("retry safepoint"),
            EventPollOutcome::Blocked { seq: 1, .. }
        ));
        attempts.extend(sink.seen);
    }
    assert_eq!(attempts.len(), 2, "one failed delivery plus one accepted delivery");
    for notification in attempts {
        assert_eq!(notification, UiPumpNotification::Safepoint { generation: 0, evt_seq: 1, window: Some(13) });
    }
    assert_eq!(pump.state.pending_safepoint, Some(PendingSafepoint { window: Some(13), evt_seq: 1 }));
}

#[test]
fn ui_event_pump_does_not_ack_closed_before_engine_ack_and_notifies_once() {
    let mut region = SharedControl::new();
    let mut child = EventRingChild::new();
    publish_ui_event(&mut region, &mut child, EVT_UI_CLOSED, "");
    let mut pump = UiEventPump::new();
    let mut sink = Recorder::accepting();
    for _ in 0..2 {
        assert!(matches!(
            pump.poll_step(&mut region.events, &mut sink).expect("blocked poll"),
            EventPollOutcome::Blocked { seq: 1, .. }
        ));
        assert_eq!(region.events.evt_ack_seq.read(), 0);
    }
    assert_eq!(sink.seen.len(), 1, "a blocked head is notified only once");
    pump.ack_safepoint(&mut region.events, 0, None, 1).expect("matching engine ack");
    assert_eq!(region.events.evt_ack_seq.read(), 1);
}

#[test]
fn ui_event_pump_rejects_stale_generation_even_when_evt_seq_repeats() {
    let mut region = SharedControl::new();
    let mut pump = UiEventPump::new();
    let mut mailbox: CommandMailboxHost<String> = CommandMailboxHost::new();
    assert_eq!(reset(&mut pump, &mut mailbox, &mut region), 1);
    let mut child = EventRingChild::new();
    publish_ui_event(&mut region, &mut child, EVT_UI_CLOSED, "");
    pump.poll_step(&mut region.events, &mut Recorder::accepting()).expect("notify generation 1");

    assert!(matches!(
        pump.ack_safepoint(&mut region.events, 0, None, 1),
        Err(UiEventPumpError::GenerationMismatch { expected: 1, actual: 0 })
    ));
    assert_eq!(region.events.evt_ack_seq.read(), 0);
    pump.ack_safepoint(&mut region.events, 1, None, 1).expect("current generation ack");
    assert_eq!(region.events.evt_ack_seq.read(), 1);
}

#[test]
fn ui_event_pump_abandons_only_after_timeout_done_and_accepts_late_ack() {
    let mut region = SharedControl::new();
    let mut pump = UiEventPump::new();
    let mut child = EventRingChild::new();
    publish_ui_event(&mut region, &mut child, EVT_UI_CLOSED, "");
    let mut sink = Recorder::accepting();
    pump.poll_step(&mut region.events, &mut sink).expect("initial blocked poll");
    assert_eq!(region.events.evt_ack_seq.read(), 0);

    publish_ui_event(&mut region, &mut child, EVT_UI_CLOSED_DONE, "timeout-without-save");
    assert_eq!(pump.poll_step(&mut region.events, &mut sink).expect("abandon and drain DONE"), advanced(2));
    assert_eq!(region.events.evt_ack_seq.read(), 2);
    assert_eq!(
        sink.seen,
        vec![
            UiPumpNotification::Safepoint { generation: 0, evt_seq: 1, window: None },
            UiPumpNotification::CloseDone { completion: UiCloseCompletion::TimedOutWithoutSave, window: None },
        ]
    );
    pump.ack_safepoint(&mut region.events, 0, None, 1).expect("late completed save is accepted");
}

#[test]
fn ui_event_pump_abandons_after_timeout_despite_undeliverable_safepoint() {
    let mut region = SharedControl::new();
    let mut pump = UiEventPump::new();
    let mut child = EventRingChild::new();
    publish_ui_event(&mut region, &mut child, EVT_UI_CLOSED, "");

    let mut absent = Recorder::refusing();
    for _ in 0..3 {
        assert!(matches!(
            pump.poll_step(&mut region.events, &mut absent).expect("blocked while editor is absent"),
            EventPollOutcome::Blocked { seq: 1, .. }
        ));
    }
    assert_eq!(absent.seen.len(), 3, "the safepoint must be retried until the child gives up");
    assert_eq!(region.events.evt_ack_seq.read(), 0);

    publish_ui_event(&mut region, &mut child, EVT_UI_CLOSED_DONE, "timeout-without-save");
    assert!(matches!(
        pump.poll_step(&mut region.events, &mut absent).expect("abandon CLOSED before attempting DONE delivery"),
        EventPollOutcome::Blocked { seq: 2, .. }
    ));
    assert_eq!(region.events.evt_ack_seq.read(), 1, "timeout DONE must release an undeliverable CLOSED head");
    assert_eq!(absent.seen.len(), 4, "only DONE delivery, not the abandoned safepoint, remains attempted");

    let mut back = Recorder::accepting();
    assert_eq!(pump.poll_step(&mut region.events, &mut back).expect("drain timeout DONE"), advanced(1));
    assert_eq!(
        back.seen,
        vec![UiPumpNotification::CloseDone { completion: UiCloseCompletion::TimedOutWithoutSave, window: None }]
    );
    assert_eq!(region.events.evt_ack_seq.read(), 2);
    pump.begin_open(None).expect("completed abandon must not permanently block a later UI open");
}

#[test]
fn ui_event_pump_does_not_abandon_on_a_non_timeout_done() {
    let mut region = SharedControl::new();
    let mut pump = UiEventPump::new();
    let mut child = EventRingChild::new();
    publish_ui_event(&mut region, &mut child, EVT_UI_CLOSED, "");
    pump.poll_step(&mut region.events, &mut Recorder::accepting()).expect("initial blocked poll");
    assert_eq!(region.events.evt_ack_seq.read(), 0);

    publish_ui_event(&mut region, &mut child, EVT_UI_CLOSED_DONE, "safepoint-completed");
    let mut sink = Recorder::accepting();
    assert!(matches!(
        pump.poll_step(&mut region.events, &mut sink).expect("poll stays blocked"),
        EventPollOutcome::Blocked { seq: 1, .. }
    ));
    assert_eq!(region.events.evt_ack_seq.read(), 0);
    assert!(sink.seen.is_empty(), "the safepoint was already announced");

    pump.ack_safepoint(&mut region.events, 0, None, 1).expect("engine ack advances the head");
    assert_eq!(region.events.evt_ack_seq.read(), 1);
}

#[test]
fn ui_event_pump_final_drain_fails_blocked_safepoint_before_teardown() {
    let mut region = SharedControl::new();
    let mut pump = UiEventPump::new();
    let mut child = EventRingChild::new();
    publish_ui_event(&mut region, &mut child, EVT_UI_CLOSED, "");

    let mut sink = Recorder::accepting();
    assert!(matches!(
        pump.poll_step(&mut region.events, &mut sink).expect("initial blocked poll"),
        EventPollOutcome::Blocked { seq: 1, .. }
    ));
    assert_eq!(region.events.evt_ack_seq.read(), 0);

    assert_eq!(pump.final_drain(&mut region.events, &mut sink).expect("teardown drain"), advanced(1));
    assert_eq!(region.events.evt_ack_seq.read(), 1);
    assert_eq!(
        sink.seen,
        vec![UiPumpNotification::Safepoint { generation: 0, evt_seq: 1, window: None }],
        "the already-notified safepoint must not be delivered twice during drain"
    );
    pump.begin_open(None).expect("final drain returns lifecycle to Closed");
    pump.finish_open(None, false);
    assert!(pump.state.windows.is_empty());
}

#[test]
fn ui_event_pump_reports_ring_inconsistency() {
    let mut region = SharedControl::new();
    region.events.evt_ack_seq.publish(2);
    let mut pump = UiEventPump::new();
    assert!(matches!(
        pump.poll_step(&mut region.events, &mut Recorder::accepting()),
        Err(UiEventPumpError::Ring(EventRingHostError::AckExceedsPublished { ack: 2, published: 0 }))
    ));
}

#[test]
fn ui_event_pump_rejects_malformed_and_unknown_events_after_acking_earlier_ones() {
    let mut region = SharedControl::new();
    let mut child = EventRingChild::new();
    publish_ui_event(&mut region, &mut child, EVT_UI_CLOSED_DONE, "safepoint-completed");
    publish_ui_event(&mut region, &mut child, EVT_UI_CLOSED, "{\"window\":01}");
    let mut pump = UiEventPump::new();
    let mut sink = Recorder::accepting();
    assert!(matches!(
        pump.poll_step(&mut region.events, &mut sink),
        Err(UiEventPumpError::Protocol(UiProtocolError::InvalidClosedArg { seq: 2, .. }))
    ));
    assert_eq!(region.events.evt_ack_seq.read(), 1);
    assert_eq!(sink.seen.len(), 1);
}

#[test]
fn ui_event_pump_reset_cleanup_failure_keeps_generation_and_windows() {
    let mut region = SharedControl::new();
    let mut pump = UiEventPump::new();
    let mut mailbox: CommandMailboxHost<String> = CommandMailboxHost::new();
    pump.begin_open(Some(5)).expect("reserve");
    let result = pump.reset_after_child_exit(&mut mailbox, &mut region, |_released| {
        Err(CommandMailboxError::InvalidArgument("cleanup".to_string()))
    });
    assert!(matches!(result, Err(UiEventPumpError::Mailbox(_))));
    assert_eq!(pump.state.generation, 0);
    assert_eq!(pump.state.lifecycle_of(Some(5)), UiLifecycle::Opening);
    assert_eq!(mailbox.generation, 1);
}

#[test]
fn closure_sink_is_offered_a_refused_safepoint_again_until_it_takes_it() {
    let mut region = SharedControl::new();
    let mut child = EventRingChild::new();
    publish_ui_event(&mut region, &mut child, EVT_UI_CLOSED, &encode_ui_closed_arg(Some(4)));
    let mut pump = UiEventPump::new();
    let mut offers = Vec::new();
    {
        let mut sink = FnSink::new(|n: UiPumpNotification| {
            offers.push(n);
            offers.len() >= 2
        });
        for _ in 0..3 {
            assert_eq!(
                pump.poll_step(&mut region.events, &mut sink).expect("blocked poll"),
                EventPollOutcome::Blocked { handled: 0, seq: 1, kind: EVT_UI_CLOSED }
            );
        }
    }
    let expected = UiPumpNotification::Safepoint { generation: 0, evt_seq: 1, window: Some(4) };
    assert_eq!(offers, vec![expected, expected], "refused once, taken once, then never offered again");
    assert_eq!(region.events.evt_ack_seq.read(), 0);
}
