use orbit_audio::audio_host::{
    AudioShared, InstrumentBlockOutcome, PipelinedEffectHost, PipelinedInstrumentHost,
    TransportContext,
};
use orbit_audio::event_rings::{
    push_output, EventBackingRing, EventSpillFifo, EVENT_BACKING_CAPACITY, EVENT_SPILL_CAPACITY,
};
use orbit_audio::events::{EventRecord, NeutralEvent, NeutralExpressionId, VoiceAddr};
use orbit_audio::instrument_child::{answer_block, ChildBlockReport};
use orbit_audio::layout::{slot_index, slot_offset, CHANNELS, MAX_EVENTS_PER_BLOCK, SLOTS};
use orbit_audio::voice_table::{VoiceKey, VoiceTable};

fn addr(port_index: i16, channel: i16, key: i16) -> VoiceAddr {
    VoiceAddr { note_id: -1, port_index, channel, key, _pad: 0 }
}

fn full_addr(note_id: i32, port_index: i16, channel: i16, key: i16) -> VoiceAddr {
    VoiceAddr { note_id, port_index, channel, key, _pad: 0 }
}

fn transport(tempo_bpm: f64, position: f64) -> TransportContext {
    TransportContext {
        tempo_bpm_bits: tempo_bpm.to_bits(),
        time_sig_numerator: 7,
        time_sig_denominator: 8,
        is_playing: 1,
        is_looping: 0,
        song_position_beats_bits: position.to_bits(),
    }
}

fn midi(offset: u32) -> NeutralEvent {
    NeutralEvent::MidiRaw { sample_offset: offset, port_index: 0, data: [0x90, 60, 100] }
}

fn note_on(key: i16) -> NeutralEvent {
    NeutralEvent::NoteOn {
        sample_offset: 0,
        addr: addr(0, 1, key),
        velocity: 1.0f64.to_bits(),
        tuning_cents: 0.0f32.to_bits(),
        length_frames: -1,
    }
}

fn input_event(region: &AudioShared, slot: usize, index: usize) -> Option<NeutralEvent> {
    region.input_events[slot * MAX_EVENTS_PER_BLOCK + index].decode()
}

fn mark_fresh(region: &mut AudioShared, seq: u64, output_events: &[NeutralEvent]) {
    let slot = slot_index(seq);
    for (index, event) in output_events.iter().enumerate() {
        region.output_events[slot * MAX_EVENTS_PER_BLOCK + index] = EventRecord::encode(event);
    }
    region.output_event_count[slot] = output_events.len() as u32;
    region.seq_tag[slot] = seq;
    region.seq_done = seq;
}

fn block(val: f32, frames: usize) -> Vec<u32> {
    vec![val.to_bits(); frames * CHANNELS]
}

fn all_equal(d: &[u32], expected: f32) -> bool {
    d.iter().all(|&x| (f32::from_bits(x) - expected).abs() < 1e-9)
}

fn child_process_latest(region: &mut AudioShared, gain: f32) {
    let req = region.seq_request;
    let done = region.seq_done;
    if req > done {
        let n = region.n_frames[slot_index(req)] as usize;
        let count = n * CHANNELS;
        let off = slot_offset(req);
        for i in 0..count {
            region.output[off + i] = (f32::from_bits(region.input[off + i]) * gain).to_bits();
        }
        region.seq_tag[slot_index(req)] = req;
        region.seq_done = req;
    }
}

#[test]
fn pipelined_steady_state_one_block_delay() {
    let mut region = AudioShared::new();
    let mut host = PipelinedEffectHost::new();
    let frames = 64;
    let gain = 0.5;

    let mut d = block(1.0, frames);
    host.process_block(&mut region, &mut d);
    assert!(all_equal(&d, 0.0), "the first block is primed silence");
    child_process_latest(&mut region, gain);

    let mut d = block(2.0, frames);
    host.process_block(&mut region, &mut d);
    assert!(all_equal(&d, 0.5), "seq 1's 0.5 arrives one block later");
    child_process_latest(&mut region, gain);

    let mut d = block(3.0, frames);
    host.process_block(&mut region, &mut d);
    assert!(all_equal(&d, 1.0), "seq 2's 1.0 arrives one block later");

    assert_eq!(host.fresh, 2);
    assert_eq!(host.stale, 0);
    assert_eq!(host.stall, 0);
}

#[test]
fn pipelined_stale_repeats_previous() {
    let mut region = AudioShared::new();
    let mut host = PipelinedEffectHost::new();
    let frames = 64;
    let gain = 0.5;

    let mut d = block(1.0, frames);
    host.process_block(&mut region, &mut d);
    child_process_latest(&mut region, gain);
    let mut d = block(2.0, frames);
    host.process_block(&mut region, &mut d);
    assert!(all_equal(&d, 0.5));
    assert_eq!(host.fresh, 1);

    let mut d = block(3.0, frames);
    host.process_block(&mut region, &mut d);
    assert!(all_equal(&d, 0.5), "a stale block repeats the last good one (0.5)");
    assert_eq!(host.stale, 1);
    assert_eq!(host.fresh, 1);
}

#[test]
fn pipelined_done_counter_without_slot_tag_is_not_fresh() {
    let mut region = AudioShared::new();
    let mut host = PipelinedEffectHost::new();
    let frames = 64;
    let gain = 0.5;

    let mut d = block(1.0, frames);
    host.process_block(&mut region, &mut d);
    child_process_latest(&mut region, gain);
    let mut d = block(2.0, frames);
    host.process_block(&mut region, &mut d);
    assert!(all_equal(&d, 0.5));
    assert_eq!(host.fresh, 1);

    // The child skipped seq 2 and only moved its done counter: the slot of 2 still carries
    // the tag of an older sequence, so the block repeats the last good one.
    region.seq_done = 2;
    let garbage = 9.0f32.to_bits();
    let off = slot_offset(2);
    for i in 0..frames * CHANNELS {
        region.output[off + i] = garbage;
    }
    let mut d = block(3.0, frames);
    host.process_block(&mut region, &mut d);
    assert!(all_equal(&d, 0.5), "a slot tag that is not the target is never fresh");
    assert_eq!(host.fresh, 1);
    assert_eq!(host.stale, 1);
}

#[test]
fn pipelined_unprimed_tag_mismatch_is_silence() {
    let mut region = AudioShared::new();
    let mut host = PipelinedEffectHost::new();
    let frames = 16;

    let mut d = block(1.0, frames);
    host.process_block(&mut region, &mut d);
    region.seq_done = 1;
    region.seq_tag[slot_index(1)] = 7;
    for i in 0..frames * CHANNELS {
        region.output[slot_offset(1) + i] = 4.0f32.to_bits();
    }
    let mut d = block(2.0, frames);
    host.process_block(&mut region, &mut d);
    assert!(all_equal(&d, 0.0), "before any fresh block a mismatch gives silence");
    assert_eq!(host.fresh, 0);
    assert_eq!(host.stale, 0);
}

#[test]
fn pipelined_stall_when_child_falls_behind() {
    let mut region = AudioShared::new();
    let mut host = PipelinedEffectHost::new();
    let frames = 64;

    for i in 0..(SLOTS as u64 + 2) {
        let mut d = block(i as f32 + 1.0, frames);
        host.process_block(&mut region, &mut d);
    }
    assert!(host.stall >= 1, "a stopped child makes the host stall");
    assert_eq!(host.fresh, 0);
}

#[test]
fn oversized_effect_block_is_clamped_and_the_tail_untouched() {
    let mut region = AudioShared::new();
    let mut host = PipelinedEffectHost::new();
    let mut d = vec![7u32; 8192 + 3];
    host.process_block(&mut region, &mut d);
    assert_eq!(host.frames_clamped, 1);
    assert!(d[..8192].iter().all(|&x| x == 0));
    assert_eq!(&d[8192..], &[7, 7, 7]);
    assert_eq!(region.n_frames[slot_index(1)], 4096);
}

#[test]
fn submit_drains_window_and_preserves_transport_including_zero_tempo() {
    let mut region = AudioShared::new();
    let mut host = PipelinedInstrumentHost::new(&region);
    let mut out = vec![1.0f32.to_bits(); 64 * CHANNELS];
    let t1 = transport(123.0, 4.0);
    host.process_block(&mut region, &mut out, &[midi(3), midi(7)], t1);
    let slot = slot_index(1);
    assert_eq!(region.input_event_count[slot], 2);
    assert_eq!(input_event(&region, slot, 0), Some(midi(3)));
    assert_eq!(input_event(&region, slot, 1), Some(midi(7)));
    assert_eq!(region.n_frames[slot], 64);
    assert_eq!(region.transport_context[slot], t1);

    let t2 = transport(0.0, 11.5);
    host.process_block(&mut region, &mut out, &[midi(9)], t2);
    let slot = slot_index(2);
    assert_eq!(region.input_event_count[slot], 1);
    assert_eq!(input_event(&region, slot, 0), Some(midi(9)));
    assert_eq!(region.transport_context[slot], t2);
}

#[test]
fn ring_exhaustion_injects_wildcard_choke_at_window_front() {
    let mut region = AudioShared::new();
    let mut host = PipelinedInstrumentHost::new(&region);
    let mut out = vec![0u32; CHANNELS];
    let mut events = vec![midi(1); EVENT_BACKING_CAPACITY];
    events.push(NeutralEvent::NoteOff { sample_offset: 99, addr: addr(0, 0, 60), velocity: 0.0f64.to_bits() });
    let outcome = host.process_block(&mut region, &mut out, &events, transport(120.0, 0.0));
    assert!(outcome.sticky_note_choke_injected);
    assert_eq!(
        input_event(&region, slot_index(1), 0),
        Some(NeutralEvent::NoteChoke { sample_offset: 0, addr: VoiceAddr::wildcard() })
    );
    assert_eq!(region.input_event_dropped_count, 1);
    assert_eq!(region.input_event_count[slot_index(1)] as usize, MAX_EVENTS_PER_BLOCK);
    assert_eq!(
        region.input_event_spilled_count as usize,
        EVENT_BACKING_CAPACITY - (MAX_EVENTS_PER_BLOCK - 1)
    );
}

#[test]
fn stall_does_not_pop_event_ring() {
    let mut region = AudioShared::new();
    let mut host = PipelinedInstrumentHost::new(&region);
    let mut out = vec![0u32; CHANNELS];
    for _ in 0..SLOTS {
        host.process_block(&mut region, &mut out, &[], transport(120.0, 0.0));
    }
    let stalled = host.process_block(&mut region, &mut out, &[midi(77)], transport(120.0, 0.0));
    assert!(!stalled.submitted);
    assert_eq!(stalled, InstrumentBlockOutcome::default());
    assert_eq!(host.stall, 1);
    region.seq_done = 1;
    let resumed = host.process_block(&mut region, &mut out, &[], transport(120.0, 0.0));
    assert!(resumed.submitted);
    let slot = slot_index(SLOTS as u64 + 1);
    assert_eq!(region.input_event_count[slot], 1);
    assert_eq!(input_event(&region, slot, 0), Some(midi(0)));
}

#[test]
fn voice_counts_increment_decrement_and_wildcard_choke() {
    let mut region = AudioShared::new();
    let mut host = PipelinedInstrumentHost::new(&region);
    let mut out = vec![0u32; CHANNELS];
    let key60 = VoiceKey { port_index: 0, channel: 1, key: 60 };
    let key61 = VoiceKey { key: 61, ..key60 };
    host.process_block(&mut region, &mut out, &[note_on(60), note_on(60), note_on(61)], transport(120.0, 0.0));
    assert_eq!(host.live_count(key60), 2);
    assert_eq!(host.live_count(key61), 1);
    mark_fresh(&mut region, 1, &[NeutralEvent::NoteEnd { sample_offset: 0, addr: addr(0, 1, 60) }]);
    host.process_block(&mut region, &mut out, &[], transport(120.0, 0.0));
    assert_eq!(host.live_count(key60), 1);
    assert_eq!(host.live_count(key61), 1);
    mark_fresh(&mut region, 2, &[NeutralEvent::NoteChoke { sample_offset: 0, addr: VoiceAddr::wildcard() }]);
    host.process_block(&mut region, &mut out, &[], transport(120.0, 0.0));
    assert_eq!(host.live_count(key60), 0);
    assert_eq!(host.live_count(key61), 0);
}

#[test]
fn specific_choke_clears_only_matching_voice() {
    let mut voices = VoiceTable::new();
    let key60 = VoiceKey { port_index: 0, channel: 1, key: 60 };
    let key61 = VoiceKey { key: 61, ..key60 };
    voices.increment(key60);
    voices.increment(key61);

    voices.choke(addr(0, 1, 60));

    assert_eq!(voices.live_count(key60), 0);
    assert_eq!(voices.live_count(key61), 1);
}

#[test]
fn delayed_note_end_is_drained_after_its_audio_target_has_moved_on() {
    let mut region = AudioShared::new();
    let mut host = PipelinedInstrumentHost::new(&region);
    let mut out = vec![0u32; CHANNELS];
    let key = VoiceKey { port_index: 0, channel: 1, key: 60 };

    host.process_block(&mut region, &mut out, &[note_on(60)], transport(120.0, 0.0));
    assert_eq!(host.live_count(key), 1);

    region.seq_done = 1;
    assert!(host.process_block(&mut region, &mut out, &[], transport(120.0, 0.0)).submitted);
    assert!(host.process_block(&mut region, &mut out, &[], transport(120.0, 0.0)).submitted);

    mark_fresh(&mut region, 1, &[NeutralEvent::NoteEnd { sample_offset: 0, addr: addr(0, 1, 60) }]);
    host.process_block(&mut region, &mut out, &[], transport(120.0, 0.0));

    assert_eq!(host.live_count(key), 0);
}

#[test]
fn dropped_note_end_and_respawn_reset_all_counts() {
    let mut region = AudioShared::new();
    let mut host = PipelinedInstrumentHost::new(&region);
    let mut out = vec![0u32; CHANNELS];
    let key = VoiceKey { port_index: 0, channel: 1, key: 60 };
    host.process_block(&mut region, &mut out, &[note_on(60)], transport(120.0, 0.0));
    region.output_note_end_dropped_count += 1;
    host.process_block(&mut region, &mut out, &[], transport(120.0, 0.0));
    assert_eq!(host.live_count(key), 0);
    region.seq_done = 1;
    host.process_block(&mut region, &mut out, &[note_on(60)], transport(120.0, 0.0));
    assert_eq!(host.live_count(key), 1);
    host.on_child_respawned();
    assert_eq!(host.live_count(key), 0);
}

#[test]
fn corrupted_output_record_increments_event_decode_error_count() {
    let mut region = AudioShared::new();
    let mut host = PipelinedInstrumentHost::new(&region);
    let mut out = vec![0u32; CHANNELS];

    host.process_block(&mut region, &mut out, &[], transport(120.0, 0.0));

    let mut corrupted = EventRecord::encode(&NeutralEvent::NoteEnd { sample_offset: 0, addr: addr(0, 1, 60) });
    corrupted.kind = u32::MAX;
    let slot = slot_index(1);
    region.output_events[slot * MAX_EVENTS_PER_BLOCK] = corrupted;
    region.output_event_count[slot] = 1;
    region.seq_tag[slot] = 1;
    region.seq_done = 1;

    let before = region.event_decode_error_count;
    host.process_block(&mut region, &mut out, &[], transport(120.0, 0.0));
    let after = region.event_decode_error_count;
    assert_eq!(after - before, 1);
}

#[test]
fn instrument_output_is_read_one_block_behind_and_zero_filled() {
    let mut region = AudioShared::new();
    let mut host = PipelinedInstrumentHost::new(&region);
    let mut out = vec![5u32; 4 * CHANNELS];
    host.process_block(&mut region, &mut out, &[], transport(120.0, 0.0));
    assert!(out.iter().all(|&x| x == 0), "silence before the first block");
    let slot = slot_index(1);
    region.n_frames[slot] = 2;
    for i in 0..8 {
        region.output[slot_offset(1) + i] = 100 + i as u32;
    }
    region.seq_tag[slot] = 1;
    region.seq_done = 1;
    let mut out = vec![5u32; 4 * CHANNELS];
    host.process_block(&mut region, &mut out, &[], transport(120.0, 0.0));
    assert_eq!(out, vec![100, 101, 102, 103, 0, 0, 0, 0]);
    assert_eq!(host.fresh, 1);
    let mut out = vec![5u32; 4 * CHANNELS];
    host.process_block(&mut region, &mut out, &[], transport(120.0, 0.0));
    assert_eq!(out, vec![100, 101, 102, 103, 0, 0, 0, 0], "stale repeats the last good block");
    assert_eq!(host.stale, 1);
}

fn midi_record(sample_offset: u32) -> EventRecord {
    EventRecord::encode(&midi(sample_offset))
}

#[test]
fn spillover_is_lossless_and_deterministic() {
    let mut ring = EventBackingRing::new();
    let total = MAX_EVENTS_PER_BLOCK + 17;
    for i in 0..total {
        assert!(ring.push(midi_record(i as u32)));
    }

    let mut first = vec![midi_record(0); MAX_EVENTS_PER_BLOCK];
    assert_eq!(ring.drain_into(&mut first), MAX_EVENTS_PER_BLOCK);
    assert_eq!(ring.len(), 17);
    for (i, ev) in first.iter().enumerate() {
        assert_eq!(ev.sample_offset, i as u32);
    }

    let mut second = vec![midi_record(0); MAX_EVENTS_PER_BLOCK];
    assert_eq!(ring.drain_into(&mut second), 17);
    assert!(ring.is_empty());
    for (i, ev) in second[..17].iter().enumerate() {
        assert_eq!(ev.sample_offset, (MAX_EVENTS_PER_BLOCK + i) as u32);
    }
}

#[test]
fn exhaustion_drops_newest_and_sets_note_flush_sticky_flag() {
    let mut ring = EventBackingRing::new();
    for i in 0..EVENT_BACKING_CAPACITY {
        assert!(ring.push(midi_record(i as u32)));
    }
    assert!(!ring.push(midi_record(99)));
    assert!(!ring.take_note_flush_pending());
    let note_off = EventRecord::encode(&NeutralEvent::NoteOff {
        sample_offset: 100,
        addr: VoiceAddr::wildcard(),
        velocity: 0.0f64.to_bits(),
    });
    assert!(!ring.push(note_off));
    assert!(ring.take_note_flush_pending());
    assert!(!ring.take_note_flush_pending());

    let mut first = [midi_record(0); 1];
    assert_eq!(ring.drain_into(&mut first), 1);
    assert_eq!(first[0].sample_offset, 0);
}

fn ordered_record(note_id: i32, sample_offset: u32) -> EventRecord {
    EventRecord::encode(&NeutralEvent::NoteChoke {
        sample_offset,
        addr: VoiceAddr { note_id, ..VoiceAddr::wildcard() },
    })
}

fn note_id(ev: &EventRecord) -> i32 {
    match ev.decode() {
        Some(NeutralEvent::NoteChoke { addr, .. }) => addr.note_id,
        _ => panic!("not a NoteChoke event"),
    }
}

#[test]
fn spillover_preserves_order_and_clamps_delivery_offset() {
    let mut fifo = EventSpillFifo::new();
    let total = MAX_EVENTS_PER_BLOCK + 23;
    for i in 0..total {
        assert!(fifo.push(ordered_record(i as i32, (i + 1) as u32)));
    }

    let mut first = vec![ordered_record(-1, 99); MAX_EVENTS_PER_BLOCK];
    assert_eq!(fifo.drain_into_window(&mut first), MAX_EVENTS_PER_BLOCK);
    assert!(first.iter().all(|ev| ev.sample_offset == 0));
    for (i, ev) in first.iter().enumerate() {
        assert_eq!(note_id(ev), i as i32);
    }
    assert_eq!(fifo.len(), 23);

    let mut second = vec![ordered_record(-1, 99); MAX_EVENTS_PER_BLOCK];
    assert_eq!(fifo.drain_into_window(&mut second), 23);
    assert!(second[..23].iter().all(|ev| ev.sample_offset == 0));
    assert!(fifo.is_empty());
    for (i, ev) in second[..23].iter().enumerate() {
        assert_eq!(note_id(ev), (MAX_EVENTS_PER_BLOCK + i) as i32);
    }
}

#[test]
fn per_block_sequence_keeps_spill_before_current_events() {
    let mut fifo = EventSpillFifo::new();
    assert!(fifo.push(midi_record(10)));
    assert!(fifo.push(midi_record(11)));
    let mut window = [midi_record(99); 4];
    let used = fifo.drain_into_window(&mut window);
    window[used] = midi_record(20);
    window[used + 1] = midi_record(21);
    assert_eq!(used, 2);
    assert_eq!(window[0].sample_offset, 0);
    assert_eq!(window[1].sample_offset, 0);
    assert_eq!(window[2].sample_offset, 20);
    assert_eq!(window[3].sample_offset, 21);
}

#[test]
fn exhaustion_drops_newest_and_reports_note_end() {
    let mut fifo = EventSpillFifo::new();
    for i in 0..EVENT_SPILL_CAPACITY {
        assert!(fifo.push(midi_record(i as u32)));
    }
    assert!(!fifo.push(midi_record(1)));
    assert!(!fifo.take_note_end_dropped());
    let note_end = EventRecord::encode(&NeutralEvent::NoteEnd { sample_offset: 2, addr: VoiceAddr::wildcard() });
    assert!(!fifo.push(note_end));
    assert!(fifo.take_note_end_dropped());
    assert!(!fifo.take_note_end_dropped());
}

#[test]
fn all_variants_round_trip() {
    let cases = [
        NeutralEvent::NoteOn {
            sample_offset: 12,
            addr: full_addr(7, 0, 1, 60),
            velocity: 0.8f64.to_bits(),
            tuning_cents: 3.5f32.to_bits(),
            length_frames: 4800,
        },
        NeutralEvent::NoteOff { sample_offset: 13, addr: full_addr(7, 0, 1, 60), velocity: 0.2f64.to_bits() },
        NeutralEvent::NoteChoke { sample_offset: 0, addr: full_addr(-1, 0, -1, -1) },
        NeutralEvent::NoteEnd { sample_offset: 5, addr: full_addr(7, 0, 1, 60) },
        NeutralEvent::PolyPressure { sample_offset: 1, addr: full_addr(7, 0, 1, 60), pressure: 0.44f64.to_bits() },
        NeutralEvent::NoteExpression {
            sample_offset: 2,
            addr: full_addr(7, 0, 1, 60),
            expression_id: NeutralExpressionId::Vibrato,
            value: (-0.3f64).to_bits(),
        },
        NeutralEvent::ParamValue {
            sample_offset: 9,
            param_id: 0xDEAD_BEEF_0001,
            addr: VoiceAddr::wildcard(),
            value: 0.75f64.to_bits(),
        },
        NeutralEvent::ParamMod {
            sample_offset: 10,
            param_id: 42,
            addr: full_addr(7, 0, 1, 60),
            amount: (-0.1f64).to_bits(),
        },
        NeutralEvent::ParamGestureBegin { sample_offset: 3, param_id: 99 },
        NeutralEvent::ParamGestureEnd { sample_offset: 4, param_id: 99 },
        NeutralEvent::MidiRaw { sample_offset: 6, port_index: 2, data: [0x90, 60, 100] },
        NeutralEvent::Midi2 { sample_offset: 7, port_index: 1, words: [0x4020_0000, 0x1234_5678, 0, 0] },
        NeutralEvent::LegacyMidiCcOut { sample_offset: 8, control_number: 7, channel: 3, value: 100, value2: 0 },
    ];

    for original in cases {
        let record = EventRecord::encode(&original);
        let decoded = record.decode().expect("a known kind always decodes");
        assert_eq!(decoded, original, "the round trip changed the value: {original:?}");
    }
}

#[test]
fn decode_rejects_unknown_kind() {
    let record = EventRecord { kind: 0xFFFF_FFFF, sample_offset: 0, payload: [0u8; 32] };
    assert!(record.decode().is_none());
}

#[test]
fn decode_rejects_out_of_range_expression_id() {
    let record = EventRecord::encode(&NeutralEvent::NoteExpression {
        sample_offset: 0,
        addr: VoiceAddr::wildcard(),
        expression_id: NeutralExpressionId::Pressure,
        value: 0.5f64.to_bits(),
    });
    assert!(record.decode().is_some());

    let mut corrupted = record;
    corrupted.payload[24..28].copy_from_slice(&99u32.to_le_bytes());
    assert!(corrupted.decode().is_none());
}

#[test]
fn voice_addr_wildcard_is_all_minus_one() {
    let w = VoiceAddr::wildcard();
    assert_eq!(w.note_id, -1);
    assert_eq!(w.port_index, -1);
    assert_eq!(w.channel, -1);
    assert_eq!(w.key, -1);
}

#[test]
fn payload_and_record_sizes_match_design() {
    let record = EventRecord { kind: 0, sample_offset: 0, payload: [0u8; 32] };
    assert_eq!(record.payload.len(), 32);
    assert_eq!(std::mem::size_of::<EventRecord>(), 40);
}

#[test]
fn child_output_fills_the_window_then_spills() {
    let mut spill = EventSpillFifo::new();
    let blank = EventRecord { kind: 0, sample_offset: 0, payload: [0u8; 32] };
    let mut window = vec![blank; 2];
    let mut written = 0usize;
    let a = EventRecord::encode(&midi(1));
    let b = EventRecord::encode(&midi(2));
    let c = EventRecord::encode(&midi(3));
    assert!(push_output(&mut spill, &mut window, &mut written, a));
    assert!(push_output(&mut spill, &mut window, &mut written, b));
    assert_eq!(written, 2);
    assert!(same_record(&window[0], &a));
    assert!(same_record(&window[1], &b));
    assert!(spill.is_empty());
    assert!(push_output(&mut spill, &mut window, &mut written, c));
    assert_eq!(written, 2);
    assert_eq!(spill.len(), 1);
    assert!(same_record(&window[1], &b));
}

fn same_record(x: &EventRecord, y: &EventRecord) -> bool {
    x.kind == y.kind && x.sample_offset == y.sample_offset && x.payload == y.payload
}

fn note_off(key: i16) -> EventRecord {
    EventRecord::encode(&NeutralEvent::NoteOff { sample_offset: 3, addr: addr(0, 1, key), velocity: 0.5f64.to_bits() })
}

fn note_end(key: i16) -> NeutralEvent {
    NeutralEvent::NoteEnd { sample_offset: 0, addr: addr(0, 1, key) }
}

fn undecodable() -> EventRecord {
    EventRecord { kind: 999, sample_offset: 0, payload: [0; 32] }
}

#[test]
fn instrument_block_answers_each_note_off_and_spends_the_burst_on_the_first() {
    let mut spill = EventSpillFifo::new();
    let mut burst = 2usize;
    let inputs = [note_off(60), EventRecord::encode(&note_on(61)), note_off(62), undecodable()];
    let mut window = vec![EventRecord::encode(&midi(0)); 6];
    let report = answer_block(&mut spill, &mut burst, &inputs, &mut window);
    assert_eq!(report, ChildBlockReport { written: 4, dropped: 0, note_end_dropped: 0, decode_errors: 1 });
    assert_eq!(burst, 0);
    let decoded: Vec<_> = window[..4].iter().map(|r| r.decode()).collect();
    assert_eq!(decoded, vec![Some(note_end(60)), Some(note_end(60)), Some(note_end(60)), Some(note_end(62))]);
    assert_eq!(window[4].decode(), Some(midi(0)));
    assert!(spill.is_empty());
}

#[test]
fn instrument_block_puts_carried_events_first_and_spills_the_overflow() {
    let mut spill = EventSpillFifo::new();
    let mut carried = EventRecord::encode(&note_end(50));
    carried.sample_offset = 40;
    assert!(spill.push(carried));
    let mut burst = 0usize;
    let mut window = vec![undecodable(); 2];
    let report = answer_block(&mut spill, &mut burst, &[note_off(60), note_off(61)], &mut window);
    assert_eq!(report, ChildBlockReport { written: 2, dropped: 0, note_end_dropped: 0, decode_errors: 0 });
    assert_eq!(window[0].decode(), Some(note_end(50)), "carried events move to the block start");
    assert_eq!(window[1].decode(), Some(note_end(60)));
    assert_eq!(spill.len(), 1);
    let mut next = vec![undecodable(); 1];
    assert_eq!(spill.drain_into_window(&mut next), 1);
    assert_eq!(next[0].decode(), Some(note_end(61)));
}

#[test]
fn instrument_block_counts_note_ends_that_fit_nowhere() {
    let mut spill = EventSpillFifo::new();
    for _ in 0..EVENT_SPILL_CAPACITY {
        assert!(spill.push(EventRecord::encode(&midi(0))));
    }
    let mut burst = 1usize;
    let mut window: Vec<EventRecord> = Vec::new();
    let report = answer_block(&mut spill, &mut burst, &[note_off(60), undecodable()], &mut window);
    assert_eq!(report, ChildBlockReport { written: 0, dropped: 2, note_end_dropped: 2, decode_errors: 1 });
    assert_eq!(spill.len(), EVENT_SPILL_CAPACITY);
    assert!(!spill.take_note_end_dropped());
}
