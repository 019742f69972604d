# orbit_audio

Host/child audio sandbox transport and native output bookkeeping, with the logic verified by
Verus.

- `src/` — the verified library. The cross-process shared region is modelled by plain values
  (`shared::SharedControl`, `audio_host::AudioShared`); samples and gains travel as `f32` bit
  patterns. Modules: `layout` (slots and constants), `events` (fixed-size event records and their
  byte encoding), `event_rings` (host backing ring, child spill FIFO), `voice_table`,
  `audio_host` (pipelined effect and instrument hosts), `cstr`, `text`, `shared`, `event_ring`
  (lossless child → host event ring), `mailbox` (host → child command mailbox), `ui_codec` and
  `ui_pump` (plugin UI close handshake), `stream_stats`, `output` (device choice, liveness
  decisions, errors), `lines` (line programs, routing, render-target marking, source feeds and
  topology validation), `stage_vec` (the render path's fixed-capacity vectors),
  `instrument_child` (the fixture instrument child's per-block answer), `wav` (capture header and report), `retirement` (when a replaced line
  program may be freed), `parent_watch`, `rack_wire`, `offline`, `clock`.
- `app/` — process-facing glue: the memory-mapped region and the copies between it and the
  models, blocking waits around the mailbox and the UI pump, sidecar files, the capture writer
  thread, the audio-callback side of the hosts, JSON forms of the rack messages, error messages,
  child teardown, the parent pid, the sandbox child programs and the offline render driver.
- `tests/` — executable tests of the library.
