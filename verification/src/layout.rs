//! Shared-memory layout constants and slot assignment for the host/child transport.

use vstd::prelude::*;

verus! {

/// Maximum frames in one block.
pub const MAX_FRAMES: usize = 4096;
/// Channel count (stereo).
pub const CHANNELS: usize = 2;
/// Interleaved length of one slot (frames × channels).
pub const BUF_LEN: usize = 8192;
/// Event transfer window per block.
pub const MAX_EVENTS_PER_BLOCK: usize = 4096;
/// Number of ping-pong audio slots (pipeline depth). At least 2.
pub const SLOTS: usize = 2;
/// Number of child → host lossless event slots. At least 2.
pub const EVT_SLOTS: usize = 2;

/// Slot index (`0..SLOTS`) of a sequence number.
pub fn slot_index(seq: u64) -> (r: usize)
    ensures
        r == seq % (SLOTS as u64),
        r < SLOTS,
{
    (seq % (SLOTS as u64)) as usize
}

/// Event slot index (`0..EVT_SLOTS`) of an event sequence number.
pub fn evt_slot_index(seq: u64) -> (r: usize)
    ensures
        r == seq % (EVT_SLOTS as u64),
        r < EVT_SLOTS,
{
    (seq % (EVT_SLOTS as u64)) as usize
}

/// First element offset of the slot that a sequence number uses.
pub fn slot_offset(seq: u64) -> (r: usize)
    ensures
        r == (seq % (SLOTS as u64)) * (BUF_LEN as u64),
        r + BUF_LEN <= BUF_LEN * SLOTS,
{
    slot_index(seq) * BUF_LEN
}

/// Consecutive sequence numbers never share a slot, and sequence numbers `SLOTS` apart always do
/// (for both the audio slots and the event slots).
pub proof fn lemma_slot_cycle(seq: int)
    requires
        0 <= seq,
    ensures
        seq % (SLOTS as int) != (seq + 1) % (SLOTS as int),
        seq % (SLOTS as int) == (seq + SLOTS) % (SLOTS as int),
        seq % (EVT_SLOTS as int) != (seq + 1) % (EVT_SLOTS as int),
        seq % (EVT_SLOTS as int) == (seq + EVT_SLOTS) % (EVT_SLOTS as int),
{
    assert(seq % 2 != (seq + 1) % 2) by (nonlinear_arith)
        requires
            0 <= seq,
    ;
    assert(seq % 2 == (seq + 2) % 2) by (nonlinear_arith)
        requires
            0 <= seq,
    ;
}

/// `control`: the child keeps spinning.
pub const CONTROL_RUN: u32 = 0;
/// `control`: the host asks the child to leave its loop.
pub const CONTROL_QUIT: u32 = 1;
/// Child readiness: still loading.
pub const CHILD_STATUS_STARTING: u32 = 0;
/// Child readiness: plugin loaded, processing.
pub const CHILD_STATUS_READY: u32 = 1;
/// Child readiness: load failed.
pub const CHILD_STATUS_LOAD_FAILED: u32 = 2;
/// Child flag bit 0: the plugin has an audio input.
pub const CHILD_FLAG_HAS_AUDIO_INPUT: u32 = 1;

/// Byte length of `cmd_arg`.
pub const CMD_ARG_BYTES: usize = 1024;
/// Byte length of `cmd_result_detail`.
pub const CMD_DETAIL_BYTES: usize = 256;
/// Byte length of `evt_arg`.
pub const EVT_ARG_BYTES: usize = 256;

/// Command kind: none issued.
pub const CMD_NONE: u32 = 0;
/// Command kind: save plugin state to the path in `cmd_arg`.
pub const CMD_SAVE_STATE: u32 = 1;
/// Command kind: open plugin UI.
pub const CMD_OPEN_UI: u32 = 2;
/// Command kind: start the asynchronous UI close handshake.
pub const CMD_CLOSE_UI: u32 = 3;
/// Command kind: apply a prepared effect chain.
pub const CMD_APPLY_CHAIN: u32 = 4;
/// Command kind: save state of one stage.
pub const CMD_SAVE_STATE_AT: u32 = 5;
/// Command kind: open UI of one stage.
pub const CMD_OPEN_UI_AT: u32 = 6;
/// Command kind: close UI of one stage.
pub const CMD_CLOSE_UI_AT: u32 = 7;

/// Event kind: none.
pub const EVT_NONE: u32 = 0;
/// Event kind: plugin-initiated UI close started.
pub const EVT_UI_CLOSED: u32 = 1;
/// Event kind: UI close finished.
pub const EVT_UI_CLOSED_DONE: u32 = 2;

/// `cmd_result`: success.
pub const CMD_RESULT_OK: u32 = 0;
/// `cmd_result`: plugin returned no state.
pub const CMD_RESULT_PLUGIN_ERROR: u32 = 1;
/// `cmd_result`: writing the sidecar failed.
pub const CMD_RESULT_IO_ERROR: u32 = 2;
/// `cmd_result`: invalid `cmd_arg`.
pub const CMD_RESULT_BAD_ARG: u32 = 3;
/// `cmd_result`: unknown `cmd_kind`.
pub const CMD_RESULT_UNKNOWN_KIND: u32 = 4;
/// `cmd_result`: the child exited while the command was in flight.
pub const CMD_RESULT_CHILD_EXITED: u32 = 5;

/// Mailbox ack timeout for plugin state commands, in milliseconds.
pub const PLUGIN_STATE_MAILBOX_TIMEOUT_MS: u64 = 5000;
/// Mailbox ack timeout for `APPLY_CHAIN`, in milliseconds.
pub const APPLY_CHAIN_MAILBOX_TIMEOUT_MS: u64 = 60000;
/// Mailbox ack timeout for `OPEN_UI`, in milliseconds.
pub const OPEN_UI_MAILBOX_TIMEOUT_MS: u64 = 30000;

} // verus!
