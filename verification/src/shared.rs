//! Plain-value model of the control part of the shared region (everything except the audio and
//! event transfer windows): child readiness, the command mailbox and the child → host event ring.
//!
//! Each field corresponds to one field of the cross-process region; the owner of a mapping copies
//! between the mapping and this model around calls into the library.

use crate::layout::{
    CHILD_FLAG_HAS_AUDIO_INPUT, CHILD_STATUS_READY, CHILD_STATUS_STARTING, CMD_ARG_BYTES,
    CMD_DETAIL_BYTES, CMD_NONE, CMD_RESULT_CHILD_EXITED, CONTROL_RUN, EVT_ARG_BYTES, EVT_NONE,
};
use crate::event_ring::{MonotoneEpoch, ReleaseAcquireSeq};
use vstd::prelude::*;
use vstd::string::StringSliceAdditionalSpecFns;

verus! {

/// Host → child command mailbox (single outstanding command).
pub struct CommandMailboxShared {
    /// Host → child: incremented for every new command; 0 = none issued.
    pub cmd_seq: u64,
    /// Host → child: command kind.
    pub cmd_kind: u32,
    /// Host → child: NUL-terminated UTF-8 argument.
    pub cmd_arg: [u8; 1024],
    /// Child → host: the `cmd_seq` whose processing is complete.
    pub cmd_ack_seq: u64,
    /// Child → host: result code.
    pub cmd_result: u32,
    /// Child → host: bytes produced on success, 0 on failure.
    pub cmd_result_len: u64,
    /// Child → host: NUL-terminated failure reason (or a success detail).
    pub cmd_result_detail: [u8; 256],
}

/// Child → host lossless event ring plus the dirty watermark.
pub struct EventRingShared {
    /// Child → host: incremented for every published event; 0 = none.
    pub evt_seq: ReleaseAcquireSeq,
    /// Child → host: per-slot event kind.
    pub evt_kind: [u32; 2],
    /// Child → host: per-slot NUL-terminated argument.
    pub evt_arg: [[u8; 256]; 2],
    /// Host → child: latest `evt_seq` whose host-side handling is complete.
    pub evt_ack_seq: ReleaseAcquireSeq,
    /// Child → host: cumulative plugin-dirty notifications (never reset on respawn).
    pub dirty_epoch: MonotoneEpoch,
}

/// Control part of the shared region.
pub struct SharedControl {
    /// Host → child run/quit flag.
    pub control: u32,
    /// Child → host readiness.
    pub child_status: u32,
    /// Child → host load-result flags.
    pub child_flags: u32,
    pub mailbox: CommandMailboxShared,
    pub events: EventRingShared,
}

impl CommandMailboxShared {
    /// A zero-initialised mailbox (the state of a freshly truncated region).
    pub fn new() -> (r: Self)
        ensures
            r.cmd_seq == 0,
            r.cmd_ack_seq == 0,
            r.cmd_kind == CMD_NONE,
            r.cmd_result == 0,
            r.cmd_result_len == 0,
            r.cmd_arg@ == Seq::new(CMD_ARG_BYTES as nat, |i: int| 0u8),
            r.cmd_result_detail@ == Seq::new(CMD_DETAIL_BYTES as nat, |i: int| 0u8),
    {
        let r = CommandMailboxShared {
            cmd_seq: 0,
            cmd_kind: CMD_NONE,
            cmd_arg: [0u8; 1024],
            cmd_ack_seq: 0,
            cmd_result: 0,
            cmd_result_len: 0,
            cmd_result_detail: [0u8; 256],
        };
        proof {
            assert(r.cmd_arg@ =~= Seq::new(CMD_ARG_BYTES as nat, |i: int| 0u8));
            assert(r.cmd_result_detail@ =~= Seq::new(CMD_DETAIL_BYTES as nat, |i: int| 0u8));
        }
        r
    }
}

impl EventRingShared {
    /// A zero-initialised event ring.
    pub fn new() -> (r: Self)
        ensures
            r.evt_seq.value == 0,
            r.evt_ack_seq.value == 0,
            r.dirty_epoch.value == 0,
            r.evt_kind[0] == EVT_NONE,
            r.evt_kind[1] == EVT_NONE,
            r.evt_arg[0]@ == Seq::new(EVT_ARG_BYTES as nat, |i: int| 0u8),
            r.evt_arg[1]@ == Seq::new(EVT_ARG_BYTES as nat, |i: int| 0u8),
    {
        let r = EventRingShared {
            evt_seq: ReleaseAcquireSeq { value: 0 },
            evt_kind: [EVT_NONE, EVT_NONE],
            evt_arg: [[0u8; 256], [0u8; 256]],
            evt_ack_seq: ReleaseAcquireSeq { value: 0 },
            dirty_epoch: MonotoneEpoch { value: 0 },
        };
        proof {
            assert(r.evt_arg[0]@ =~= Seq::new(EVT_ARG_BYTES as nat, |i: int| 0u8));
            assert(r.evt_arg[1]@ =~= Seq::new(EVT_ARG_BYTES as nat, |i: int| 0u8));
        }
        r
    }
}

impl SharedControl {
    /// A zero-initialised control block.
    pub fn new() -> (r: Self)
        ensures
            r.control == CONTROL_RUN,
            r.child_status == CHILD_STATUS_STARTING,
            r.child_flags == 0,
            r.mailbox.cmd_seq == 0,
            r.mailbox.cmd_ack_seq == 0,
            r.mailbox.cmd_kind == CMD_NONE,
            r.mailbox.cmd_result == 0,
            r.mailbox.cmd_result_len == 0,
            r.mailbox.cmd_arg@ == Seq::new(CMD_ARG_BYTES as nat, |i: int| 0u8),
            r.mailbox.cmd_result_detail@ == Seq::new(CMD_DETAIL_BYTES as nat, |i: int| 0u8),
            r.events.evt_seq.value == 0,
            r.events.evt_ack_seq.value == 0,
            r.events.dirty_epoch.value == 0,
            r.events.evt_kind[0] == EVT_NONE,
            r.events.evt_kind[1] == EVT_NONE,
            r.events.evt_arg[0]@ == Seq::new(EVT_ARG_BYTES as nat, |i: int| 0u8),
            r.events.evt_arg[1]@ == Seq::new(EVT_ARG_BYTES as nat, |i: int| 0u8),
    {
        SharedControl {
            control: CONTROL_RUN,
            child_status: CHILD_STATUS_STARTING,
            child_flags: 0,
            mailbox: CommandMailboxShared::new(),
            events: EventRingShared::new(),
        }
    }
}

/// Publish readiness after a successful plugin load: flags first, then `READY`.
pub fn publish_child_ready(region: &mut SharedControl, has_audio_input: bool)
    ensures
        final(region).child_flags == if has_audio_input {
            CHILD_FLAG_HAS_AUDIO_INPUT
        } else {
            0u32
        },
        final(region).child_status == CHILD_STATUS_READY,
        final(region).control == old(region).control,
        final(region).mailbox == old(region).mailbox,
        final(region).events == old(region).events,
{
    let flags = if has_audio_input {
        CHILD_FLAG_HAS_AUDIO_INPUT
    } else {
        0
    };
    region.child_flags = flags;
    region.child_status = CHILD_STATUS_READY;
}

/// Re-arm the region (`control = RUN`) after an attach teardown wrote `QUIT`.
pub fn reset_control_run(region: &mut SharedControl)
    ensures
        final(region).control == CONTROL_RUN,
        final(region).child_status == old(region).child_status,
        final(region).child_flags == old(region).child_flags,
        final(region).mailbox == old(region).mailbox,
        final(region).events == old(region).events,
{
    region.control = CONTROL_RUN;
}

/// The failure detail written when a command is failed because its child exited.
pub open spec fn child_exited_detail() -> Seq<u8> {
    "child exited before completing the command".spec_bytes()
}

/// The control block after [`reset_child_starting`] on `old`.
pub open spec fn reset_child_starting_post(old: SharedControl, new: SharedControl) -> bool {
    &&& (old.mailbox.cmd_seq > old.mailbox.cmd_ack_seq ==> {
        &&& new.mailbox.cmd_ack_seq == old.mailbox.cmd_seq
        &&& new.mailbox.cmd_result == CMD_RESULT_CHILD_EXITED
        &&& new.mailbox.cmd_result_len == 0
        &&& new.mailbox.cmd_result_detail@ == crate::cstr::cstr_stored(
            old.mailbox.cmd_result_detail@,
            child_exited_detail(),
        )
    })
    &&& (old.mailbox.cmd_seq <= old.mailbox.cmd_ack_seq ==> {
        &&& new.mailbox.cmd_ack_seq == old.mailbox.cmd_ack_seq
        &&& new.mailbox.cmd_result == old.mailbox.cmd_result
        &&& new.mailbox.cmd_result_len == old.mailbox.cmd_result_len
        &&& new.mailbox.cmd_result_detail == old.mailbox.cmd_result_detail
    })
    &&& (new.mailbox.cmd_seq == old.mailbox.cmd_seq)
    &&& (new.mailbox.cmd_kind == CMD_NONE)
    &&& (new.mailbox.cmd_arg@ == Seq::new(CMD_ARG_BYTES as nat, |i: int| 0u8))
    &&& (new.events.evt_seq.value == 0)
    &&& (new.events.evt_ack_seq.value == 0)
    &&& (new.events.evt_kind[0] == EVT_NONE)
    &&& (new.events.evt_kind[1] == EVT_NONE)
    &&& (new.events.evt_arg[0]@ == Seq::new(EVT_ARG_BYTES as nat, |i: int| 0u8))
    &&& (new.events.evt_arg[1]@ == Seq::new(EVT_ARG_BYTES as nat, |i: int| 0u8))
    &&& (new.events.dirty_epoch.value == old.events.dirty_epoch.value)
    &&& (new.child_status == CHILD_STATUS_STARTING)
    &&& (new.child_flags == 0)
    &&& (new.control == old.control)
}

/// Return the readiness handshake, the mailbox and the event ring to their initial state before a
/// replacement child is spawned on the same region (the previous child is known to be dead).
///
/// An unacknowledged command is completed with a `CHILD_EXITED` failure ack; the command sequence
/// is not rewound. The event cursors go back to 0. The dirty watermark is kept.
pub fn reset_child_starting(region: &mut SharedControl)
    ensures
        reset_child_starting_post(*old(region), *final(region)),
{
    let seq = region.mailbox.cmd_seq;
    let ack = region.mailbox.cmd_ack_seq;
    if seq > ack {
        proof {
            reveal_strlit("child exited before completing the command");
            crate::text::lemma_ascii_str_bytes("child exited before completing the command");
            assert(!child_exited_detail().contains(0u8));
        }
        let _ = crate::cstr::write_cstr_field(
            &mut region.mailbox.cmd_result_detail,
            "child exited before completing the command",
        );
        region.mailbox.cmd_result_len = 0;
        region.mailbox.cmd_result = CMD_RESULT_CHILD_EXITED;
        region.mailbox.cmd_ack_seq = seq;
    }
    region.mailbox.cmd_kind = CMD_NONE;
    region.mailbox.cmd_arg = [0u8; 1024];
    region.events.evt_seq.publish(0);
    region.events.evt_ack_seq.publish(0);
    region.events.evt_kind = [EVT_NONE, EVT_NONE];
    region.events.evt_arg = [[0u8; 256], [0u8; 256]];
    region.child_status = CHILD_STATUS_STARTING;
    region.child_flags = 0;
    proof {
        assert(region.mailbox.cmd_arg@ =~= Seq::new(CMD_ARG_BYTES as nat, |i: int| 0u8));
        assert(region.events.evt_arg[0]@ =~= Seq::new(EVT_ARG_BYTES as nat, |i: int| 0u8));
        assert(region.events.evt_arg[1]@ =~= Seq::new(EVT_ARG_BYTES as nat, |i: int| 0u8));
    }
}

} // verus!
