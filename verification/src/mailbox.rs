//! Host → child command mailbox: the child-side service step and the host-side single-outstanding
//! command coordinator.
//!
//! The mailbox holds one command at a time. The host publishes a command under a fresh sequence
//! number and waits for an acknowledgement carrying exactly that number; the child completes every
//! command it sees with an ack, including commands of unknown kind. A command the host gave up on
//! (timeout or protocol mismatch) keeps the slot occupied until its late ack arrives or the child
//! is reset.

use crate::cstr::{cstr_fits, cstr_stored, cstr_text, read_cstr_field, write_cstr_field};
use crate::layout::{
    APPLY_CHAIN_MAILBOX_TIMEOUT_MS, CHILD_STATUS_READY, CMD_APPLY_CHAIN, CMD_ARG_BYTES,
    CMD_CLOSE_UI, CMD_CLOSE_UI_AT, CMD_DETAIL_BYTES, CMD_OPEN_UI, CMD_OPEN_UI_AT,
    CMD_RESULT_BAD_ARG, CMD_RESULT_CHILD_EXITED, CMD_RESULT_IO_ERROR, CMD_RESULT_OK,
    CMD_RESULT_PLUGIN_ERROR, CMD_RESULT_UNKNOWN_KIND, CMD_SAVE_STATE, CMD_SAVE_STATE_AT,
    OPEN_UI_MAILBOX_TIMEOUT_MS, PLUGIN_STATE_MAILBOX_TIMEOUT_MS,
};
use crate::shared::{reset_child_starting, reset_child_starting_post, CommandMailboxShared, SharedControl};
use crate::text::{
    ascii_string, decimal_digits, decimal_string, decimal_text, is_ascii_bytes, lemma_decimal_digits, push_decimal,
    push_str_bytes,
};
use vstd::prelude::*;
use vstd::string::{StringExecFns, StringSliceAdditionalSpecFns};
use vstd::utf8::{decode_utf8, encode_utf8};

verus! {

/// Result of handling one mailbox command on the child side.
#[derive(Debug)]
pub struct CommandOutcome {
    /// Result code (`CMD_RESULT_OK`, ...).
    pub result: u32,
    /// Bytes produced on success (the sidecar length for a state save); 0 on failure.
    pub len: u64,
    /// Failure reason; normally empty on success (an idempotent UI close reports a detail).
    pub detail: String,
}

impl CommandOutcome {
    /// Success having produced `len` bytes.
    pub fn ok(len: u64) -> (r: Self)
        ensures
            r.result == CMD_RESULT_OK,
            r.len == len,
            r.detail@ == Seq::<char>::empty(),
    {
        CommandOutcome { result: CMD_RESULT_OK, len, detail: String::new() }
    }

    /// Failure with code `result` and the reason shown to the host.
    pub fn failed(result: u32, detail: String) -> (r: Self)
        ensures
            r.result == result,
            r.len == 0,
            r.detail@ == detail@,
    {
        CommandOutcome { result, len: 0, detail }
    }
}

/// Detail of a state save whose argument is missing or empty.
pub open spec fn bad_arg_detail() -> Seq<char> {
    "cmd_arg is empty or not NUL-terminated UTF-8"@
}

/// Whether `r` is the outcome of a state save to `path` once the plugin state capture returned
/// `captured`, the sidecar write being done by `write`.
pub open spec fn saved_outcome<W: FnOnce(&str, &[u8]) -> Result<(), String>>(
    write: W,
    path: &str,
    captured: Result<Vec<u8>, String>,
    r: CommandOutcome,
) -> bool {
    match captured {
        Err(e) => r.result == CMD_RESULT_PLUGIN_ERROR && r.len == 0 && r.detail@ == e@,
        Ok(bytes) => exists|b: &[u8], w: Result<(), String>|
            #![trigger call_ensures(write, (path, b), w)]
            b@ == bytes@ && call_ensures(write, (path, b), w) && match w {
                Ok(_) => r.result == CMD_RESULT_OK && r.len == bytes@.len() && r.detail@
                    == Seq::<char>::empty(),
                Err(e) => r.result == CMD_RESULT_IO_ERROR && r.len == 0 && r.detail@ == "write "@
                    + path@ + ": "@ + e@,
            },
    }
}

/// The common body of a state-save command: validate the argument, capture the plugin state,
/// write the sidecar, report the length. A missing or empty argument fails with `BAD_ARG`
/// before anything is captured; a capture failure is a plugin failure; a write failure is an I/O
/// failure whose detail keeps the path and the reason.
pub fn save_state_command<C, W>(path_arg: Option<&str>, capture: C, write: W) -> (r: CommandOutcome)
    where
        C: FnOnce() -> Result<Vec<u8>, String>,
        W: FnOnce(&str, &[u8]) -> Result<(), String>,
    requires
        path_arg matches Some(p) && p@.len() > 0 ==> call_requires(capture, ()),
        path_arg matches Some(p) && p@.len() > 0 ==> forall|target: &str, b: &[u8]| call_requires(write, (target, b)),
    ensures
        match path_arg {
            Some(p) => if p@.len() == 0 {
                r.result == CMD_RESULT_BAD_ARG && r.len == 0 && r.detail@ == bad_arg_detail()
            } else {
                exists|c: Result<Vec<u8>, String>|
                    #![trigger call_ensures(capture, (), c)]
                    call_ensures(capture, (), c) && saved_outcome(write, p, c, r)
            },
            None => r.result == CMD_RESULT_BAD_ARG && r.len == 0 && r.detail@ == bad_arg_detail(),
        },
{
    let path = match path_arg {
        Some(p) => p,
        None => {
            return CommandOutcome::failed(
                CMD_RESULT_BAD_ARG,
                String::from_str("cmd_arg is empty or not NUL-terminated UTF-8"),
            );
        },
    };
    if path.is_empty() {
        return CommandOutcome::failed(
            CMD_RESULT_BAD_ARG,
            String::from_str("cmd_arg is empty or not NUL-terminated UTF-8"),
        );
    }
    let captured = capture();
    let bytes = match captured {
        Ok(bytes) => bytes,
        Err(error) => {
            return CommandOutcome::failed(CMD_RESULT_PLUGIN_ERROR, error);
        },
    };
    let written = write(path, bytes.as_slice());
    match written {
        Ok(()) => CommandOutcome::ok(bytes.len() as u64),
        Err(error) => {
            let detail = String::from_str("write ").concat(path).concat(": ").concat(
                error.as_str(),
            );
            CommandOutcome::failed(CMD_RESULT_IO_ERROR, detail)
        },
    }
}

/// Detail bytes of the ack for a command of unknown kind.
pub open spec fn unknown_kind_detail(kind: u32) -> Seq<u8> {
    "unknown cmd_kind ".spec_bytes() + decimal_digits(kind as nat)
}

/// Detail bytes written in place of a detail that does not fit the field.
pub open spec fn detail_too_long() -> Seq<u8> {
    "detail too long".spec_bytes()
}

/// The detail field after acknowledging with `detail`: the detail when it fits, else the
/// fixed replacement (never a truncation).
pub open spec fn written_detail(old_field: Seq<u8>, detail: Seq<u8>) -> Seq<u8> {
    if cstr_fits(detail, CMD_DETAIL_BYTES as int) {
        cstr_stored(old_field, detail)
    } else {
        cstr_stored(old_field, detail_too_long())
    }
}

/// Whether `a` is what the child reads from the argument field.
pub open spec fn read_arg(field: Seq<u8>, a: Option<&str>) -> bool {
    match cstr_text(field) {
        Some(t) => a matches Some(s) && s.spec_bytes() == t,
        None => a is None,
    }
}

/// Whether `new` is `old` with its pending command acknowledged with the given result.
pub open spec fn acked_with(
    old: CommandMailboxShared,
    new: CommandMailboxShared,
    result: u32,
    len: u64,
    detail: Seq<u8>,
) -> bool {
    &&& new.cmd_ack_seq == old.cmd_seq
    &&& new.cmd_result == result
    &&& new.cmd_result_len == len
    &&& new.cmd_result_detail@ == written_detail(old.cmd_result_detail@, detail)
    &&& new.cmd_seq == old.cmd_seq
    &&& new.cmd_kind == old.cmd_kind
    &&& new.cmd_arg == old.cmd_arg
}

/// Whether `new` is `old` acknowledged with the handler's answer `o` (an unknown kind when `None`).
pub open spec fn acked_with_answer(
    old: CommandMailboxShared,
    new: CommandMailboxShared,
    o: Option<CommandOutcome>,
) -> bool {
    match o {
        Some(out) => acked_with(old, new, out.result, out.len, encode_utf8(out.detail@)),
        None => acked_with(old, new, CMD_RESULT_UNKNOWN_KIND, 0, unknown_kind_detail(old.cmd_kind)),
    }
}

fn unknown_kind_outcome(kind: u32) -> (r: CommandOutcome)
    ensures
        r.result == CMD_RESULT_UNKNOWN_KIND,
        r.len == 0,
        encode_utf8(r.detail@) == unknown_kind_detail(kind),
{
    let mut bytes: Vec<u8> = Vec::new();
    push_str_bytes(&mut bytes, "unknown cmd_kind ");
    push_decimal(&mut bytes, kind as u64);
    proof {
        reveal_strlit("unknown cmd_kind ");
        crate::text::lemma_ascii_str_bytes("unknown cmd_kind ");
        lemma_decimal_digits(kind as nat);
        let lit = "unknown cmd_kind ".spec_bytes();
        let d = decimal_digits(kind as nat);
        assert(bytes@ =~= lit + d);
        assert forall|i: int| 0 <= i < bytes@.len() implies #[trigger] bytes@[i] < 128 by {
            if i >= lit.len() {
                assert(crate::text::is_digit(d[i - lit.len()]));
            }
        }
        assert(is_ascii_bytes(bytes@));
    }
    let detail = ascii_string(&bytes);
    CommandOutcome { result: CMD_RESULT_UNKNOWN_KIND, len: 0, detail }
}

/// Child side: when a command is pending (`cmd_seq > cmd_ack_seq`), hand its kind and argument
/// (`None` when the argument is unterminated or not UTF-8) to `handler` and acknowledge its
/// answer; a `None` answer is acknowledged as an unknown kind. Returns whether a command was
/// serviced; with none pending the region is left as it is.
pub fn service_command_mailbox<F>(region: &mut CommandMailboxShared, handler: F) -> (r: bool)
    where
        F: FnOnce(u32, Option<&str>) -> Option<CommandOutcome>,
    requires
        forall|k: u32, a: Option<&str>| call_requires(handler, (k, a)),
    ensures
        r == (old(region).cmd_seq > old(region).cmd_ack_seq),
        !r ==> *final(region) == *old(region),
        r ==> exists|a: Option<&str>, o: Option<CommandOutcome>|
            #![trigger call_ensures(handler, (old(region).cmd_kind, a), o)]
            read_arg(old(region).cmd_arg@, a) && call_ensures(handler, (old(region).cmd_kind, a), o)
                && acked_with_answer(*old(region), *final(region), o),
{
    let seq = region.cmd_seq;
    if seq <= region.cmd_ack_seq {
        return false;
    }
    let kind = region.cmd_kind;
    let ghost old_region = *region;
    let arg = read_cstr_field(&region.cmd_arg);
    let answer = handler(kind, arg);
    let ghost ghost_answer = answer;
    let outcome = match answer {
        Some(o) => o,
        None => unknown_kind_outcome(kind),
    };
    if !write_cstr_field(&mut region.cmd_result_detail, outcome.detail.as_str()) {
        proof {
            reveal_strlit("detail too long");
            crate::text::lemma_ascii_str_bytes("detail too long");
            assert(!detail_too_long().contains(0u8));
        }
        let _ = write_cstr_field(&mut region.cmd_result_detail, "detail too long");
    }
    region.cmd_result_len = outcome.len;
    region.cmd_result = outcome.result;
    region.cmd_ack_seq = seq;
    proof {
        assert(read_arg(old_region.cmd_arg@, arg));
        assert(acked_with_answer(old_region, *region, ghost_answer));
    }
    true
}

/// A command acknowledged by the child.
#[derive(Debug)]
pub struct CommandMailboxResponse {
    pub bytes_written: u64,
    /// Detail returned by the child (an idempotent UI close may report one on success).
    pub detail: String,
}

/// Host-side mailbox failure.
#[derive(Debug)]
pub enum CommandMailboxError {
    /// The shared region could not be mapped (the reason as text).
    Mapping(String),
    /// Removing the sidecar of a released command failed.
    SidecarCleanup { path: String, error: String },
    /// The command argument was refused before anything was published.
    InvalidArgument(String),
    /// Another command is still waiting for its ack.
    Busy { seq: u64 },
    /// A command that was given up on has still not been acknowledged.
    Poisoned { seq: u64 },
    /// No ack arrived within the timeout.
    Timeout { seq: u64, elapsed_ms: u64 },
    /// The child exited while the command was outstanding.
    ChildExited { seq: u64, detail: String },
    /// The child acknowledged the command with a failure result.
    CommandFailed { seq: u64, result: u32, detail: String },
    /// The acknowledged sequence number is past the command's own.
    Protocol { seq: u64, ack: u64 },
    /// No further command sequence number is available.
    SequenceExhausted,
    /// The coordinator's lock was poisoned.
    CoordinatorPoisoned,
}

/// The message of a mailbox failure.
pub open spec fn mailbox_error_text(e: CommandMailboxError) -> Seq<char> {
    match e {
        CommandMailboxError::Mapping(m) => "plugin state mailbox mapping failed: "@ + m@,
        CommandMailboxError::SidecarCleanup { path, error } => "abandoned sidecar cleanup failed: "@ + path@ + ": "@
            + error@,
        CommandMailboxError::InvalidArgument(m) => "invalid plugin state sidecar path: "@ + m@,
        CommandMailboxError::Busy { seq } => "plugin state mailbox command "@ + decimal_text(seq as nat)
            + " is still in flight"@,
        CommandMailboxError::Poisoned { seq } => "plugin state mailbox command "@ + decimal_text(seq as nat)
            + " timed out and remains in flight"@,
        CommandMailboxError::Timeout { seq, elapsed_ms } => "plugin state mailbox command "@ + decimal_text(
            seq as nat,
        ) + " timed out after "@ + decimal_text(elapsed_ms as nat) + " ms"@,
        CommandMailboxError::ChildExited { seq, detail } => "plugin child exited during mailbox command "@
            + decimal_text(seq as nat) + ": "@ + detail@,
        CommandMailboxError::CommandFailed { seq, result, detail } => "plugin state mailbox command "@
            + decimal_text(seq as nat) + " failed (result="@ + decimal_text(result as nat) + "): "@ + detail@,
        CommandMailboxError::Protocol { seq, ack } => "plugin state mailbox ack mismatch: expected exactly "@
            + decimal_text(seq as nat) + ", got "@ + decimal_text(ack as nat),
        CommandMailboxError::SequenceExhausted => "plugin state mailbox sequence exhausted"@,
        CommandMailboxError::CoordinatorPoisoned => "plugin state mailbox coordinator poisoned"@,
    }
}

impl CommandMailboxError {
    /// The failure as a message for people.
    pub fn message(&self) -> (r: String)
        ensures
            r@ == mailbox_error_text(*self),
    {
        match self {
            CommandMailboxError::Mapping(m) => String::from_str("plugin state mailbox mapping failed: ").concat(
                m.as_str(),
            ),
            CommandMailboxError::SidecarCleanup { path, error } => String::from_str(
                "abandoned sidecar cleanup failed: ",
            ).concat(path.as_str()).concat(": ").concat(error.as_str()),
            CommandMailboxError::InvalidArgument(m) => String::from_str("invalid plugin state sidecar path: ").concat(
                m.as_str(),
            ),
            CommandMailboxError::Busy { seq } => {
                let n = decimal_string(*seq);
                String::from_str("plugin state mailbox command ").concat(n.as_str()).concat(" is still in flight")
            },
            CommandMailboxError::Poisoned { seq } => {
                let n = decimal_string(*seq);
                String::from_str("plugin state mailbox command ").concat(n.as_str()).concat(
                    " timed out and remains in flight",
                )
            },
            CommandMailboxError::Timeout { seq, elapsed_ms } => {
                let n = decimal_string(*seq);
                let e = decimal_string(*elapsed_ms);
                String::from_str("plugin state mailbox command ").concat(n.as_str()).concat(
                    " timed out after ",
                ).concat(e.as_str()).concat(" ms")
            },
            CommandMailboxError::ChildExited { seq, detail } => {
                let n = decimal_string(*seq);
                String::from_str("plugin child exited during mailbox command ").concat(n.as_str()).concat(
                    ": ",
                ).concat(detail.as_str())
            },
            CommandMailboxError::CommandFailed { seq, result, detail } => {
                let n = decimal_string(*seq);
                let code = decimal_string(*result as u64);
                String::from_str("plugin state mailbox command ").concat(n.as_str()).concat(
                    " failed (result=",
                ).concat(code.as_str()).concat("): ").concat(detail.as_str())
            },
            CommandMailboxError::Protocol { seq, ack } => {
                let n = decimal_string(*seq);
                let a = decimal_string(*ack);
                String::from_str("plugin state mailbox ack mismatch: expected exactly ").concat(n.as_str()).concat(
                    ", got ",
                ).concat(a.as_str())
            },
            CommandMailboxError::SequenceExhausted => String::from_str("plugin state mailbox sequence exhausted"),
            CommandMailboxError::CoordinatorPoisoned => String::from_str("plugin state mailbox coordinator poisoned"),
        }
    }
}

/// The outstanding command. `generation` is the coordinator generation it was issued in; acks are
/// matched on both the sequence number and the generation.
#[derive(Debug)]
pub struct InFlightCommand<P> {
    pub seq: u64,
    pub generation: u64,
    /// Given up on (timeout or protocol mismatch): the slot stays taken until a late ack or reset.
    pub abandoned: bool,
    pub kind: u32,
    /// Sidecar file the command writes, removed when the command is released unfinished.
    pub sidecar_path: Option<P>,
}

/// One step of issuing a command.
#[derive(Debug)]
pub enum IssueStep<P> {
    /// The command was published under `seq`; wait for its ack for at most `timeout_ms`.
    Published { seq: u64, generation: u64, timeout_ms: u64 },
    /// An abandoned command whose late ack has arrived was released instead; its sidecar must be
    /// removed (and `saved_after_abandon` reported) before issuing again.
    Released { command: InFlightCommand<P>, saved_after_abandon: bool },
}

/// What a reset released: the outstanding command, if any, and whether it was an abandoned state
/// save that nevertheless succeeded.
#[derive(Debug)]
pub struct MailboxReset<P> {
    pub released: Option<InFlightCommand<P>>,
    pub saved_after_abandon: bool,
}

/// Host-side single-outstanding command coordinator. `P` is the type of sidecar paths.
#[derive(Debug)]
pub struct CommandMailboxHost<P> {
    /// Bumped (wrapping) on every reset after a child exit.
    pub generation: u64,
    pub in_flight: Option<InFlightCommand<P>>,
}

/// Whether an abandoned state save was acknowledged with success (its result is being discarded).
pub open spec fn abandoned_save_succeeded_spec<P>(region: CommandMailboxShared, c: InFlightCommand<P>) -> bool {
    c.abandoned && c.kind == CMD_SAVE_STATE && c.sidecar_path is Some && region.cmd_ack_seq == c.seq
        && region.cmd_result == CMD_RESULT_OK
}

/// Whether an abandoned state save was acknowledged with success, so that discarding it loses a
/// state that was in fact saved.
pub fn abandoned_save_succeeded<P>(region: &CommandMailboxShared, in_flight: &InFlightCommand<P>) -> (r: bool)
    ensures
        r == abandoned_save_succeeded_spec(*region, *in_flight),
{
    if !in_flight.abandoned || in_flight.kind != CMD_SAVE_STATE {
        return false;
    }
    if in_flight.sidecar_path.is_none() {
        return false;
    }
    region.cmd_ack_seq == in_flight.seq && region.cmd_result == CMD_RESULT_OK
}

/// Whether `new` is `old` with a command of `kind` and argument bytes `arg` published under
/// sequence number `old.cmd_seq + 1` (result fields cleared first, the ack untouched).
pub open spec fn published_command(
    old: CommandMailboxShared,
    new: CommandMailboxShared,
    kind: u32,
    arg: Seq<u8>,
) -> bool {
    &&& new.cmd_seq == old.cmd_seq + 1
    &&& new.cmd_kind == kind
    &&& new.cmd_arg@ == cstr_stored(old.cmd_arg@, arg)
    &&& new.cmd_result_detail@ == cstr_stored(old.cmd_result_detail@, Seq::<u8>::empty())
    &&& new.cmd_result_len == 0
    &&& new.cmd_result == CMD_RESULT_OK
    &&& new.cmd_ack_seq == old.cmd_ack_seq
}

/// The text of the acknowledged detail field.
pub open spec fn ack_detail(field: Seq<u8>, d: Seq<char>) -> bool {
    match cstr_text(field) {
        Some(t) => encode_utf8(d) == t,
        None => d == "invalid UTF-8 in command detail"@,
    }
}

/// The in-flight slot after settling the command (`seq`, `generation`): cleared when it is
/// that command, else unchanged.
pub open spec fn cleared_if_current<P>(slot: Option<InFlightCommand<P>>, seq: u64, generation: u64) -> Option<InFlightCommand<P>> {
    match slot {
        Some(c) => if c.seq == seq && c.generation == generation { None } else { slot },
        None => slot,
    }
}

/// The in-flight slot after giving up on the command (`seq`, `generation`): marked abandoned when
/// it is that command, else unchanged.
pub open spec fn abandoned_if_current<P>(slot: Option<InFlightCommand<P>>, seq: u64, generation: u64) -> Option<InFlightCommand<P>> {
    match slot {
        Some(c) => if c.seq == seq && c.generation == generation {
            Some(InFlightCommand { abandoned: true, ..c })
        } else {
            slot
        },
        None => slot,
    }
}

/// Whether `r`, with the coordinator going from `old_host` to `new_host` and the mailbox from
/// `old_region` to `new_region`, is an outcome of [`CommandMailboxHost::begin_command`] for a
/// command of `kind` with argument bytes `arg`.
pub open spec fn command_begun<P>(
    old_host: CommandMailboxHost<P>,
    new_host: CommandMailboxHost<P>,
    old_region: CommandMailboxShared,
    new_region: CommandMailboxShared,
    kind: u32,
    arg: Seq<u8>,
    sidecar_path: Option<P>,
    timeout_ms: u64,
    r: Result<IssueStep<P>, CommandMailboxError>,
) -> bool {
    &&& new_host.generation == old_host.generation
    &&& match old_host.in_flight {
        Some(c) => {
            &&& new_region == old_region
            &&& if !c.abandoned {
                r == Err::<IssueStep<P>, CommandMailboxError>(CommandMailboxError::Busy { seq: c.seq })
                    && new_host.in_flight == old_host.in_flight
            } else if old_region.cmd_ack_seq != c.seq {
                r == Err::<IssueStep<P>, CommandMailboxError>(CommandMailboxError::Poisoned { seq: c.seq })
                    && new_host.in_flight == old_host.in_flight
            } else {
                &&& r == Ok::<IssueStep<P>, CommandMailboxError>(IssueStep::Released {
                    command: c,
                    saved_after_abandon: abandoned_save_succeeded_spec(old_region, c),
                })
                &&& new_host.in_flight is None
            }
        },
        None => if old_region.cmd_seq == u64::MAX {
            r == Err::<IssueStep<P>, CommandMailboxError>(CommandMailboxError::SequenceExhausted)
                && new_region == old_region && new_host.in_flight is None
        } else if !cstr_fits(arg, CMD_ARG_BYTES as int) {
            &&& r matches Err(CommandMailboxError::InvalidArgument(m))
                && m@ == "command argument must contain no NUL and fit in CMD_ARG_BYTES=1024"@
            &&& new_region == old_region
            &&& new_host.in_flight is None
        } else {
            let seq = (old_region.cmd_seq + 1) as u64;
            &&& r == Ok::<IssueStep<P>, CommandMailboxError>(IssueStep::Published {
                seq,
                generation: old_host.generation,
                timeout_ms,
            })
            &&& published_command(old_region, new_region, kind, arg)
            &&& new_host.in_flight == Some(InFlightCommand {
                seq,
                generation: old_host.generation,
                abandoned: false,
                kind,
                sidecar_path,
            })
        },
    }
}

/// Outcome of issuing a state save: refused unless the path is absolute and UTF-8, else the
/// command `SAVE_STATE` with the path as argument and `sidecar` as its sidecar.
pub open spec fn save_state_issued<P>(
    old_host: CommandMailboxHost<P>,
    new_host: CommandMailboxHost<P>,
    old_region: CommandMailboxShared,
    new_region: CommandMailboxShared,
    absolute: bool,
    path: Option<&str>,
    sidecar: P,
    timeout_ms: u64,
    r: Result<IssueStep<P>, CommandMailboxError>,
) -> bool {
    if !absolute {
        &&& r matches Err(CommandMailboxError::InvalidArgument(m)) && m@ == "path must be absolute"@
        &&& new_host == old_host
        &&& new_region == old_region
    } else {
        match path {
            Some(p) => command_begun(
                old_host,
                new_host,
                old_region,
                new_region,
                CMD_SAVE_STATE,
                p.spec_bytes(),
                Some(sidecar),
                timeout_ms,
                r,
            ),
            None => {
                &&& r matches Err(CommandMailboxError::InvalidArgument(m)) && m@ == "path must be valid UTF-8"@
                &&& new_host == old_host
                &&& new_region == old_region
            },
        }
    }
}

/// Outcome of issuing an effect-rack plan: refused unless the path is UTF-8, else the command
/// `APPLY_CHAIN` with the path as argument.
pub open spec fn apply_chain_issued<P>(
    old_host: CommandMailboxHost<P>,
    new_host: CommandMailboxHost<P>,
    old_region: CommandMailboxShared,
    new_region: CommandMailboxShared,
    plan_path: Option<&str>,
    timeout_ms: u64,
    r: Result<IssueStep<P>, CommandMailboxError>,
) -> bool {
    match plan_path {
        Some(p) => command_begun(old_host, new_host, old_region, new_region, CMD_APPLY_CHAIN, p.spec_bytes(), None, timeout_ms, r),
        None => {
            &&& r matches Err(CommandMailboxError::InvalidArgument(m)) && m@ == "plan path must be valid UTF-8"@
            &&& new_host == old_host
            &&& new_region == old_region
        },
    }
}

/// Whether `r`, with the coordinator going from `old_host` to `new_host`, is the outcome of
/// [`CommandMailboxHost::poll_ack`] for the command (`seq`, `generation`) on the mailbox `region`.
pub open spec fn ack_polled<P>(
    old_host: CommandMailboxHost<P>,
    new_host: CommandMailboxHost<P>,
    region: CommandMailboxShared,
    seq: u64,
    generation: u64,
    elapsed_ms: u64,
    timeout_ms: u64,
    r: Option<Result<CommandMailboxResponse, CommandMailboxError>>,
) -> bool {
    &&& new_host.generation == old_host.generation
    &&& if old_host.generation != generation {
        &&& r matches Some(Err(CommandMailboxError::ChildExited { seq: s, detail }))
            && s == seq
            && detail@ == "child died and the mailbox was reset before replacement spawn"@
        &&& new_host.in_flight == old_host.in_flight
    } else if region.cmd_ack_seq == seq {
        &&& new_host.in_flight == cleared_if_current(old_host.in_flight, seq, generation)
        &&& if region.cmd_result == CMD_RESULT_OK {
            r matches Some(Ok(resp)) && resp.bytes_written == region.cmd_result_len
                && ack_detail(region.cmd_result_detail@, resp.detail@)
        } else if region.cmd_result == CMD_RESULT_CHILD_EXITED {
            r matches Some(Err(CommandMailboxError::ChildExited { seq: s, detail })) && s == seq
                && ack_detail(region.cmd_result_detail@, detail@)
        } else {
            r matches Some(Err(CommandMailboxError::CommandFailed { seq: s, result, detail }))
                && s == seq && result == region.cmd_result
                && ack_detail(region.cmd_result_detail@, detail@)
        }
    } else if region.cmd_ack_seq > seq {
        &&& r matches Some(Err(CommandMailboxError::Protocol { seq: s, ack }))
            && s == seq && ack == region.cmd_ack_seq
        &&& new_host.in_flight == abandoned_if_current(old_host.in_flight, seq, generation)
    } else if elapsed_ms >= timeout_ms {
        &&& r matches Some(Err(CommandMailboxError::Timeout { seq: s, elapsed_ms: e }))
            && s == seq && e == elapsed_ms
        &&& new_host.in_flight == abandoned_if_current(old_host.in_flight, seq, generation)
    } else {
        r is None && new_host.in_flight == old_host.in_flight
    }
}

impl<P> CommandMailboxHost<P> {
    /// A coordinator with nothing outstanding.
    pub fn new() -> (r: Self)
        ensures
            r.generation == 0,
            r.in_flight is None,
    {
        CommandMailboxHost { generation: 0, in_flight: None }
    }

    /// Whether the current child incarnation reported readiness.
    pub fn child_is_ready(&self, region: &SharedControl) -> (r: bool)
        ensures
            r == (region.child_status == CHILD_STATUS_READY),
    {
        region.child_status == CHILD_STATUS_READY
    }

    /// Start issuing a command of `kind` with argument `arg`.
    ///
    /// With a command outstanding this is `Busy`, or `Poisoned` for an abandoned command whose
    /// ack has not arrived; an abandoned command whose ack has arrived is released (nothing is
    /// published). With nothing outstanding the command is published under the next sequence
    /// number, unless the sequence is exhausted or the argument does not fit the field.
    pub fn begin_command(
        &mut self,
        region: &mut CommandMailboxShared,
        kind: u32,
        arg: &str,
        sidecar_path: Option<P>,
        timeout_ms: u64,
    ) -> (r: Result<IssueStep<P>, CommandMailboxError>)
        ensures
            command_begun(
                *old(self),
                *final(self),
                *old(region),
                *final(region),
                kind,
                arg.spec_bytes(),
                sidecar_path,
                timeout_ms,
                r,
            ),
    {
        match self.in_flight.take() {
            Some(c) => {
                if !c.abandoned {
                    let seq = c.seq;
                    self.in_flight = Some(c);
                    return Err(CommandMailboxError::Busy { seq });
                }
                if region.cmd_ack_seq != c.seq {
                    let seq = c.seq;
                    self.in_flight = Some(c);
                    return Err(CommandMailboxError::Poisoned { seq });
                }
                let saved_after_abandon = abandoned_save_succeeded(region, &c);
                return Ok(IssueStep::Released { command: c, saved_after_abandon });
            },
            None => {},
        }
        let previous = region.cmd_seq;
        let seq = match previous.checked_add(1) {
            Some(s) => s,
            None => {
                return Err(CommandMailboxError::SequenceExhausted);
            },
        };
        let ghost old_region = *region;
        if !write_cstr_field(&mut region.cmd_arg, arg) {
            proof {
                broadcast use vstd::array::axiom_array_ext_equal;

                assert(region.cmd_arg =~= old_region.cmd_arg);
            }
            return Err(
                CommandMailboxError::InvalidArgument(
                    String::from_str(
                        "command argument must contain no NUL and fit in CMD_ARG_BYTES=1024",
                    ),
                ),
            );
        }
        proof {
            reveal_strlit("");
            assert("".spec_bytes() =~= Seq::<u8>::empty());
        }
        let _ = write_cstr_field(&mut region.cmd_result_detail, "");
        region.cmd_result_len = 0;
        region.cmd_result = CMD_RESULT_OK;
        region.cmd_kind = kind;
        region.cmd_seq = seq;
        let generation = self.generation;
        self.in_flight = Some(
            InFlightCommand { seq, generation, abandoned: false, kind, sidecar_path },
        );
        Ok(IssueStep::Published { seq, generation, timeout_ms })
    }

    /// One check of the ack of the command (`seq`, `generation`) issued earlier, `elapsed_ms`
    /// after it was published. `None` means keep waiting.
    ///
    /// A reset since the command was issued ends it as `ChildExited`. An exact ack releases the
    /// slot and reports the child's result. An ack past `seq` is a protocol error and, like a
    /// timeout, leaves the command abandoned (its slot taken) rather than released.
    pub fn poll_ack(
        &mut self,
        region: &CommandMailboxShared,
        seq: u64,
        generation: u64,
        elapsed_ms: u64,
        timeout_ms: u64,
    ) -> (r: Option<Result<CommandMailboxResponse, CommandMailboxError>>)
        ensures
            ack_polled(*old(self), *final(self), *region, seq, generation, elapsed_ms, timeout_ms, r),
    {
        if self.generation != generation {
            return Some(
                Err(
                    CommandMailboxError::ChildExited {
                        seq,
                        detail: String::from_str(
                            "child died and the mailbox was reset before replacement spawn",
                        ),
                    },
                ),
            );
        }
        let ack = region.cmd_ack_seq;
        if ack == seq {
            let result = region.cmd_result;
            let bytes_written = region.cmd_result_len;
            let detail = match read_cstr_field(&region.cmd_result_detail) {
                Some(text) => String::from_str(text),
                None => String::from_str("invalid UTF-8 in command detail"),
            };
            self.clear_if_current(seq, generation);
            if result == CMD_RESULT_OK {
                return Some(Ok(CommandMailboxResponse { bytes_written, detail }));
            } else if result == CMD_RESULT_CHILD_EXITED {
                return Some(Err(CommandMailboxError::ChildExited { seq, detail }));
            } else {
                return Some(Err(CommandMailboxError::CommandFailed { seq, result, detail }));
            }
        }
        if ack > seq {
            self.abandon_if_current(seq, generation);
            return Some(Err(CommandMailboxError::Protocol { seq, ack }));
        }
        if elapsed_ms >= timeout_ms {
            self.abandon_if_current(seq, generation);
            return Some(Err(CommandMailboxError::Timeout { seq, elapsed_ms }));
        }
        None
    }

    /// Issue a state save to `sidecar` (the path `path`, `None` when it is not UTF-8) with the
    /// standard timeout. The path must be absolute and UTF-8.
    pub fn issue_save_state(
        &mut self,
        region: &mut CommandMailboxShared,
        absolute: bool,
        path: Option<&str>,
        sidecar: P,
    ) -> (r: Result<IssueStep<P>, CommandMailboxError>)
        ensures
            save_state_issued(
                *old(self),
                *final(self),
                *old(region),
                *final(region),
                absolute,
                path,
                sidecar,
                PLUGIN_STATE_MAILBOX_TIMEOUT_MS,
                r,
            ),
    {
        self.issue_save_state_with_timeout(region, absolute, path, sidecar, PLUGIN_STATE_MAILBOX_TIMEOUT_MS)
    }

    /// [`Self::issue_save_state`] with an explicit ack timeout.
    pub fn issue_save_state_with_timeout(
        &mut self,
        region: &mut CommandMailboxShared,
        absolute: bool,
        path: Option<&str>,
        sidecar: P,
        timeout_ms: u64,
    ) -> (r: Result<IssueStep<P>, CommandMailboxError>)
        ensures
            save_state_issued(
                *old(self),
                *final(self),
                *old(region),
                *final(region),
                absolute,
                path,
                sidecar,
                timeout_ms,
                r,
            ),
    {
        if !absolute {
            return Err(CommandMailboxError::InvalidArgument(String::from_str("path must be absolute")));
        }
        match path {
            Some(p) => self.begin_command(region, CMD_SAVE_STATE, p, Some(sidecar), timeout_ms),
            None => Err(
                CommandMailboxError::InvalidArgument(String::from_str("path must be valid UTF-8")),
            ),
        }
    }

    /// Issue opening the plugin UI in a window titled `window_title`.
    pub fn issue_open_ui(&mut self, region: &mut CommandMailboxShared, window_title: &str) -> (r: Result<
        IssueStep<P>,
        CommandMailboxError,
    >)
        ensures
            command_begun(
                *old(self),
                *final(self),
                *old(region),
                *final(region),
                CMD_OPEN_UI,
                window_title.spec_bytes(),
                None,
                OPEN_UI_MAILBOX_TIMEOUT_MS,
                r,
            ),
    {
        self.begin_command(region, CMD_OPEN_UI, window_title, None, OPEN_UI_MAILBOX_TIMEOUT_MS)
    }

    /// Issue closing the plugin UI.
    pub fn issue_close_ui(&mut self, region: &mut CommandMailboxShared) -> (r: Result<IssueStep<P>, CommandMailboxError>)
        ensures
            command_begun(
                *old(self),
                *final(self),
                *old(region),
                *final(region),
                CMD_CLOSE_UI,
                Seq::<u8>::empty(),
                None,
                PLUGIN_STATE_MAILBOX_TIMEOUT_MS,
                r,
            ),
    {
        proof {
            reveal_strlit("");
            assert("".spec_bytes() =~= Seq::<u8>::empty());
        }
        self.begin_command(region, CMD_CLOSE_UI, "", None, PLUGIN_STATE_MAILBOX_TIMEOUT_MS)
    }

    /// Issue applying a complete effect-rack plan stored at `plan_path` (`None` when the path is
    /// not UTF-8), with the dedicated long timeout.
    pub fn issue_apply_chain(&mut self, region: &mut CommandMailboxShared, plan_path: Option<&str>) -> (r: Result<
        IssueStep<P>,
        CommandMailboxError,
    >)
        ensures
            apply_chain_issued(
                *old(self),
                *final(self),
                *old(region),
                *final(region),
                plan_path,
                APPLY_CHAIN_MAILBOX_TIMEOUT_MS,
                r,
            ),
    {
        self.issue_apply_chain_with_timeout(region, plan_path, APPLY_CHAIN_MAILBOX_TIMEOUT_MS)
    }

    /// [`Self::issue_apply_chain`] with an explicit ack timeout.
    pub fn issue_apply_chain_with_timeout(
        &mut self,
        region: &mut CommandMailboxShared,
        plan_path: Option<&str>,
        timeout_ms: u64,
    ) -> (r: Result<IssueStep<P>, CommandMailboxError>)
        ensures
            apply_chain_issued(*old(self), *final(self), *old(region), *final(region), plan_path, timeout_ms, r),
    {
        match plan_path {
            Some(p) => self.begin_command(region, CMD_APPLY_CHAIN, p, None, timeout_ms),
            None => Err(
                CommandMailboxError::InvalidArgument(String::from_str("plan path must be valid UTF-8")),
            ),
        }
    }

    /// Issue a state save of one rack stage (`argument`) to `sidecar`, which must be absolute.
    pub fn issue_save_state_at(
        &mut self,
        region: &mut CommandMailboxShared,
        argument: &str,
        absolute: bool,
        sidecar: P,
    ) -> (r: Result<IssueStep<P>, CommandMailboxError>)
        ensures
            !absolute ==> (r matches Err(CommandMailboxError::InvalidArgument(m)) && m@ == "path must be absolute"@)
                && *final(self) == *old(self) && *final(region) == *old(region),
            absolute ==> command_begun(
                *old(self),
                *final(self),
                *old(region),
                *final(region),
                CMD_SAVE_STATE_AT,
                argument.spec_bytes(),
                Some(sidecar),
                PLUGIN_STATE_MAILBOX_TIMEOUT_MS,
                r,
            ),
    {
        if !absolute {
            return Err(CommandMailboxError::InvalidArgument(String::from_str("path must be absolute")));
        }
        self.begin_command(region, CMD_SAVE_STATE_AT, argument, Some(sidecar), PLUGIN_STATE_MAILBOX_TIMEOUT_MS)
    }

    /// Issue opening the UI of one rack stage.
    pub fn issue_open_ui_at(&mut self, region: &mut CommandMailboxShared, argument: &str) -> (r: Result<
        IssueStep<P>,
        CommandMailboxError,
    >)
        ensures
            command_begun(
                *old(self),
                *final(self),
                *old(region),
                *final(region),
                CMD_OPEN_UI_AT,
                argument.spec_bytes(),
                None,
                OPEN_UI_MAILBOX_TIMEOUT_MS,
                r,
            ),
    {
        self.begin_command(region, CMD_OPEN_UI_AT, argument, None, OPEN_UI_MAILBOX_TIMEOUT_MS)
    }

    /// Issue closing the UI of one rack stage.
    pub fn issue_close_ui_at(&mut self, region: &mut CommandMailboxShared, argument: &str) -> (r: Result<
        IssueStep<P>,
        CommandMailboxError,
    >)
        ensures
            command_begun(
                *old(self),
                *final(self),
                *old(region),
                *final(region),
                CMD_CLOSE_UI_AT,
                argument.spec_bytes(),
                None,
                PLUGIN_STATE_MAILBOX_TIMEOUT_MS,
                r,
            ),
    {
        self.begin_command(region, CMD_CLOSE_UI_AT, argument, None, PLUGIN_STATE_MAILBOX_TIMEOUT_MS)
    }

    fn clear_if_current(&mut self, seq: u64, generation: u64)
        ensures
            final(self).generation == old(self).generation,
            final(self).in_flight == cleared_if_current(old(self).in_flight, seq, generation),
    {
        let current = match &self.in_flight {
            Some(c) => c.seq == seq && c.generation == generation,
            None => false,
        };
        if current {
            self.in_flight = None;
        }
    }

    fn abandon_if_current(&mut self, seq: u64, generation: u64)
        ensures
            final(self).generation == old(self).generation,
            final(self).in_flight == abandoned_if_current(old(self).in_flight, seq, generation),
    {
        match self.in_flight.take() {
            Some(c) => {
                if c.seq == seq && c.generation == generation {
                    self.in_flight = Some(InFlightCommand { abandoned: true, ..c });
                } else {
                    self.in_flight = Some(c);
                }
            },
            None => {},
        }
    }

    /// After the old child is known to be dead and before a replacement is spawned: fail the
    /// outstanding command in the region, reset the region's child-facing state, start a new
    /// generation and release the outstanding command (its sidecar must then be removed).
    pub fn reset_after_child_exit(&mut self, region: &mut SharedControl) -> (r: MailboxReset<P>)
        ensures
            final(self).generation == if old(self).generation == u64::MAX {
                0
            } else {
                (old(self).generation + 1) as u64
            },
            final(self).in_flight is None,
            r.released == old(self).in_flight,
            r.saved_after_abandon == match old(self).in_flight {
                Some(c) => abandoned_save_succeeded_spec(old(region).mailbox, c),
                None => false,
            },
            reset_child_starting_post(*old(region), *final(region)),
    {
        let saved_after_abandon = match &self.in_flight {
            Some(c) => abandoned_save_succeeded(&region.mailbox, c),
            None => false,
        };
        reset_child_starting(region);
        self.generation = self.generation.wrapping_add(1);
        let released = self.in_flight.take();
        MailboxReset { released, saved_after_abandon }
    }
}

/// Exact-ack round trip: a command published while nothing is outstanding, then serviced by the
/// child with a successful outcome whose detail fits, is answered to the host with exactly the
/// child's byte count and detail, and the slot is free again.
pub proof fn lemma_command_round_trip<P>(
    h0: CommandMailboxHost<P>,
    h1: CommandMailboxHost<P>,
    h2: CommandMailboxHost<P>,
    m0: CommandMailboxShared,
    m1: CommandMailboxShared,
    m2: CommandMailboxShared,
    kind: u32,
    arg: Seq<u8>,
    sidecar_path: Option<P>,
    timeout_ms: u64,
    issued: Result<IssueStep<P>, CommandMailboxError>,
    out: CommandOutcome,
    elapsed_ms: u64,
    answered: Option<Result<CommandMailboxResponse, CommandMailboxError>>,
)
    requires
        h0.in_flight is None,
        m0.cmd_seq < u64::MAX,
        cstr_fits(arg, CMD_ARG_BYTES as int),
        command_begun(h0, h1, m0, m1, kind, arg, sidecar_path, timeout_ms, issued),
        acked_with_answer(m1, m2, Some(out)),
        out.result == CMD_RESULT_OK,
        cstr_fits(encode_utf8(out.detail@), CMD_DETAIL_BYTES as int),
        ack_polled(h1, h2, m2, (m0.cmd_seq + 1) as u64, h0.generation, elapsed_ms, timeout_ms, answered),
    ensures
        issued == Ok::<IssueStep<P>, CommandMailboxError>(
            IssueStep::Published { seq: (m0.cmd_seq + 1) as u64, generation: h0.generation, timeout_ms },
        ),
        answered matches Some(Ok(resp)) && resp.bytes_written == out.len && resp.detail@ == out.detail@,
        h2.in_flight is None,
{
    broadcast use vstd::utf8::encode_utf8_valid_utf8, vstd::utf8::encode_utf8_decode_utf8;

    let d = encode_utf8(out.detail@);
    crate::cstr::lemma_cstr_round_trip(m1.cmd_result_detail@, d);
    if let Some(Ok(resp)) = answered {
        assert(encode_utf8(resp.detail@) == d);
        assert(decode_utf8(encode_utf8(resp.detail@)) == resp.detail@);
        assert(decode_utf8(d) == out.detail@);
    }
}

/// A command given up on after its timeout keeps the slot: the poll reports the timeout with the
/// time waited; until the late ack arrives every new command is refused as poisoned and nothing
/// is published; once it has arrived the next attempt releases the command (handing back its
/// sidecar) and the attempt after that publishes the next sequence number.
pub proof fn lemma_abandoned_command_blocks_until_late_ack<P>(
    h0: CommandMailboxHost<P>,
    h1: CommandMailboxHost<P>,
    m: CommandMailboxShared,
    m_after: CommandMailboxShared,
    seq: u64,
    generation: u64,
    elapsed_ms: u64,
    timeout_ms: u64,
    polled: Option<Result<CommandMailboxResponse, CommandMailboxError>>,
    h2: CommandMailboxHost<P>,
    m_next: CommandMailboxShared,
    kind: u32,
    arg: Seq<u8>,
    sidecar_path: Option<P>,
    t: u64,
    r: Result<IssueStep<P>, CommandMailboxError>,
    h3: CommandMailboxHost<P>,
    m_last: CommandMailboxShared,
    kind3: u32,
    arg3: Seq<u8>,
    sidecar_path3: Option<P>,
    t3: u64,
    r3: Result<IssueStep<P>, CommandMailboxError>,
)
    requires
        h0.in_flight matches Some(c) && c.seq == seq && c.generation == generation && !c.abandoned,
        h0.generation == generation,
        m.cmd_ack_seq < seq,
        elapsed_ms >= timeout_ms,
        ack_polled(h0, h1, m, seq, generation, elapsed_ms, timeout_ms, polled),
        m_after.cmd_ack_seq <= seq,
        m_after.cmd_seq == seq,
        seq < u64::MAX,
        command_begun(h1, h2, m_after, m_next, kind, arg, sidecar_path, t, r),
        command_begun(h2, h3, m_next, m_last, kind3, arg3, sidecar_path3, t3, r3),
        cstr_fits(arg3, CMD_ARG_BYTES as int),
    ensures
        polled matches Some(Err(CommandMailboxError::Timeout { seq: s, elapsed_ms: e })) && s == seq && e
            >= timeout_ms,
        m_after.cmd_ack_seq != seq ==> {
            &&& r == Err::<IssueStep<P>, CommandMailboxError>(CommandMailboxError::Poisoned { seq })
            &&& r3 == Err::<IssueStep<P>, CommandMailboxError>(CommandMailboxError::Poisoned { seq })
            &&& m_next == m_after && m_last == m_after
        },
        m_after.cmd_ack_seq == seq ==> {
            &&& r matches Ok(IssueStep::Released { command, .. }) && command.seq == seq && command.sidecar_path
                == h0.in_flight.unwrap().sidecar_path
            &&& h2.in_flight is None
            &&& m_next == m_after
            &&& r3 == Ok::<IssueStep<P>, CommandMailboxError>(
                IssueStep::Published { seq: (seq + 1) as u64, generation, timeout_ms: t3 },
            )
        },
{
}

/// An ack ahead of the outstanding command is a protocol error that gives the command up: the
/// slot stays taken, so new commands are refused as poisoned (publishing nothing) until the ack
/// matches the command, and the attempt after that releases it.
pub proof fn lemma_ack_ahead_poisons_until_exact_ack<P>(
    h0: CommandMailboxHost<P>,
    h1: CommandMailboxHost<P>,
    m: CommandMailboxShared,
    m_after: CommandMailboxShared,
    seq: u64,
    generation: u64,
    elapsed_ms: u64,
    timeout_ms: u64,
    polled: Option<Result<CommandMailboxResponse, CommandMailboxError>>,
    h2: CommandMailboxHost<P>,
    m_next: CommandMailboxShared,
    kind: u32,
    arg: Seq<u8>,
    sidecar_path: Option<P>,
    t: u64,
    r: Result<IssueStep<P>, CommandMailboxError>,
)
    requires
        h0.in_flight matches Some(c) && c.seq == seq && c.generation == generation && !c.abandoned,
        h0.generation == generation,
        m.cmd_ack_seq > seq,
        ack_polled(h0, h1, m, seq, generation, elapsed_ms, timeout_ms, polled),
        command_begun(h1, h2, m_after, m_next, kind, arg, sidecar_path, t, r),
    ensures
        polled matches Some(Err(CommandMailboxError::Protocol { seq: s, ack })) && s == seq && ack == m.cmd_ack_seq,
        h1.in_flight matches Some(c) && c.seq == seq && c.abandoned,
        m_next == m_after,
        m_after.cmd_ack_seq != seq ==> r == Err::<IssueStep<P>, CommandMailboxError>(
            CommandMailboxError::Poisoned { seq },
        ) && h2.in_flight == h1.in_flight,
        m_after.cmd_ack_seq == seq ==> (r matches Ok(IssueStep::Released { command, .. }) && command.seq == seq
            && h2.in_flight is None),
{
}

/// One command at a time: while a command waits for its ack (not given up), a second one is
/// refused as busy with the first one's sequence number and writes nothing, and the first one
/// still completes with the child's answer once its ack arrives.
pub proof fn lemma_second_command_is_busy<P>(
    h0: CommandMailboxHost<P>,
    h1: CommandMailboxHost<P>,
    m: CommandMailboxShared,
    m_next: CommandMailboxShared,
    kind: u32,
    arg: Seq<u8>,
    sidecar_path: Option<P>,
    t: u64,
    r: Result<IssueStep<P>, CommandMailboxError>,
    h2: CommandMailboxHost<P>,
    m_acked: CommandMailboxShared,
    elapsed_ms: u64,
    timeout_ms: u64,
    polled: Option<Result<CommandMailboxResponse, CommandMailboxError>>,
)
    requires
        h0.in_flight matches Some(c) && !c.abandoned && c.generation == h0.generation,
        command_begun(h0, h1, m, m_next, kind, arg, sidecar_path, t, r),
        m_acked.cmd_ack_seq == h0.in_flight.unwrap().seq,
        m_acked.cmd_result == CMD_RESULT_OK,
        ack_polled(h1, h2, m_acked, h0.in_flight.unwrap().seq, h0.generation, elapsed_ms, timeout_ms, polled),
    ensures
        r == Err::<IssueStep<P>, CommandMailboxError>(CommandMailboxError::Busy { seq: h0.in_flight.unwrap().seq }),
        m_next == m,
        h1.in_flight == h0.in_flight,
        polled matches Some(Ok(resp)) && resp.bytes_written == m_acked.cmd_result_len,
        h2.in_flight is None,
{
}

/// A reset after a child exit ends every command issued before it: polling its ack reports that
/// the child exited, whatever the region holds.
pub proof fn lemma_reset_ends_outstanding_command<P>(
    h0: CommandMailboxHost<P>,
    h1: CommandMailboxHost<P>,
    h2: CommandMailboxHost<P>,
    m: CommandMailboxShared,
    seq: u64,
    elapsed_ms: u64,
    timeout_ms: u64,
    polled: Option<Result<CommandMailboxResponse, CommandMailboxError>>,
)
    requires
        h1.generation == (if h0.generation == u64::MAX { 0 } else { (h0.generation + 1) as u64 }),
        ack_polled(h1, h2, m, seq, h0.generation, elapsed_ms, timeout_ms, polled),
    ensures
        polled matches Some(Err(CommandMailboxError::ChildExited { seq: s, .. })) && s == seq,
        h2.in_flight == h1.in_flight,
{
}

} // verus!
