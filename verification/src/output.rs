//! Output device selection rules and output errors.
//!
//! The audio backend enumerates devices and builds streams; the decisions taken on what it
//! reports — which device a request names, whether a missing or unusable device falls back to the
//! host default, whether a device's rate is acceptable — are made here.

use crate::text::{bytes_equal, decimal_string, decimal_text};
use vstd::prelude::*;
use vstd::string::{StringExecFns, StringSliceAdditionalSpecFns};

verus! {

/// Which stream a liveness check was watching.
#[derive(Debug, Clone, Copy, PartialEq, Eq)]
pub enum StreamLivenessPhase {
    Probe,
    RealStream,
}

/// Why a stream is being built.
#[derive(Debug, Clone, Copy, PartialEq, Eq, Structural)]
pub enum StreamBuildStage {
    Startup,
    Switch,
}

/// Injected output faults (for exercising liveness failures).
#[derive(Debug, Clone, Copy, PartialEq, Eq)]
pub enum OutputFault {
    NoFault,
    DeadProbeRequested,
    DeadAllProbes,
    DeadRealStream,
    DeadRealStreamOnSwitch,
}

impl OutputFault {
    /// Whether the real stream's callbacks are suppressed at `stage`.
    pub fn suppresses_real_callback(self, stage: StreamBuildStage) -> (r: bool)
        ensures
            r == (self == OutputFault::DeadRealStream || (self == OutputFault::DeadRealStreamOnSwitch
                && stage == StreamBuildStage::Switch)),
    {
        match self {
            OutputFault::DeadRealStream => true,
            OutputFault::DeadRealStreamOnSwitch => match stage {
                StreamBuildStage::Switch => true,
                StreamBuildStage::Startup => false,
            },
            _ => false,
        }
    }
}

impl OutputFault {
    /// Whether the preflight probe of a candidate has its callbacks suppressed: every probe
    /// under `DeadAllProbes`, the requested device's probe under `DeadProbeRequested`.
    pub fn suppresses_probe_callback(self, requested_candidate: bool) -> (r: bool)
        ensures
            r == (self == OutputFault::DeadAllProbes || (requested_candidate && self == OutputFault::DeadProbeRequested)),
    {
        match self {
            OutputFault::DeadAllProbes => true,
            OutputFault::DeadProbeRequested => requested_candidate,
            _ => false,
        }
    }
}

impl Default for OutputFault {
    fn default() -> (r: Self)
        ensures
            r == OutputFault::NoFault,
    {
        OutputFault::NoFault
    }
}

/// A request for an output device by name (`None` = host default).
#[derive(Debug, Clone)]
pub struct OutputDeviceRequest {
    pub name: Option<String>,
    pub fault: OutputFault,
}

/// Why the requested device was replaced by the host default.
#[derive(Debug, Clone)]
pub struct DeviceFallback {
    pub requested: String,
    pub reason: String,
}

/// One output device as listed for users.
#[derive(Debug, Clone)]
pub struct AudioDeviceInfo {
    pub name: String,
    pub is_default: bool,
    pub max_output_channels: u16,
    pub default_sample_rate: u32,
    pub direction: &'static str,
}

/// What to do when the requested device cannot be used.
#[derive(Debug, Clone, Copy, PartialEq, Eq)]
pub enum DeviceFallbackPolicy {
    /// Fall back to the host default device (startup).
    FallBackToHostDefault,
    /// Refuse and keep the current device (live switch).
    RejectAndKeepCurrent,
}

impl DeviceFallbackPolicy {
    /// Whether falling back to the host default is allowed.
    pub fn allows_fallback(self) -> (r: bool)
        ensures
            r == (self == DeviceFallbackPolicy::FallBackToHostDefault),
    {
        match self {
            DeviceFallbackPolicy::FallBackToHostDefault => true,
            DeviceFallbackPolicy::RejectAndKeepCurrent => false,
        }
    }
}

/// Output failure.
#[derive(Debug)]
pub enum OutputError {
    NoDevice,
    NoConfig(String),
    BuildStream(String),
    PlayStream(String),
    PauseStream(String),
    DeviceName(String),
    Capture(String),
    /// The device produced no callback in time.
    StreamDead { device: String, waited_ms: u64, phase: StreamLivenessPhase },
    /// The requested device cannot be used and falling back is not allowed.
    DeviceUnavailable { requested: String, reason: String },
    /// The device runs at another rate than the engine.
    SampleRateMismatch { device: String, device_rate: u32, engine_rate: u32 },
    /// Switching failed and resuming the old stream failed too.
    SwitchRecoveryFailed { primary: Box<OutputError>, resume: Box<OutputError> },
}

/// The message of an output failure.
pub open spec fn output_error_text(e: OutputError) -> Seq<char>
    decreases e,
{
    match e {
        OutputError::NoDevice => "no default output device found"@,
        OutputError::NoConfig(m) => "no supported output config: "@ + m@,
        OutputError::BuildStream(m) => "cpal build stream error: "@ + m@,
        OutputError::PlayStream(m) => "cpal play stream error: "@ + m@,
        OutputError::PauseStream(m) => "cpal pause stream error: "@ + m@,
        OutputError::DeviceName(m) => "failed to read output device name: "@ + m@,
        OutputError::Capture(m) => "capture writer error: "@ + m@,
        OutputError::StreamDead { device, waited_ms, .. } => "audio output device \""@ + device@
            + "\" produced no callback within "@ + decimal_text(waited_ms as nat) + " ms"@,
        OutputError::DeviceUnavailable { requested, reason } => "requested output device \""@ + requested@
            + "\" is not available ("@ + reason@ + "); keeping the current device"@,
        OutputError::SampleRateMismatch { device, device_rate, engine_rate } => "audio output device \""@ + device@
            + "\" uses "@ + decimal_text(device_rate as nat) + " Hz, but the running engine uses "@ + decimal_text(
            engine_rate as nat,
        ) + " Hz; restart the engine to change sample rate"@,
        OutputError::SwitchRecoveryFailed { primary, resume } => output_error_text(*primary)
            + "; additionally failed to resume the old audio stream: "@ + output_error_text(*resume),
    }
}

impl OutputError {
    /// The failure as a message for people.
    pub fn message(&self) -> (r: String)
        ensures
            r@ == output_error_text(*self),
        decreases *self,
    {
        match self {
            OutputError::NoDevice => String::from_str("no default output device found"),
            OutputError::NoConfig(m) => String::from_str("no supported output config: ").concat(m.as_str()),
            OutputError::BuildStream(m) => String::from_str("cpal build stream error: ").concat(m.as_str()),
            OutputError::PlayStream(m) => String::from_str("cpal play stream error: ").concat(m.as_str()),
            OutputError::PauseStream(m) => String::from_str("cpal pause stream error: ").concat(m.as_str()),
            OutputError::DeviceName(m) => String::from_str("failed to read output device name: ").concat(m.as_str()),
            OutputError::Capture(m) => String::from_str("capture writer error: ").concat(m.as_str()),
            OutputError::StreamDead { device, waited_ms, .. } => {
                let w = decimal_string(*waited_ms);
                String::from_str("audio output device \"").concat(device.as_str()).concat(
                    "\" produced no callback within ",
                ).concat(w.as_str()).concat(" ms")
            },
            OutputError::DeviceUnavailable { requested, reason } => String::from_str(
                "requested output device \"",
            ).concat(requested.as_str()).concat("\" is not available (").concat(reason.as_str()).concat(
                "); keeping the current device",
            ),
            OutputError::SampleRateMismatch { device, device_rate, engine_rate } => {
                let d = decimal_string(*device_rate as u64);
                let e = decimal_string(*engine_rate as u64);
                String::from_str("audio output device \"").concat(device.as_str()).concat("\" uses ").concat(
                    d.as_str(),
                ).concat(" Hz, but the running engine uses ").concat(e.as_str()).concat(
                    " Hz; restart the engine to change sample rate",
                )
            },
            OutputError::SwitchRecoveryFailed { primary, resume } => {
                let p = primary.message();
                let q = resume.message();
                p.concat("; additionally failed to resume the old audio stream: ").concat(q.as_str())
            },
        }
    }
}

/// Whether two strings are equal, compared by their bytes.
pub fn str_equal(a: &str, b: &str) -> (r: bool)
    ensures
        r == (a@ == b@),
{
    let eq = bytes_equal(a.as_bytes(), b.as_bytes());
    proof {
        broadcast use vstd::utf8::encode_utf8_decode_utf8;

        if eq {
            assert(vstd::utf8::decode_utf8(a.spec_bytes()) == vstd::utf8::decode_utf8(b.spec_bytes()));
        }
    }
    eq
}

/// The first of `available` equal to `requested` (exact, case-sensitive match).
pub open spec fn first_match(requested: Seq<char>, available: Seq<String>) -> Option<int> {
    if exists|i: int| 0 <= i < available.len() && available[i]@ == requested {
        Some(choose|i: int| 0 <= i < available.len() && available[i]@ == requested && forall|j: int| 0 <= j < i ==> available[j]@ != requested)
    } else {
        None
    }
}

/// Index of the first device named exactly `requested`.
pub fn find_requested_device(requested: &str, available: &[String]) -> (r: Option<usize>)
    ensures
        match r {
            Some(i) => i < available@.len() && available@[i as int]@ == requested@ && forall|j: int|
                0 <= j < i ==> available@[j]@ != requested@,
            None => forall|j: int| 0 <= j < available@.len() ==> available@[j]@ != requested@,
        },
{
    let mut i: usize = 0;
    while i < available.len()
        invariant
            0 <= i <= available@.len(),
            forall|j: int| 0 <= j < i ==> available@[j]@ != requested@,
        decreases available@.len() - i,
    {
        if str_equal(available[i].as_str(), requested) {
            return Some(i);
        }
        i += 1;
    }
    None
}

/// The name to honour for a requested device: the requested name itself when a device of exactly
/// that name is available, else `None` (also when nothing is requested).
pub fn resolve_requested_device_name(requested: Option<&str>, available: &[String]) -> (r: Option<String>)
    ensures
        match requested {
            None => r is None,
            Some(name) => if exists|i: int| 0 <= i < available@.len() && available@[i]@ == name@ {
                r matches Some(s) && s@ == name@
            } else {
                r is None
            },
        },
{
    let requested = match requested {
        Some(name) => name,
        None => {
            return None;
        },
    };
    match find_requested_device(requested, available) {
        Some(i) => Some(available[i].clone()),
        None => None,
    }
}

/// Accept the device's rate unless the engine already runs at another rate.
pub fn validate_expected_sample_rate(device: &str, device_rate: u32, expected_sample_rate: Option<u32>) -> (r: Result<(), OutputError>)
    ensures
        match expected_sample_rate {
            Some(engine_rate) => if device_rate != engine_rate {
                r matches Err(OutputError::SampleRateMismatch { device: d, device_rate: dr, engine_rate: er })
                    && d@ == device@ && dr == device_rate && er == engine_rate
            } else {
                r is Ok
            },
            None => r is Ok,
        },
{
    match expected_sample_rate {
        Some(engine_rate) => {
            if device_rate != engine_rate {
                return Err(
                    OutputError::SampleRateMismatch { device: String::from_str(device), device_rate, engine_rate },
                );
            }
            Ok(())
        },
        None => Ok(()),
    }
}

/// Whether a link egress channel takes part in a block: ready and with scratch for the block.
pub fn channel_egress_active(ready: bool, scratch_len: usize, block: usize) -> (r: bool)
    ensures
        r == (ready && scratch_len >= block),
{
    ready && scratch_len >= block
}

/// The callback-liveness deadline of the preflight probe and of the real stream, in milliseconds.
pub const FIRST_CALLBACK_DEADLINE_MS: u64 = 3000;

/// Poll period while waiting for the first callback, in microseconds.
pub const FIRST_CALLBACK_POLL_US: u64 = 10000;

/// One step of waiting for the first callback.
#[derive(Debug, Clone, Copy, PartialEq, Eq)]
pub enum CallbackConfirmation {
    /// A callback was observed; the elapsed time in milliseconds.
    Confirmed(u64),
    /// The deadline passed without a callback.
    Expired,
    /// Sleep this many microseconds, then look again.
    Wait(u64),
}

/// Decide one step of waiting for a callback counter to move past `baseline`: an observed
/// callback wins even at the deadline; otherwise the deadline ends the wait; otherwise sleep one
/// poll period, or less when the deadline is nearer. Times are microseconds since the wait began.
pub fn confirm_callback_step(observed: u64, baseline: u64, elapsed_us: u64, deadline_us: u64) -> (r: CallbackConfirmation)
    ensures
        observed > baseline ==> r == CallbackConfirmation::Confirmed(elapsed_us / 1000),
        observed <= baseline && elapsed_us >= deadline_us ==> r == CallbackConfirmation::Expired,
        observed <= baseline && elapsed_us < deadline_us ==> r == CallbackConfirmation::Wait(
            if deadline_us - elapsed_us < FIRST_CALLBACK_POLL_US {
                (deadline_us - elapsed_us) as u64
            } else {
                FIRST_CALLBACK_POLL_US
            },
        ),
{
    if observed > baseline {
        return CallbackConfirmation::Confirmed(elapsed_us / 1000);
    }
    if elapsed_us >= deadline_us {
        return CallbackConfirmation::Expired;
    }
    let remaining = deadline_us - elapsed_us;
    if remaining < FIRST_CALLBACK_POLL_US {
        CallbackConfirmation::Wait(remaining)
    } else {
        CallbackConfirmation::Wait(FIRST_CALLBACK_POLL_US)
    }
}

/// The reason recorded when the requested device produced no callback and the host default is
/// used instead.
pub open spec fn dead_probe_fallback_reason(requested: Seq<char>) -> Seq<char> {
    "requested device \""@ + requested
        + "\" produced no callback within 3000 ms — falling back to system default output"@
}

/// What follows when the first candidate's preflight probe produced no callback: with a
/// requested device and a policy that allows it, fall back to the host default (recording why);
/// otherwise the device `first_name` is dead.
pub fn after_dead_probe(requested: Option<&str>, policy: DeviceFallbackPolicy, first_name: &str) -> (r: Result<
    DeviceFallback,
    OutputError,
>)
    ensures
        match requested {
            Some(name) => if policy == DeviceFallbackPolicy::FallBackToHostDefault {
                r matches Ok(f) && f.requested@ == name@ && f.reason@ == dead_probe_fallback_reason(name@)
            } else {
                r matches Err(OutputError::StreamDead { device, waited_ms, phase }) && device@ == first_name@
                    && waited_ms == FIRST_CALLBACK_DEADLINE_MS && phase == StreamLivenessPhase::Probe
            },
            None => r matches Err(OutputError::StreamDead { device, waited_ms, phase }) && device@ == first_name@
                && waited_ms == FIRST_CALLBACK_DEADLINE_MS && phase == StreamLivenessPhase::Probe,
        },
{
    match requested {
        Some(name) => {
            if policy.allows_fallback() {
                let mut reason = String::from_str("requested device \"");
                reason.append(name);
                reason.append("\" produced no callback within 3000 ms — falling back to system default output");
                return Ok(DeviceFallback { requested: String::from_str(name), reason });
            }
        },
        None => {},
    }
    Err(
        OutputError::StreamDead {
            device: String::from_str(first_name),
            waited_ms: FIRST_CALLBACK_DEADLINE_MS,
            phase: StreamLivenessPhase::Probe,
        },
    )
}

/// The device an output request ends up using.
#[derive(Debug)]
pub enum DeviceChoice {
    /// The host default device (with the reason when it replaces a requested device).
    HostDefault { fallback: Option<DeviceFallback> },
    /// The requested device, which matched by name and can output.
    Requested,
}

/// Debug rendering of a list of device names (`["a", "b"]`).
pub uninterp spec fn debug_names_text(names: Seq<Seq<char>>) -> Seq<char>;

/// The views of a list of names.
pub open spec fn names_view(names: Seq<String>) -> Seq<Seq<char>> {
    Seq::new(names.len(), |i: int| names[i]@)
}

/// The names that could be read among the first `k` devices, in enumeration order (`None` stands
/// for a device whose name cannot be read).
pub open spec fn readable_names(names: Seq<Option<String>>, k: int) -> Seq<Seq<char>>
    decreases k,
{
    if k <= 0 {
        Seq::empty()
    } else {
        let prev = readable_names(names, k - 1);
        match names[k - 1] {
            Some(n) => prev.push(n@),
            None => prev,
        }
    }
}

/// Whether device `i`'s name reads as `requested`.
pub open spec fn names_device(names: Seq<Option<String>>, i: int, requested: Seq<char>) -> bool {
    names[i] matches Some(n) && n@ == requested
}

/// Look `requested` up among the host's device names in enumeration order (`None` for a device
/// whose name cannot be read, which is skipped): the index of the first device named exactly
/// `requested`, and the readable names before it (all of them when none matches), which an
/// output request reports as available.
pub fn scan_device_names(names: &[Option<String>], requested: &str) -> (r: (Option<usize>, Vec<String>))
    ensures
        match r.0 {
            Some(i) => {
                &&& i < names@.len()
                &&& names_device(names@, i as int, requested@)
                &&& forall|j: int| 0 <= j < i ==> !names_device(names@, j, requested@)
                &&& names_view(r.1@) == readable_names(names@, i as int)
            },
            None => {
                &&& forall|j: int| 0 <= j < names@.len() ==> !names_device(names@, j, requested@)
                &&& names_view(r.1@) == readable_names(names@, names@.len() as int)
            },
        },
{
    let wanted = String::from_str(requested);
    let mut available: Vec<String> = Vec::new();
    let mut i: usize = 0;
    while i < names.len()
        invariant
            0 <= i <= names@.len(),
            wanted@ == requested@,
            forall|j: int| 0 <= j < i ==> !names_device(names@, j, requested@),
            names_view(available@) == readable_names(names@, i as int),
        decreases names@.len() - i,
    {
        match &names[i] {
            Some(name) => {
                if *name == wanted {
                    return (Some(i), available);
                }
                let ghost before = available@;
                available.push(name.clone());
                proof {
                    assert(names_view(available@) =~= names_view(before).push(name@));
                }
            },
            None => {},
        }
        i += 1;
    }
    (None, available)
}

/// Render the device names the way `{:?}` renders a list of strings.
///
/// Trusted: `format!("{:?}", names)` depends on the names alone; what it returns is named by
/// [`debug_names_text`], not spelled out.
#[verifier::external_body]
fn debug_names(names: &[String]) -> (r: String)
    ensures
        r@ == debug_names_text(names_view(names@)),
{
    format!("{:?}", names)
}

/// Reason recorded when the requested device is missing and the default is used instead.
pub open spec fn not_found_fallback_reason(requested: Seq<char>, names: Seq<Seq<char>>) -> Seq<char> {
    "requested device \""@ + requested + "\" not found (available: "@ + debug_names_text(names)
        + ") — falling back to system default output"@
}

/// Reason recorded when the requested device cannot output and the default is used instead.
pub open spec fn not_output_fallback_reason(requested: Seq<char>) -> Seq<char> {
    "requested device \""@ + requested + "\" is not an output device — falling back to system default output"@
}

/// Decide which device an output request uses. `available` holds the names of the host's devices
/// in enumeration order (those whose name cannot be read left out), up to and excluding the one
/// that matched; `matched_is_output` is `None` when no device is named `requested`, else whether
/// that device has a default output configuration.
pub fn resolve_device_choice(
    requested: Option<&str>,
    available: &[String],
    matched_is_output: Option<bool>,
    policy: DeviceFallbackPolicy,
) -> (r: Result<DeviceChoice, OutputError>)
    ensures
        match requested {
            None => r matches Ok(DeviceChoice::HostDefault { fallback: None }),
            Some(name) => match matched_is_output {
                Some(true) => r matches Ok(DeviceChoice::Requested),
                Some(false) => if policy == DeviceFallbackPolicy::FallBackToHostDefault {
                    r matches Ok(DeviceChoice::HostDefault { fallback: Some(f) }) && f.requested@ == name@
                        && f.reason@ == not_output_fallback_reason(name@)
                } else {
                    r matches Err(OutputError::DeviceUnavailable { requested: q, reason }) && q@ == name@
                        && reason@ == "not an output device"@
                },
                None => if policy == DeviceFallbackPolicy::FallBackToHostDefault {
                    r matches Ok(DeviceChoice::HostDefault { fallback: Some(f) }) && f.requested@ == name@
                        && f.reason@ == not_found_fallback_reason(name@, names_view(available@))
                } else {
                    r matches Err(OutputError::DeviceUnavailable { requested: q, reason }) && q@ == name@
                        && reason@ == "not found (available: "@ + debug_names_text(names_view(available@)) + ")"@
                },
            },
        },
{
    let requested = match requested {
        Some(name) => name,
        None => {
            return Ok(DeviceChoice::HostDefault { fallback: None });
        },
    };
    match matched_is_output {
        Some(true) => Ok(DeviceChoice::Requested),
        Some(false) => {
            if !policy.allows_fallback() {
                return Err(
                    OutputError::DeviceUnavailable {
                        requested: String::from_str(requested),
                        reason: String::from_str("not an output device"),
                    },
                );
            }
            let reason = String::from_str("requested device \"").concat(requested).concat(
                "\" is not an output device — falling back to system default output",
            );
            Ok(DeviceChoice::HostDefault { fallback: Some(DeviceFallback { requested: String::from_str(requested), reason }) })
        },
        None => {
            let names = debug_names(available);
            if !policy.allows_fallback() {
                let reason = String::from_str("not found (available: ").concat(names.as_str()).concat(")");
                return Err(OutputError::DeviceUnavailable { requested: String::from_str(requested), reason });
            }
            let reason = String::from_str("requested device \"").concat(requested).concat(
                "\" not found (available: ",
            ).concat(names.as_str()).concat(") — falling back to system default output");
            Ok(DeviceChoice::HostDefault { fallback: Some(DeviceFallback { requested: String::from_str(requested), reason }) })
        },
    }
}

} // verus!
