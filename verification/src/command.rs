//! Mutation operations: validated construction of the argument vectors for
//! the privileged helper and the display tool.
//!
//! A `CommandPlan` is inert data -- discrete argument tokens, never a shell
//! string -- and building one has no side effect.  The unverified shell
//! spawns the planned process and feeds the captured exit status and error
//! stream back through `invocation_outcome`.  An invalid parameter is
//! rejected here, before any plan exists, so it can never reach a spawned
//! process.

use vstd::prelude::*;
use crate::text::{spec_digits, u64_to_string};
use crate::validate::{
    spec_valid_gpu_mode, spec_valid_monitor_name, spec_valid_session_id, validate_gpu_mode,
    validate_monitor_name, validate_refresh_rate, validate_session_id,
};

verus! {

/// The fixed, non-configurable location of the privileged helper.
pub const HELPER_PATH: &'static str = "/usr/libexec/tuxtuner-helper";

/// One external invocation, ready to spawn: a program and its argument
/// tokens.
#[derive(Debug, Clone)]
pub struct CommandPlan {
    pub program: String,
    pub args: Vec<String>,
}

/// A parameter rejected before any process is spawned.
#[derive(Debug, Clone)]
pub enum TunerError {
    InvalidGpuMode(String),
    InvalidMonitorName,
    RefreshRateOutOfRange,
}

impl TunerError {
    pub open spec fn spec_message(self) -> Seq<char> {
        match self {
            TunerError::InvalidGpuMode(m) => "Invalid GPU mode: "@ + m@,
            TunerError::InvalidMonitorName => "Invalid monitor name"@,
            TunerError::RefreshRateOutOfRange => "Refresh rate out of valid range"@,
        }
    }

    /// The human-readable diagnostic, surfaced verbatim to the caller.
    pub fn message(&self) -> (r: String)
        ensures
            r@ == self.spec_message(),
    {
        match self {
            TunerError::InvalidGpuMode(m) => "Invalid GPU mode: ".to_owned().concat(m.as_str()),
            TunerError::InvalidMonitorName => "Invalid monitor name".to_owned(),
            TunerError::RefreshRateOutOfRange => "Refresh rate out of valid range".to_owned(),
        }
    }
}

/// Plan the privileged call that sets the online CPU thread count.  The
/// target is not validated here: the helper is the authority on it.
pub fn apply_cpu_threads(target: u32) -> (plan: CommandPlan)
    ensures
        plan.program@ == "pkexec"@,
        plan.args.deep_view() == seq![
            "/usr/libexec/tuxtuner-helper"@,
            "cpu"@,
            spec_digits(target as int),
        ],
{
    let mut args: Vec<String> = Vec::new();
    args.push(HELPER_PATH.to_owned());
    args.push("cpu".to_owned());
    args.push(u64_to_string(target as u64));
    proof {
        assert(args.deep_view() =~= seq![
            "/usr/libexec/tuxtuner-helper"@,
            "cpu"@,
            spec_digits(target as int),
        ]);
    }
    CommandPlan { program: "pkexec".to_owned(), args }
}

/// The helper arguments a GPU-mode change uses: `gpu <mode>`, and
/// `--logout <session>` exactly when a logout is requested and the session
/// identifier is all digits.  An invalid or absent identifier silently
/// omits the logout flag; it never rides along.
pub open spec fn spec_gpu_args(mode: Seq<char>, logout: bool, sid: Option<Seq<char>>) -> Seq<
    Seq<char>,
> {
    let base = seq!["/usr/libexec/tuxtuner-helper"@, "gpu"@, mode];
    match sid {
        Some(s) => if logout && spec_valid_session_id(s) {
            base + seq!["--logout"@, s]
        } else {
            base
        },
        None => base,
    }
}

/// Plan the privileged call that sets the GPU operating mode, after
/// validating the mode against the closed set.  Rejection happens before
/// any plan exists, so no process can be spawned for an invalid mode.
pub fn apply_gpu_mode(mode: &str, logout: bool, session_id: Option<&str>) -> (r: Result<
    CommandPlan,
    TunerError,
>)
    ensures
        r is Ok <==> spec_valid_gpu_mode(mode@),
        r matches Err(e) ==> e matches TunerError::InvalidGpuMode(m) && m@ == mode@,
        r matches Ok(p) ==> p.program@ == "pkexec"@ && p.args.deep_view() == spec_gpu_args(
            mode@,
            logout,
            match session_id {
                Some(s) => Some(s@),
                None => None,
            },
        ),
{
    if !validate_gpu_mode(mode) {
        return Err(TunerError::InvalidGpuMode(mode.to_owned()));
    }
    let mut args: Vec<String> = Vec::new();
    args.push(HELPER_PATH.to_owned());
    args.push("gpu".to_owned());
    args.push(mode.to_owned());
    proof {
        assert(args.deep_view() =~= seq!["/usr/libexec/tuxtuner-helper"@, "gpu"@, mode@]);
    }
    if logout {
        match session_id {
            Some(sid) => {
                if validate_session_id(sid) {
                    let ghost base = args.deep_view();
                    args.push("--logout".to_owned());
                    args.push(sid.to_owned());
                    proof {
                        assert(args.deep_view() =~= base + seq!["--logout"@, sid@]);
                    }
                }
            },
            None => {},
        }
    }
    Ok(CommandPlan { program: "pkexec".to_owned(), args })
}

/// The single configuration token the display tool receives:
/// `<monitor>,preferred@<hz>,auto,1`.
pub open spec fn spec_monitor_arg(monitor: Seq<char>, hz: int) -> Seq<char> {
    monitor + ",preferred@"@ + spec_digits(hz) + ",auto,1"@
}

/// Plan the display-tool call that sets a monitor's refresh rate, after
/// validating the monitor name against `[A-Za-z0-9_-]+` and the rate
/// against 30..=500.  The name is checked first; either rejection happens
/// before any plan exists.
pub fn apply_refresh_rate(monitor: &str, hz: u32) -> (r: Result<CommandPlan, TunerError>)
    ensures
        r is Ok <==> (spec_valid_monitor_name(monitor@) && 30 <= hz <= 500),
        !spec_valid_monitor_name(monitor@) ==> r == Err::<CommandPlan, TunerError>(
            TunerError::InvalidMonitorName,
        ),
        spec_valid_monitor_name(monitor@) && !(30 <= hz <= 500) ==> r == Err::<
            CommandPlan,
            TunerError,
        >(TunerError::RefreshRateOutOfRange),
        r matches Ok(p) ==> p.program@ == "hyprctl"@ && p.args.deep_view() == seq![
            "keyword"@,
            "monitor"@,
            spec_monitor_arg(monitor@, hz as int),
        ],
{
    if !validate_monitor_name(monitor) {
        return Err(TunerError::InvalidMonitorName);
    }
    if !validate_refresh_rate(hz) {
        return Err(TunerError::RefreshRateOutOfRange);
    }
    let monitor_arg = monitor.to_owned().concat(",preferred@").concat(
        u64_to_string(hz as u64).as_str(),
    ).concat(",auto,1");
    let mut args: Vec<String> = Vec::new();
    args.push("keyword".to_owned());
    args.push("monitor".to_owned());
    args.push(monitor_arg);
    proof {
        assert(args.deep_view() =~= seq![
            "keyword"@,
            "monitor"@,
            spec_monitor_arg(monitor@, hz as int),
        ]);
    }
    Ok(CommandPlan { program: "hyprctl".to_owned(), args })
}

/// Map a finished invocation to the uniform result: exit status zero is
/// success, anything else fails with the captured error stream, verbatim.
pub fn invocation_outcome(status_success: bool, stderr: String) -> (r: Result<(), String>)
    ensures
        status_success ==> r == Ok::<(), String>(()),
        !status_success ==> (r matches Err(e) && e == stderr),
{
    if status_success {
        Ok(())
    } else {
        Err(stderr)
    }
}

} // verus!
