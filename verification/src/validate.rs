//! Input validation policies.  Every user-supplied parameter passes one of
//! these checks before it may reach an argument vector for a privileged
//! command; the checks are what keeps shell metacharacters and stray tokens
//! out of those invocations.

use vstd::prelude::*;
use crate::text::{all_digits, is_all_digits, str_eq};

verus! {

/// The closed set of GPU operating modes, matched case-sensitively.
pub open spec fn spec_valid_gpu_mode(m: Seq<char>) -> bool {
    ||| m == "Integrated"@
    ||| m == "Hybrid"@
    ||| m == "Dedicated"@
    ||| m == "Compute"@
    ||| m == "VFIO"@
}

/// True iff `mode` is exactly one of Integrated, Hybrid, Dedicated,
/// Compute, VFIO.  No normalization is applied.
pub fn validate_gpu_mode(mode: &str) -> (r: bool)
    ensures
        r == spec_valid_gpu_mode(mode@),
{
    str_eq(mode, "Integrated") || str_eq(mode, "Hybrid") || str_eq(mode, "Dedicated") || str_eq(
        mode,
        "Compute",
    ) || str_eq(mode, "VFIO")
}

/// The valid GPU modes as a list, in a fixed order, for callers that
/// enumerate them (a mode picker, a usage message).
pub fn valid_gpu_modes() -> (r: Vec<String>)
    ensures
        r.deep_view() == seq!["Integrated"@, "Hybrid"@, "Dedicated"@, "Compute"@, "VFIO"@],
        forall|i: int| 0 <= i < r.deep_view().len() ==> spec_valid_gpu_mode(#[trigger] r.deep_view()[i]),
{
    let mut r: Vec<String> = Vec::new();
    r.push("Integrated".to_owned());
    r.push("Hybrid".to_owned());
    r.push("Dedicated".to_owned());
    r.push("Compute".to_owned());
    r.push("VFIO".to_owned());
    proof {
        assert(r.deep_view() =~= seq!["Integrated"@, "Hybrid"@, "Dedicated"@, "Compute"@, "VFIO"@]);
    }
    r
}

/// Characters a monitor name may consist of: ASCII letters, digits,
/// underscore and hyphen.
pub open spec fn is_name_char(c: char) -> bool {
    let u = c as u32;
    ||| (0x41 <= u && u <= 0x5a)
    ||| (0x61 <= u && u <= 0x7a)
    ||| (0x30 <= u && u <= 0x39)
    ||| u == 0x5f
    ||| u == 0x2d
}

pub open spec fn spec_valid_monitor_name(s: Seq<char>) -> bool {
    s.len() > 0 && forall|i: int| 0 <= i < s.len() ==> is_name_char(#[trigger] s[i])
}

/// True iff `name` is one or more characters from `[A-Za-z0-9_-]`.  Rejects
/// the empty string, whitespace, path separators and shell metacharacters.
pub fn validate_monitor_name(name: &str) -> (r: bool)
    ensures
        r == spec_valid_monitor_name(name@),
{
    let len = name.unicode_len();
    if len == 0 {
        return false;
    }
    let mut i: usize = 0;
    while i < len
        invariant
            i <= len,
            len == name@.len(),
            forall|k: int| 0 <= k < i ==> is_name_char(#[trigger] name@[k]),
        decreases len - i,
    {
        let c = name.get_char(i);
        let u: u32 = c as u32;
        let ok = (0x41 <= u && u <= 0x5a) || (0x61 <= u && u <= 0x7a) || (0x30 <= u && u <= 0x39)
            || u == 0x5f || u == 0x2d;
        if !ok {
            return false;
        }
        i = i + 1;
    }
    true
}

pub open spec fn spec_valid_session_id(s: Seq<char>) -> bool {
    s.len() > 0 && all_digits(s)
}

/// True iff `id` is one or more ASCII digits.
pub fn validate_session_id(id: &str) -> (r: bool)
    ensures
        r == spec_valid_session_id(id@),
{
    id.unicode_len() > 0 && is_all_digits(id)
}

/// True iff `hz` lies in the accepted range of 30 to 500 inclusive.
pub fn validate_refresh_rate(hz: u32) -> (r: bool)
    ensures
        r == (30 <= hz && hz <= 500),
{
    30 <= hz && hz <= 500
}

} // verus!
