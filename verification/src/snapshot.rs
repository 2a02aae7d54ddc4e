//! The system-state snapshot: one immutable value composed from the three
//! readers.  A snapshot is rebuilt wholesale on every refresh and is a pure
//! function of what was observed; missing tooling degrades fields to their
//! defaults instead of failing.

use vstd::prelude::*;
use crate::cpu::{cpu_counts, entries_view, spec_cpu_counts, CpuEntry, CpuEntryV};
use crate::display::{
    display_info, has_native_marker, lemma_hz_label_no_marker, lemma_native_label_marker,
    spec_display_rates, spec_hz_label, spec_monitor_detected, spec_rates_from, MonitorInfo,
    MonitorInfoV,
};
use crate::gpu::{gpu_info, spec_gpu_mode, spec_supported_modes};
use crate::text::spec_digits;
use crate::validate::spec_valid_gpu_mode;

verus! {

/// Everything the unverified shell observed in one round of probing: the
/// CPU topology listing, the captured output of the two GPU tool calls
/// (`None` where the tool was missing or exited non-zero), and the parsed
/// monitor descriptors.
pub struct SystemProbe {
    pub cpu_entries: Vec<CpuEntry>,
    pub gpu_list: Option<String>,
    pub gpu_get: Option<String>,
    pub monitors: Vec<MonitorInfo>,
}

pub ghost struct SystemProbeV {
    pub cpu_entries: Seq<CpuEntryV>,
    pub gpu_list: Option<Seq<char>>,
    pub gpu_get: Option<Seq<char>>,
    pub monitors: Seq<MonitorInfoV>,
}

impl View for SystemProbe {
    type V = SystemProbeV;

    open spec fn view(&self) -> SystemProbeV {
        SystemProbeV {
            cpu_entries: entries_view(self.cpu_entries@),
            gpu_list: match self.gpu_list {
                Some(s) => Some(s@),
                None => None,
            },
            gpu_get: match self.gpu_get {
                Some(s) => Some(s@),
                None => None,
            },
            monitors: self.monitors@.map_values(|m: MonitorInfo| m@),
        }
    }
}

/// A point-in-time reading of CPU, GPU and display state.
#[derive(Debug, Clone, Default)]
pub struct SystemInfo {
    pub total_cpus: u32,
    pub online_cpus: u32,
    pub gpu_mode: String,
    pub supported_gpu_modes: Vec<String>,
    pub refresh_rates: Vec<String>,
    pub current_hz: String,
    pub native_hz: String,
    pub monitor_name: String,
}

#[verifier::ext_equal]
pub ghost struct SystemInfoV {
    pub total_cpus: u32,
    pub online_cpus: u32,
    pub gpu_mode: Seq<char>,
    pub supported_gpu_modes: Seq<Seq<char>>,
    pub refresh_rates: Seq<Seq<char>>,
    pub current_hz: Seq<char>,
    pub native_hz: Seq<char>,
    pub monitor_name: Seq<char>,
}

impl View for SystemInfo {
    type V = SystemInfoV;

    open spec fn view(&self) -> SystemInfoV {
        SystemInfoV {
            total_cpus: self.total_cpus,
            online_cpus: self.online_cpus,
            gpu_mode: self.gpu_mode@,
            supported_gpu_modes: self.supported_gpu_modes.deep_view(),
            refresh_rates: self.refresh_rates.deep_view(),
            current_hz: self.current_hz@,
            native_hz: self.native_hz@,
            monitor_name: self.monitor_name@,
        }
    }
}

/// The snapshot a probe determines, field by field.  This is a function of
/// the observations alone: probing twice with no intervening system change
/// yields equal snapshots.
pub open spec fn spec_snapshot(p: SystemProbeV) -> SystemInfoV {
    let c = spec_cpu_counts(p.cpu_entries);
    let detected = spec_monitor_detected(p.monitors);
    let vs = spec_rates_from(
        if detected {
            p.monitors[0].available_modes
        } else {
            Seq::empty()
        },
    );
    SystemInfoV {
        total_cpus: c.0 as u32,
        online_cpus: c.1 as u32,
        gpu_mode: spec_gpu_mode(p.gpu_list, p.gpu_get),
        supported_gpu_modes: match p.gpu_list {
            Some(s) => spec_supported_modes(s),
            None => Seq::empty(),
        },
        refresh_rates: if detected {
            spec_display_rates(vs)
        } else {
            Seq::empty()
        },
        current_hz: if detected {
            spec_digits(p.monitors[0].refresh_hz as int) + "Hz"@
        } else {
            Seq::empty()
        },
        native_hz: if detected && vs.len() > 0 {
            spec_hz_label(vs[vs.len() - 1])
        } else {
            Seq::empty()
        },
        monitor_name: if detected {
            p.monitors[0].name
        } else {
            Seq::empty()
        },
    }
}

/// The invariants every snapshot satisfies: no more CPUs online than
/// exist; the supported-mode list is empty exactly when the mode is the
/// `Unavailable` sentinel; the mode is always a valid mode, the
/// `Integrated` default, or that sentinel; a non-empty rate list comes
/// with a monitor name, a current rate and a native rate; and exactly the
/// last rate entry -- the native one -- carries the ` (Native)` marker
/// and is the native rate's label plus that marker.
pub open spec fn snapshot_wf(s: SystemInfoV) -> bool {
    &&& s.online_cpus <= s.total_cpus
    &&& s.supported_gpu_modes.len() == 0 <==> s.gpu_mode == "Unavailable"@
    &&& s.gpu_mode == "Unavailable"@ || s.gpu_mode == "Integrated"@ || spec_valid_gpu_mode(
        s.gpu_mode,
    )
    &&& s.refresh_rates.len() > 0 ==> s.monitor_name.len() > 0 && s.current_hz.len() > 0
        && s.native_hz.len() > 0
    &&& forall|i: int|
        0 <= i < s.refresh_rates.len() - 1 ==> !has_native_marker(#[trigger] s.refresh_rates[i])
    &&& s.refresh_rates.len() > 0 ==> s.refresh_rates[s.refresh_rates.len() - 1] == s.native_hz
        + " (Native)"@
}

impl SystemInfo {
    /// Build one snapshot from a probe.  This never fails: each field is
    /// exactly what its reader determines from the observations, and
    /// absent tooling only leaves defaults behind.
    pub fn fetch(probe: &SystemProbe) -> (r: SystemInfo)
        requires
            probe.cpu_entries@.len() <= u32::MAX,
        ensures
            r@ == spec_snapshot(probe@),
            snapshot_wf(r@),
    {
        let counts = cpu_counts(&probe.cpu_entries);
        let list_out: Option<&str> = match &probe.gpu_list {
            Some(s) => Some(s.as_str()),
            None => None,
        };
        let get_out: Option<&str> = match &probe.gpu_get {
            Some(s) => Some(s.as_str()),
            None => None,
        };
        let gpu = gpu_info(list_out, get_out);
        let d = display_info(&probe.monitors);
        let r = SystemInfo {
            total_cpus: counts.0,
            online_cpus: counts.1,
            gpu_mode: gpu.0,
            supported_gpu_modes: gpu.1,
            refresh_rates: d.refresh_rates,
            current_hz: d.current_hz,
            native_hz: d.native_hz,
            monitor_name: d.monitor_name,
        };
        proof {
            let pv = probe@;
            assert(pv.monitors.len() == probe.monitors@.len());
            if probe.monitors@.len() > 0 {
                assert(pv.monitors[0] == probe.monitors@[0]@);
            }
            if spec_monitor_detected(pv.monitors) {
                let vs = spec_rates_from(pv.monitors[0].available_modes);
                assert(spec_digits(pv.monitors[0].refresh_hz as int).len() >= 1);
                if vs.len() > 0 {
                    lemma_native_label_marker(vs[vs.len() - 1]);
                    assert(spec_digits(vs[vs.len() - 1] / 1000).len() >= 1);
                    assert forall|i: int| 0 <= i < r@.refresh_rates.len() - 1 implies
                        !has_native_marker(#[trigger] r@.refresh_rates[i]) by {
                        lemma_hz_label_no_marker(vs[i]);
                    }
                }
            }
            assert(r@ =~= spec_snapshot(probe@));
        }
        r
    }
}

/// Fetching is idempotent: two snapshots built from equal observations --
/// a probe repeated with no intervening system change -- are equal in all
/// fields.
pub proof fn lemma_fetch_idempotent(a: SystemProbeV, b: SystemProbeV)
    requires
        a == b,
    ensures
        spec_snapshot(a) == spec_snapshot(b),
{
}

} // verus!
