//! CPU topology reading: which directory entries denote a logical CPU, and
//! which of those CPUs count as online.
//!
//! The unverified shell lists the topology directory and reads each entry's
//! `online` indicator file; everything it hands in arrives here as plain
//! text and every decision about it is made in verified code.

use vstd::prelude::*;
use crate::text::{all_digits, digits_val, digits_value_checked, spec_trim, str_eq, trim};

verus! {

/// One directory entry of the CPU topology tree: the entry's name and the
/// content of its `online` indicator file, `None` where that file could
/// not be read.
pub struct CpuEntry {
    pub name: String,
    pub online: Option<String>,
}

pub ghost struct CpuEntryV {
    pub name: Seq<char>,
    pub online: Option<Seq<char>>,
}

impl View for CpuEntry {
    type V = CpuEntryV;

    open spec fn view(&self) -> CpuEntryV {
        CpuEntryV {
            name: self.name@,
            online: match self.online {
                Some(s) => Some(s@),
                None => None,
            },
        }
    }
}

pub open spec fn entries_view(v: Seq<CpuEntry>) -> Seq<CpuEntryV> {
    v.map_values(|e: CpuEntry| e@)
}

/// The CPU index a qualifying entry name denotes: the literal prefix
/// `cpu` followed entirely by one or more decimal digits whose value fits
/// in `u32`.  Any other name does not qualify.
pub open spec fn spec_cpu_index(name: Seq<char>) -> Option<int> {
    let digits = name.subrange(3, name.len() as int);
    if name.len() >= 4 && name[0] == 'c' && name[1] == 'p' && name[2] == 'u' && all_digits(digits)
        && digits_val(digits) <= u32::MAX {
        Some(digits_val(digits))
    } else {
        None
    }
}

/// Parse an entry name of the form `cpu<N>`.
pub fn cpu_entry_index(name: &str) -> (r: Option<u32>)
    ensures
        match r {
            Some(v) => spec_cpu_index(name@) == Some(v as int),
            None => spec_cpu_index(name@) is None,
        },
{
    let len = name.unicode_len();
    if len < 4 {
        return None;
    }
    if name.get_char(0) != 'c' || name.get_char(1) != 'p' || name.get_char(2) != 'u' {
        return None;
    }
    let digits = name.substring_char(3, len);
    match digits_value_checked(digits, 0xffff_ffff) {
        Some(v) => Some(v as u32),
        None => None,
    }
}

/// A qualifying CPU counts as online if its index is 0 (CPU 0 cannot be
/// taken offline on this platform), or if its indicator file was readable
/// and its trimmed content is exactly `1`.
pub open spec fn spec_entry_online(e: CpuEntryV) -> bool {
    match spec_cpu_index(e.name) {
        Some(i) => i == 0 || (match e.online {
            Some(c) => spec_trim(c) == "1"@,
            None => false,
        }),
        None => false,
    }
}

pub open spec fn count_total(s: Seq<CpuEntryV>) -> int
    decreases s.len(),
{
    if s.len() == 0 {
        0
    } else {
        count_total(s.drop_last()) + (if spec_cpu_index(s[s.len() - 1].name) is Some {
            1int
        } else {
            0int
        })
    }
}

pub open spec fn count_online(s: Seq<CpuEntryV>) -> int
    decreases s.len(),
{
    if s.len() == 0 {
        0
    } else {
        count_online(s.drop_last()) + (if spec_entry_online(s[s.len() - 1]) {
            1int
        } else {
            0int
        })
    }
}

/// The totals the CPU reader reports: the number of qualifying entries and
/// the number of those online.  An entirely missing topology (no
/// qualifying entry at all) falls back to a fixed 16/16 rather than
/// reporting zero CPUs.
pub open spec fn spec_cpu_counts(s: Seq<CpuEntryV>) -> (int, int) {
    if count_total(s) == 0 {
        (16, 16)
    } else {
        (count_total(s), count_online(s))
    }
}

/// Count the CPUs a directory listing describes.
pub fn cpu_counts(entries: &Vec<CpuEntry>) -> (r: (u32, u32))
    requires
        entries@.len() <= u32::MAX,
    ensures
        r.0 == spec_cpu_counts(entries_view(entries@)).0,
        r.1 == spec_cpu_counts(entries_view(entries@)).1,
        r.1 <= r.0,
{
    let n = entries.len();
    let mut total: u32 = 0;
    let mut online: u32 = 0;
    let mut i: usize = 0;
    while i < n
        invariant
            i <= n,
            n == entries@.len(),
            n <= u32::MAX,
            total == count_total(entries_view(entries@).subrange(0, i as int)),
            online == count_online(entries_view(entries@).subrange(0, i as int)),
            online <= total,
            total <= i,
        decreases n - i,
    {
        let e = &entries[i];
        let ghost vs = entries_view(entries@);
        proof {
            assert(vs.subrange(0, i as int + 1).drop_last() =~= vs.subrange(0, i as int));
            assert(vs.subrange(0, i as int + 1)[i as int] == vs[i as int]);
            assert(vs[i as int] == entries@[i as int]@);
        }
        match cpu_entry_index(e.name.as_str()) {
            Some(idx) => {
                total = total + 1;
                if idx == 0 {
                    online = online + 1;
                } else {
                    match &e.online {
                        Some(content) => {
                            if str_eq(trim(content.as_str()), "1") {
                                online = online + 1;
                            }
                        },
                        None => {},
                    }
                }
            },
            None => {},
        }
        i = i + 1;
    }
    proof {
        assert(entries_view(entries@).subrange(0, n as int) =~= entries_view(entries@));
    }
    if total == 0 {
        (16, 16)
    } else {
        (total, online)
    }
}

} // verus!
