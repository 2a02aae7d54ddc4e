//! Display state reading: from a monitor's mode strings (`WxH@R.RRHz`) to
//! the deduplicated, ascending list of refresh rates, the native (highest)
//! rate, and the current rate.
//!
//! Rates are held in millihertz so that the 0.5 Hz tolerance merge and the
//! truncation to whole hertz are exact integer arithmetic.  A mode string
//! that does not parse is skipped; it never aborts the remaining modes.

use vstd::prelude::*;
use crate::text::{
    all_digits, digit_val, digits_val, digits_value_checked, find_char, find_from, is_all_digits,
    is_digit, lemma_find_from, spec_digits, u64_to_string,
};

verus! {

/// The first three fraction digits read as thousandths, shorter fractions
/// padded with zeros, further digits ignored.
pub open spec fn spec_frac_millis(f: Seq<char>) -> int {
    if f.len() >= 3 {
        digits_val(f.subrange(0, 3))
    } else if f.len() == 2 {
        digits_val(f) * 10
    } else if f.len() == 1 {
        digits_val(f) * 100
    } else {
        0
    }
}

/// A decimal rate literal in millihertz: one or more digits around at most
/// one dot, with at least one digit in all, and an integer part below a
/// billion.  Anything else does not parse.
pub open spec fn spec_parse_rate(s: Seq<char>) -> Option<int> {
    let d = find_from(s, '.', 0);
    if d >= s.len() {
        if s.len() > 0 && all_digits(s) && digits_val(s) <= 999_999_999 {
            Some(digits_val(s) * 1000)
        } else {
            None
        }
    } else {
        let ip = s.subrange(0, d);
        let fp = s.subrange(d + 1, s.len() as int);
        if (ip.len() > 0 || fp.len() > 0) && all_digits(ip) && all_digits(fp) && digits_val(ip)
            <= 999_999_999 {
            Some(digits_val(ip) * 1000 + spec_frac_millis(fp))
        } else {
            None
        }
    }
}

fn frac_millis(fp: &str) -> (r: u64)
    requires
        all_digits(fp@),
    ensures
        r == spec_frac_millis(fp@),
        r <= 999,
{
    let len = fp.unicode_len();
    if len == 0 {
        0
    } else if len == 1 {
        proof {
            assert(is_digit(fp@[0]));
            assert(fp@.drop_last().len() == 0);
            assert(digits_val(fp@.drop_last()) == 0);
            assert(digits_val(fp@) == digit_val(fp@[0]));
        }
        let c0: u32 = fp.get_char(0) as u32;
        ((c0 - 0x30) * 100) as u64
    } else if len == 2 {
        proof {
            assert(is_digit(fp@[0]) && is_digit(fp@[1]));
            let t = fp@.drop_last();
            assert(t[0] == fp@[0]);
            assert(t.drop_last().len() == 0);
            assert(digits_val(t.drop_last()) == 0);
            assert(digits_val(t) == digit_val(fp@[0]));
            assert(digits_val(fp@) == digit_val(fp@[0]) * 10 + digit_val(fp@[1]));
        }
        let c0: u32 = fp.get_char(0) as u32;
        let c1: u32 = fp.get_char(1) as u32;
        (((c0 - 0x30) * 10 + (c1 - 0x30)) * 10) as u64
    } else {
        proof {
            assert(is_digit(fp@[0]) && is_digit(fp@[1]) && is_digit(fp@[2]));
            let b = fp@.subrange(0, 3);
            let t = b.drop_last();
            let u = t.drop_last();
            assert(u.len() == 1 && u.drop_last().len() == 0);
            assert(b[2] == fp@[2] && t[1] == fp@[1] && u[0] == fp@[0]);
            assert(digits_val(u.drop_last()) == 0);
            assert(digits_val(u) == digit_val(fp@[0]));
            assert(digits_val(t) == digit_val(fp@[0]) * 10 + digit_val(fp@[1]));
            assert(digits_val(b) == (digit_val(fp@[0]) * 10 + digit_val(fp@[1])) * 10 + digit_val(
                fp@[2],
            ));
        }
        let c0: u32 = fp.get_char(0) as u32;
        let c1: u32 = fp.get_char(1) as u32;
        let c2: u32 = fp.get_char(2) as u32;
        (((c0 - 0x30) * 10 + (c1 - 0x30)) * 10 + (c2 - 0x30)) as u64
    }
}

/// Parse a rate literal into millihertz.
pub fn parse_rate(s: &str) -> (r: Option<u64>)
    ensures
        match r {
            Some(v) => spec_parse_rate(s@) == Some(v as int),
            None => spec_parse_rate(s@) is None,
        },
{
    let len = s.unicode_len();
    let d = find_char(s, '.', 0);
    proof {
        lemma_find_from(s@, '.', 0);
    }
    if d == len {
        match digits_value_checked(s, 999_999_999) {
            Some(v) => Some(v * 1000),
            None => None,
        }
    } else {
        let ip = s.substring_char(0, d);
        let fp = s.substring_char(d + 1, len);
        let iplen = ip.unicode_len();
        let fplen = fp.unicode_len();
        if iplen == 0 && fplen == 0 {
            return None;
        }
        if !is_all_digits(fp) {
            return None;
        }
        let ipv: u64 = if iplen == 0 {
            0
        } else {
            match digits_value_checked(ip, 999_999_999) {
                Some(v) => v,
                None => {
                    return None;
                },
            }
        };
        let frac = frac_millis(fp);
        Some(ipv * 1000 + frac)
    }
}

/// The rate a monitor mode string carries: the text between the first `@`
/// and the next `@` or the end, with one trailing `Hz` stripped.
pub open spec fn spec_mode_rate(mode: Seq<char>) -> Option<int> {
    let a = find_from(mode, '@', 0);
    if a >= mode.len() {
        None
    } else {
        let e = find_from(mode, '@', a + 1);
        let seg = mode.subrange(a + 1, e);
        let body = if seg.len() >= 2 && seg[seg.len() - 2] == 'H' && seg[seg.len() - 1] == 'z' {
            seg.subrange(0, seg.len() - 2)
        } else {
            seg
        };
        spec_parse_rate(body)
    }
}

pub fn mode_rate(mode: &str) -> (r: Option<u64>)
    ensures
        match r {
            Some(v) => spec_mode_rate(mode@) == Some(v as int),
            None => spec_mode_rate(mode@) is None,
        },
{
    let len = mode.unicode_len();
    let a = find_char(mode, '@', 0);
    proof {
        lemma_find_from(mode@, '@', 0);
    }
    if a == len {
        return None;
    }
    let e = find_char(mode, '@', a + 1);
    proof {
        lemma_find_from(mode@, '@', a as int + 1);
    }
    let seg = mode.substring_char(a + 1, e);
    let slen = seg.unicode_len();
    let body = if slen >= 2 && seg.get_char(slen - 2) == 'H' && seg.get_char(slen - 1) == 'z' {
        seg.substring_char(0, slen - 2)
    } else {
        seg
    };
    parse_rate(body)
}

/// Two rates within half a hertz of each other count as the same mode.
pub open spec fn rate_close(a: int, b: int) -> bool {
    -500 < a - b && a - b < 500
}

pub open spec fn has_close(vs: Seq<int>, v: int) -> bool {
    exists|i: int| 0 <= i < vs.len() && rate_close(vs[i], v)
}

/// Insert before the first strictly larger element.
pub open spec fn sorted_insert(vs: Seq<int>, v: int) -> Seq<int>
    decreases vs.len(),
{
    if vs.len() == 0 {
        seq![v]
    } else if v < vs[0] {
        seq![v] + vs
    } else {
        seq![vs[0]] + sorted_insert(vs.drop_first(), v)
    }
}

/// Ascending and pairwise at least half a hertz apart.
pub open spec fn rates_wf(vs: Seq<int>) -> bool {
    forall|i: int, j: int| 0 <= i < j < vs.len() ==> vs[i] + 500 <= vs[j]
}

proof fn lemma_sorted_insert_wf(vs: Seq<int>, v: int)
    requires
        rates_wf(vs),
        forall|i: int| 0 <= i < vs.len() ==> !rate_close(#[trigger] vs[i], v),
    ensures
        rates_wf(sorted_insert(vs, v)),
        sorted_insert(vs, v).len() == vs.len() + 1,
        forall|k: int|
            0 <= k < sorted_insert(vs, v).len() ==> (#[trigger] sorted_insert(vs, v)[k] == v
                || vs.contains(sorted_insert(vs, v)[k])),
        forall|x: int| vs.contains(x) ==> #[trigger] sorted_insert(vs, v).contains(x),
        sorted_insert(vs, v).contains(v),
    decreases vs.len(),
{
    let r = sorted_insert(vs, v);
    if vs.len() == 0 {
        assert(rates_wf(r));
        assert(r[0] == v);
    } else if v < vs[0] {
        assert(!rate_close(vs[0], v));
        assert(vs[0] - v >= 500);
        assert forall|i: int, j: int| 0 <= i < j < r.len() implies r[i] + 500 <= r[j] by {
            if i == 0 {
                assert(r[j] == vs[j - 1]);
                if j > 1 {
                    assert(vs[0] + 500 <= vs[j - 1]);
                }
            } else {
                assert(r[i] == vs[i - 1] && r[j] == vs[j - 1]);
            }
        }
        assert forall|k: int| 0 <= k < r.len() implies (#[trigger] r[k] == v || vs.contains(
            r[k],
        )) by {
            if k > 0 {
                assert(r[k] == vs[k - 1]);
                assert(vs.contains(vs[k - 1]));
            }
        }
        assert(r[0] == v);
        assert forall|x: int| vs.contains(x) implies #[trigger] r.contains(x) by {
            let w = choose|w: int| 0 <= w < vs.len() && vs[w] == x;
            assert(r[w + 1] == x);
        }
    } else {
        let t = vs.drop_first();
        assert(forall|i: int| 0 <= i < t.len() ==> #[trigger] t[i] == vs[i + 1]);
        assert(forall|i: int| 0 <= i < t.len() ==> !rate_close(#[trigger] t[i], v));
        assert forall|i: int, j: int| 0 <= i < j < t.len() implies t[i] + 500 <= t[j] by {
            assert(vs[i + 1] + 500 <= vs[j + 1]);
        }
        lemma_sorted_insert_wf(t, v);
        let rt = sorted_insert(t, v);
        assert(!rate_close(vs[0], v));
        assert(v - vs[0] >= 500);
        assert forall|i: int, j: int| 0 <= i < j < r.len() implies r[i] + 500 <= r[j] by {
            if i == 0 {
                assert(r[j] == rt[j - 1]);
                if rt[j - 1] == v {
                    assert(vs[0] + 500 <= v);
                } else {
                    assert(t.contains(rt[j - 1]));
                    let w = choose|w: int| 0 <= w < t.len() && t[w] == rt[j - 1];
                    assert(vs[0] + 500 <= vs[w + 1]);
                }
            } else {
                assert(r[i] == rt[i - 1] && r[j] == rt[j - 1]);
            }
        }
        assert forall|k: int| 0 <= k < r.len() implies (#[trigger] r[k] == v || vs.contains(
            r[k],
        )) by {
            if k == 0 {
                assert(vs.contains(vs[0]));
            } else {
                assert(r[k] == rt[k - 1]);
                if rt[k - 1] != v {
                    assert(t.contains(rt[k - 1]));
                    let w = choose|w: int| 0 <= w < t.len() && t[w] == rt[k - 1];
                    assert(vs[w + 1] == rt[k - 1]);
                    assert(vs.contains(vs[w + 1]));
                }
            }
        }
        assert forall|x: int| vs.contains(x) implies #[trigger] r.contains(x) by {
            let w = choose|w: int| 0 <= w < vs.len() && vs[w] == x;
            if w == 0 {
                assert(r[0] == x);
            } else {
                assert(t[w - 1] == x);
                assert(t.contains(t[w - 1]));
                assert(rt.contains(x));
                let m = choose|m: int| 0 <= m < rt.len() && rt[m] == x;
                assert(r[m + 1] == x);
            }
        }
        assert(rt.contains(v));
        let m = choose|m: int| 0 <= m < rt.len() && rt[m] == v;
        assert(r[m + 1] == v);
        assert(r.contains(v));
    }
}

/// The rates kept from a list of mode strings, processed in order: a mode
/// whose rate parses joins the list unless a kept rate lies within half a
/// hertz; kept rates stay in ascending order.
pub open spec fn spec_rates_from(modes: Seq<Seq<char>>) -> Seq<int>
    decreases modes.len(),
{
    if modes.len() == 0 {
        Seq::empty()
    } else {
        let prev = spec_rates_from(modes.drop_last());
        match spec_mode_rate(modes[modes.len() - 1]) {
            Some(v) => if has_close(prev, v) {
                prev
            } else {
                sorted_insert(prev, v)
            },
            None => prev,
        }
    }
}

/// The kept rates are ascending and pairwise at least half a hertz apart.
pub proof fn lemma_rates_from_wf(modes: Seq<Seq<char>>)
    ensures
        rates_wf(spec_rates_from(modes)),
    decreases modes.len(),
{
    if modes.len() == 0 {
    } else {
        lemma_rates_from_wf(modes.drop_last());
        let prev = spec_rates_from(modes.drop_last());
        match spec_mode_rate(modes[modes.len() - 1]) {
            Some(v) => {
                if !has_close(prev, v) {
                    assert(forall|i: int|
                        0 <= i < prev.len() ==> !rate_close(#[trigger] prev[i], v));
                    lemma_sorted_insert_wf(prev, v);
                }
            },
            None => {},
        }
    }
}

/// Every kept rate is the parsed rate of one of the mode strings: the
/// merge invents nothing.
#[verifier::rlimit(30)]
pub proof fn lemma_rates_from_sound(modes: Seq<Seq<char>>)
    ensures
        forall|k: int|
            0 <= k < spec_rates_from(modes).len() ==> exists|i: int|
                0 <= i < modes.len() && spec_mode_rate(modes[i]) == Some(
                    #[trigger] spec_rates_from(modes)[k],
                ),
    decreases modes.len(),
{
    if modes.len() > 0 {
        let pre = modes.drop_last();
        lemma_rates_from_sound(pre);
        let prev = spec_rates_from(pre);
        let vs = spec_rates_from(modes);
        let n = modes.len() as int;
        assert(forall|i: int| 0 <= i < n - 1 ==> #[trigger] pre[i] == modes[i]);
        match spec_mode_rate(modes[n - 1]) {
            None => {
                assert(vs == prev);
            },
            Some(v) => {
                if has_close(prev, v) {
                    assert(vs == prev);
                } else {
                    assert(forall|i: int|
                        0 <= i < prev.len() ==> !rate_close(#[trigger] prev[i], v));
                    assert(rates_wf(prev)) by {
                        lemma_rates_from_wf(pre);
                    }
                    lemma_sorted_insert_wf(prev, v);
                    assert(vs == sorted_insert(prev, v));
                    assert forall|k: int| 0 <= k < vs.len() implies exists|i: int|
                        0 <= i < n && spec_mode_rate(modes[i]) == Some(#[trigger] vs[k]) by {
                        if vs[k] == v {
                            assert(spec_mode_rate(modes[n - 1]) == Some(vs[k]));
                        } else {
                            assert(prev.contains(vs[k]));
                            let w = choose|w: int| 0 <= w < prev.len() && prev[w] == vs[k];
                            assert(exists|i: int|
                                0 <= i < pre.len() && spec_mode_rate(pre[i]) == Some(prev[w]));
                            let i = choose|i: int|
                                0 <= i < pre.len() && spec_mode_rate(pre[i]) == Some(prev[w]);
                            assert(spec_mode_rate(modes[i]) == Some(vs[k]));
                        }
                    }
                }
            },
        }
    }
}

/// The parsed rate of every mode string lies within half a hertz of a
/// kept rate: the merge loses nothing real.
#[verifier::rlimit(30)]
pub proof fn lemma_rates_from_complete(modes: Seq<Seq<char>>)
    ensures
        forall|i: int|
            0 <= i < modes.len() ==> match spec_mode_rate(#[trigger] modes[i]) {
                Some(v) => has_close(spec_rates_from(modes), v),
                None => true,
            },
    decreases modes.len(),
{
    if modes.len() > 0 {
        let pre = modes.drop_last();
        lemma_rates_from_complete(pre);
        let prev = spec_rates_from(pre);
        let vs = spec_rates_from(modes);
        let n = modes.len() as int;
        assert(forall|i: int| 0 <= i < n - 1 ==> #[trigger] pre[i] == modes[i]);
        match spec_mode_rate(modes[n - 1]) {
            None => {
                assert(vs == prev);
                assert forall|i: int| 0 <= i < n implies match spec_mode_rate(
                    #[trigger] modes[i],
                ) {
                    Some(u) => has_close(vs, u),
                    None => true,
                } by {
                    if i < n - 1 {
                        assert(pre[i] == modes[i]);
                    }
                }
            },
            Some(v) => {
                if has_close(prev, v) {
                    assert(vs == prev);
                    assert forall|i: int| 0 <= i < n implies match spec_mode_rate(
                        #[trigger] modes[i],
                    ) {
                        Some(u) => has_close(vs, u),
                        None => true,
                    } by {
                        if i < n - 1 {
                            assert(pre[i] == modes[i]);
                        }
                    }
                } else {
                    assert(forall|i: int|
                        0 <= i < prev.len() ==> !rate_close(#[trigger] prev[i], v));
                    assert(rates_wf(prev)) by {
                        lemma_rates_from_wf(pre);
                    }
                    lemma_sorted_insert_wf(prev, v);
                    assert(vs == sorted_insert(prev, v));
                    assert forall|i: int| 0 <= i < n implies match spec_mode_rate(
                        #[trigger] modes[i],
                    ) {
                        Some(u) => has_close(vs, u),
                        None => true,
                    } by {
                        match spec_mode_rate(modes[i]) {
                            Some(u) => {
                                if i < n - 1 {
                                    assert(pre[i] == modes[i]);
                                    assert(has_close(prev, u));
                                    let w = choose|w: int|
                                        0 <= w < prev.len() && rate_close(prev[w], u);
                                    assert(vs.contains(prev[w]));
                                    let m = choose|m: int| 0 <= m < vs.len() && vs[m] == prev[w];
                                    assert(rate_close(vs[m], u));
                                } else {
                                    assert(vs.contains(v));
                                    let m = choose|m: int| 0 <= m < vs.len() && vs[m] == v;
                                    assert(rate_close(vs[m], u));
                                }
                            },
                            None => {},
                        }
                    }
                }
            },
        }
    }
}

pub open spec fn ints_of(vs: Seq<u64>) -> Seq<int> {
    vs.map_values(|x: u64| x as int)
}

fn has_close_in(vals: &Vec<u64>, v: u64) -> (r: bool)
    ensures
        r == has_close(ints_of(vals@), v as int),
{
    let n = vals.len();
    let mut i: usize = 0;
    while i < n
        invariant
            i <= n,
            n == vals@.len(),
            forall|k: int| 0 <= k < i ==> !rate_close(#[trigger] ints_of(vals@)[k], v as int),
        decreases n - i,
    {
        let x = vals[i];
        let diff_ok = if x > v {
            x - v < 500
        } else {
            v - x < 500
        };
        proof {
            assert(ints_of(vals@)[i as int] == x as int);
        }
        if diff_ok {
            return true;
        }
        i = i + 1;
    }
    false
}

proof fn lemma_sorted_insert_at(vs: Seq<int>, v: int, p: int)
    requires
        0 <= p <= vs.len(),
        forall|k: int| 0 <= k < p ==> #[trigger] vs[k] <= v,
        p < vs.len() ==> v < vs[p],
    ensures
        sorted_insert(vs, v) =~= vs.insert(p, v),
    decreases vs.len(),
{
    if vs.len() == 0 {
    } else if p == 0 {
        assert(v < vs[0]);
    } else {
        assert(vs[0] <= v);
        let t = vs.drop_first();
        assert(forall|k: int| 0 <= k < t.len() ==> #[trigger] t[k] == vs[k + 1]);
        lemma_sorted_insert_at(t, v, p - 1);
        assert(seq![vs[0]] + t.insert(p - 1, v) =~= vs.insert(p, v));
    }
}

fn insert_sorted(vals: &mut Vec<u64>, v: u64)
    ensures
        ints_of(final(vals)@) == sorted_insert(ints_of(old(vals)@), v as int),
{
    let n = vals.len();
    let mut p: usize = 0;
    while p < n && vals[p] <= v
        invariant
            p <= n,
            n == vals@.len(),
            vals@ == old(vals)@,
            forall|k: int| 0 <= k < p ==> #[trigger] ints_of(vals@)[k] <= v as int,
        decreases n - p,
    {
        proof {
            assert(ints_of(vals@)[p as int] == vals@[p as int] as int);
        }
        p = p + 1;
    }
    proof {
        let vsi = ints_of(vals@);
        if p < n {
            assert(vsi[p as int] == vals@[p as int] as int);
        }
        lemma_sorted_insert_at(vsi, v as int, p as int);
    }
    let ghost before = vals@;
    vals.insert(p, v);
    proof {
        assert(ints_of(vals@) =~= ints_of(before).insert(p as int, v as int));
    }
}

/// Collect the kept rates of a list of mode strings, in ascending order.
pub fn collect_rates(modes: &Vec<String>) -> (r: Vec<u64>)
    ensures
        ints_of(r@) == spec_rates_from(modes.deep_view()),
{
    let n = modes.len();
    let mut vals: Vec<u64> = Vec::new();
    let mut i: usize = 0;
    proof {
        assert(modes.deep_view().subrange(0, 0) =~= Seq::<Seq<char>>::empty());
        assert(ints_of(vals@) =~= Seq::<int>::empty());
    }
    while i < n
        invariant
            i <= n,
            n == modes@.len(),
            n == modes.deep_view().len(),
            ints_of(vals@) == spec_rates_from(modes.deep_view().subrange(0, i as int)),
        decreases n - i,
    {
        let ghost dv = modes.deep_view();
        proof {
            assert(dv.subrange(0, i as int + 1).drop_last() =~= dv.subrange(0, i as int));
            assert(dv.subrange(0, i as int + 1)[i as int] == dv[i as int]);
            assert(dv[i as int] == modes@[i as int]@);
        }
        match mode_rate(modes[i].as_str()) {
            Some(v) => {
                if !has_close_in(&vals, v) {
                    insert_sorted(&mut vals, v);
                }
            },
            None => {},
        }
        i = i + 1;
    }
    proof {
        assert(modes.deep_view().subrange(0, n as int) =~= modes.deep_view());
    }
    vals
}

/// `<n>Hz`, with `n` the rate truncated to whole hertz.
pub open spec fn spec_hz_label(mhz: int) -> Seq<char> {
    spec_digits(mhz / 1000) + "Hz"@
}

/// `<n>Hz (Native)`, the marker carried by the highest rate alone.
pub open spec fn spec_native_label(mhz: int) -> Seq<char> {
    spec_digits(mhz / 1000) + "Hz (Native)"@
}

fn hz_label(mhz: u64) -> (r: String)
    ensures
        r@ == spec_hz_label(mhz as int),
{
    u64_to_string(mhz / 1000).concat("Hz")
}

fn native_label(mhz: u64) -> (r: String)
    ensures
        r@ == spec_native_label(mhz as int),
{
    u64_to_string(mhz / 1000).concat("Hz (Native)")
}

/// An entry that carries the native marker ends in ` (Native)`.
pub open spec fn has_native_marker(e: Seq<char>) -> bool {
    e.len() >= 9 && e.subrange(e.len() - 9, e.len() as int) == " (Native)"@
}

/// The native entry is the native rate's plain label plus the marker.
pub proof fn lemma_native_label_marker(v: int)
    ensures
        has_native_marker(spec_native_label(v)),
        spec_native_label(v) == spec_hz_label(v) + " (Native)"@,
{
    reveal_strlit("Hz");
    reveal_strlit(" (Native)");
    reveal_strlit("Hz (Native)");
    let e = spec_native_label(v);
    assert(e.subrange(e.len() - 9, e.len() as int) =~= " (Native)"@);
    assert(e =~= spec_hz_label(v) + " (Native)"@);
}

/// A plain rate label never carries the native marker.
pub proof fn lemma_hz_label_no_marker(v: int)
    ensures
        !has_native_marker(spec_hz_label(v)),
{
    reveal_strlit("Hz");
    reveal_strlit(" (Native)");
    let e = spec_hz_label(v);
    assert(e[e.len() - 1] == 'z');
    if has_native_marker(e) {
        assert(e.subrange(e.len() - 9, e.len() as int)[8] == ')');
        assert(false);
    }
}

/// The reported rate list: every kept rate in ascending order, the last --
/// the native one -- carrying the marker.
pub open spec fn spec_display_rates(vs: Seq<int>) -> Seq<Seq<char>> {
    Seq::new(
        vs.len(),
        |i: int|
            if i == vs.len() - 1 {
                spec_native_label(vs[i])
            } else {
                spec_hz_label(vs[i])
            },
    )
}

/// One monitor as the structured-data query reports it: its name, its
/// current refresh rate already truncated to whole hertz, and its
/// available mode strings.
pub struct MonitorInfo {
    pub name: String,
    pub refresh_hz: u32,
    pub available_modes: Vec<String>,
}

pub ghost struct MonitorInfoV {
    pub name: Seq<char>,
    pub refresh_hz: u32,
    pub available_modes: Seq<Seq<char>>,
}

impl View for MonitorInfo {
    type V = MonitorInfoV;

    open spec fn view(&self) -> MonitorInfoV {
        MonitorInfoV {
            name: self.name@,
            refresh_hz: self.refresh_hz,
            available_modes: self.available_modes.deep_view(),
        }
    }
}

/// The display fields of a snapshot.
pub struct DisplayInfo {
    pub refresh_rates: Vec<String>,
    pub current_hz: String,
    pub native_hz: String,
    pub monitor_name: String,
}

/// Whether the monitor list reports a detected monitor: a first
/// descriptor with a non-empty name.  A nameless descriptor is degenerate
/// tool output and counts as no monitor at all.
pub open spec fn spec_monitor_detected(monitors: Seq<MonitorInfoV>) -> bool {
    monitors.len() > 0 && monitors[0].name.len() > 0
}

/// Compose the display fields from the monitor list; only the first
/// monitor is used, and no detected monitor leaves every field empty.
pub fn display_info(monitors: &Vec<MonitorInfo>) -> (r: DisplayInfo)
    ensures
        !spec_monitor_detected(monitors@.map_values(|m: MonitorInfo| m@)) ==> r.refresh_rates@.len()
            == 0 && r.current_hz@.len() == 0 && r.native_hz@.len() == 0 && r.monitor_name@.len()
            == 0,
        spec_monitor_detected(monitors@.map_values(|m: MonitorInfo| m@)) ==> ({
            let m = monitors@[0]@;
            let vs = spec_rates_from(m.available_modes);
            &&& r.monitor_name@ == m.name
            &&& r.current_hz@ == spec_digits(m.refresh_hz as int) + "Hz"@
            &&& r.native_hz@ == (if vs.len() > 0 {
                spec_hz_label(vs[vs.len() - 1])
            } else {
                Seq::<char>::empty()
            })
            &&& r.refresh_rates.deep_view() == spec_display_rates(vs)
            &&& rates_wf(vs)
        }),
{
    proof {
        let mv = monitors@.map_values(|m: MonitorInfo| m@);
        if monitors@.len() > 0 {
            assert(mv[0] == monitors@[0]@);
        }
    }
    if monitors.len() == 0 || monitors[0].name.as_str().is_empty() {
        let r = DisplayInfo {
            refresh_rates: Vec::new(),
            current_hz: String::new(),
            native_hz: String::new(),
            monitor_name: String::new(),
        };
        return r;
    }
    let m = &monitors[0];
    let vals = collect_rates(&m.available_modes);
    proof {
        lemma_rates_from_wf(monitors@[0]@.available_modes);
    }
    let nvals = vals.len();
    let native_hz = if nvals > 0 {
        proof {
            assert(ints_of(vals@)[nvals - 1] == vals@[nvals - 1] as int);
        }
        hz_label(vals[nvals - 1])
    } else {
        String::new()
    };
    let mut rates: Vec<String> = Vec::new();
    let mut i: usize = 0;
    while i < nvals
        invariant
            i <= nvals,
            nvals == vals@.len(),
            ints_of(vals@) == spec_rates_from(monitors@[0]@.available_modes),
            rates.deep_view().len() == i,
            forall|k: int|
                0 <= k < i ==> #[trigger] rates.deep_view()[k] == spec_display_rates(
                    ints_of(vals@),
                )[k],
        decreases nvals - i,
    {
        proof {
            assert(ints_of(vals@)[i as int] == vals@[i as int] as int);
        }
        let label = if i + 1 == nvals {
            native_label(vals[i])
        } else {
            hz_label(vals[i])
        };
        let ghost prev = rates.deep_view();
        rates.push(label);
        proof {
            assert(rates.deep_view() =~= prev.push(label@));
        }
        i = i + 1;
    }
    proof {
        assert(rates.deep_view() =~= spec_display_rates(ints_of(vals@)));
    }
    DisplayInfo {
        refresh_rates: rates,
        current_hz: u64_to_string(m.refresh_hz as u64).concat("Hz"),
        native_hz,
        monitor_name: m.name.clone(),
    }
}

} // verus!
