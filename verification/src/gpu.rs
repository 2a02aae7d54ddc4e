//! GPU state reading: parsing the textual output of the black-box mode
//! tools into the current mode and the list of supported modes.
//!
//! The list tool prints one line resembling a bracketed, comma-separated
//! list; the get tool prints a single bare mode name.  The unverified shell
//! only runs the tools and hands their captured standard output in here.

use vstd::prelude::*;
use crate::text::{find_from, find_char, lemma_find_from, lemma_find_shift, spec_trim, trim};
use crate::validate::{spec_valid_gpu_mode, validate_gpu_mode};

verus! {

/// Split on commas and trim each token.  Splitting never yields an empty
/// token list: a string without commas is one (possibly empty) token.
pub open spec fn spec_split_trim(s: Seq<char>) -> Seq<Seq<char>>
    decreases s.len(),
{
    let j = find_from(s, ',', 0);
    if j >= s.len() {
        seq![spec_trim(s)]
    } else {
        proof {
            lemma_find_from(s, ',', 0);
        }
        seq![spec_trim(s.subrange(0, j))] + spec_split_trim(s.subrange(j + 1, s.len() as int))
    }
}

pub fn split_trim(s: &str) -> (r: Vec<String>)
    ensures
        r.deep_view() == spec_split_trim(s@),
{
    let len = s.unicode_len();
    let mut out: Vec<String> = Vec::new();
    let mut pos: usize = 0;
    proof {
        assert(out.deep_view() =~= Seq::<Seq<char>>::empty());
        assert(s@.subrange(0, len as int) =~= s@);
        assert(out.deep_view() + spec_split_trim(s@) =~= spec_split_trim(s@));
    }
    loop
        invariant_except_break
            pos <= len,
            len == s@.len(),
            spec_split_trim(s@) == out.deep_view() + spec_split_trim(
                s@.subrange(pos as int, len as int),
            ),
        ensures
            out.deep_view() == spec_split_trim(s@),
        decreases len - pos,
    {
        let j = find_char(s, ',', pos);
        proof {
            lemma_find_from(s@, ',', pos as int);
            lemma_find_shift(s@, ',', pos as int, pos as int);
        }
        let piece = trim(s.substring_char(pos, j));
        let token = piece.to_owned();
        let ghost prev = out.deep_view();
        out.push(token);
        proof {
            let sv = s@;
            let t = sv.subrange(pos as int, len as int);
            assert(find_from(t, ',', 0) == j - pos);
            assert(out.deep_view() =~= prev + seq![spec_trim(sv.subrange(pos as int, j as int))]);
            if j == len {
                assert(t.subrange(0, t.len() as int) =~= t);
                assert(sv.subrange(pos as int, j as int) =~= t);
                assert(spec_split_trim(t) == seq![spec_trim(t)]);
                assert(prev + seq![spec_trim(t)] =~= out.deep_view());
            } else {
                assert(t.subrange(0, j - pos) =~= sv.subrange(pos as int, j as int));
                assert(t.subrange(j - pos + 1, t.len() as int) =~= sv.subrange(
                    j as int + 1,
                    len as int,
                ));
                assert(spec_split_trim(t) == seq![spec_trim(t.subrange(0, j - pos))]
                    + spec_split_trim(t.subrange(j - pos + 1, t.len() as int)));
                assert(prev + spec_split_trim(t) =~= out.deep_view() + spec_split_trim(
                    sv.subrange(j as int + 1, len as int),
                ));
            }
        }
        if j == len {
            break;
        }
        pos = j + 1;
    }
    out
}

/// Strip one leading `[` and one trailing `]`, each only if present.
pub open spec fn spec_strip_brackets(s: Seq<char>) -> Seq<char> {
    let a = if s.len() > 0 && s[0] == '[' {
        s.drop_first()
    } else {
        s
    };
    if a.len() > 0 && a[a.len() - 1] == ']' {
        a.drop_last()
    } else {
        a
    }
}

fn strip_brackets(s: &str) -> (r: &str)
    ensures
        r@ == spec_strip_brackets(s@),
{
    let len = s.unicode_len();
    let mut lo: usize = 0;
    let mut hi: usize = len;
    if len > 0 && s.get_char(0) == '[' {
        lo = 1;
    }
    if hi > lo && s.get_char(hi - 1) == ']' {
        hi = hi - 1;
    }
    let r = s.substring_char(lo, hi);
    proof {
        let sv = s@;
        let a = if sv.len() > 0 && sv[0] == '[' {
            sv.drop_first()
        } else {
            sv
        };
        let b = if a.len() > 0 && a[a.len() - 1] == ']' {
            a.drop_last()
        } else {
            a
        };
        assert(r@ =~= b);
    }
    r
}

/// Whether a token list holds any real (non-empty) token.  Splitting
/// always yields at least one token, so this is what tells a list that
/// named modes from one that named none.
pub open spec fn spec_has_real_token(toks: Seq<Seq<char>>) -> bool {
    exists|i: int| 0 <= i < toks.len() && toks[i].len() > 0
}

fn has_real_token(toks: &Vec<String>) -> (r: bool)
    ensures
        r == spec_has_real_token(toks.deep_view()),
{
    let n = toks.len();
    let mut i: usize = 0;
    while i < n
        invariant
            i <= n,
            n == toks@.len(),
            n == toks.deep_view().len(),
            forall|k: int| 0 <= k < i ==> #[trigger] toks.deep_view()[k].len() == 0,
        decreases n - i,
    {
        proof {
            assert(toks.deep_view()[i as int] == toks@[i as int]@);
        }
        if !toks[i].as_str().is_empty() {
            return true;
        }
        i = i + 1;
    }
    false
}

/// What the list tool's output denotes: trim the line, strip the outer
/// brackets, split on commas, trim each token.  A list that names no mode
/// at all -- no non-empty token -- yields the empty list, the mark of an
/// unusable subsystem.
pub open spec fn spec_supported_modes(out: Seq<char>) -> Seq<Seq<char>> {
    let toks = spec_split_trim(spec_strip_brackets(spec_trim(out)));
    if spec_has_real_token(toks) {
        toks
    } else {
        Seq::empty()
    }
}

/// The mode the snapshot reports.  A list call that failed or yielded no
/// modes makes the whole subsystem unusable, so it forces the sentinel
/// `Unavailable` even where the get tool answered.  Otherwise the get
/// tool's trimmed output stands if it names a valid mode; an unknown
/// string is treated as a failed read, and `Integrated` is the default
/// before any data.
pub open spec fn spec_gpu_mode(list: Option<Seq<char>>, get: Option<Seq<char>>) -> Seq<char> {
    let usable = match list {
        Some(s) => spec_supported_modes(s).len() > 0,
        None => false,
    };
    if !usable {
        "Unavailable"@
    } else {
        match get {
            Some(g) => if spec_valid_gpu_mode(spec_trim(g)) {
                spec_trim(g)
            } else {
                "Integrated"@
            },
            None => "Integrated"@,
        }
    }
}

/// Compose the two tool outputs into the reported mode and the supported
/// list.  `None` stands for a tool that was missing or exited non-zero.
/// The mode is always one of the valid modes, `Integrated`, or
/// `Unavailable`.
pub fn gpu_info(list_output: Option<&str>, get_output: Option<&str>) -> (r: (String, Vec<String>))
    ensures
        r.1.deep_view() == (match list_output {
            Some(s) => spec_supported_modes(s@),
            None => Seq::<Seq<char>>::empty(),
        }),
        r.0@ == spec_gpu_mode(
            match list_output {
                Some(s) => Some(s@),
                None => None,
            },
            match get_output {
                Some(g) => Some(g@),
                None => None,
            },
        ),
        list_output is None ==> r.0@ == "Unavailable"@,
        r.1.deep_view().len() == 0 <==> r.0@ == "Unavailable"@,
        r.0@ == "Unavailable"@ || r.0@ == "Integrated"@ || spec_valid_gpu_mode(r.0@),
{
    let supported: Vec<String> = match list_output {
        Some(s) => {
            let toks = split_trim(strip_brackets(trim(s)));
            if has_real_token(&toks) {
                toks
            } else {
                let v: Vec<String> = Vec::new();
                proof {
                    assert(v.deep_view() =~= Seq::<Seq<char>>::empty());
                }
                v
            }
        },
        None => {
            let v: Vec<String> = Vec::new();
            proof {
                assert(v.deep_view() =~= Seq::<Seq<char>>::empty());
            }
            v
        },
    };
    let mode: String = match get_output {
        Some(g) => {
            let t = trim(g);
            if validate_gpu_mode(t) {
                t.to_owned()
            } else {
                "Integrated".to_owned()
            }
        },
        None => "Integrated".to_owned(),
    };
    proof {
        reveal_strlit("Unavailable");
        reveal_strlit("Integrated");
        reveal_strlit("Hybrid");
        reveal_strlit("Dedicated");
        reveal_strlit("Compute");
        reveal_strlit("VFIO");
        assert("Unavailable"@.len() == 11);
        assert(!spec_valid_gpu_mode("Unavailable"@));
    }
    if supported.len() == 0 {
        ("Unavailable".to_owned(), supported)
    } else {
        (mode, supported)
    }
}

} // verus!
