//! The singleton guard: at most one watcher per data root, kept by a
//! process-id marker file and a liveness probe. The library parses the
//! marker and decides; the surrounding binary reads the file and performs
//! the probe, which is an OS capability.

use vstd::prelude::*;

use crate::numfmt::{format_u64, lemma_spec_dec_ascii, spec_dec};
use crate::text::{trim, trim_back_of, trim_front_of, trim_of, unicode_whitespace};

verus! {

/// The value a sequence of decimal digit characters denotes.
pub open spec fn digits_val(s: Seq<char>) -> int
    decreases s.len(),
{
    if s.len() == 0 {
        0
    } else {
        digits_val(s.drop_last()) * 10 + (s.last() as u32 - 48)
    }
}

/// Every character is a decimal digit.
pub open spec fn all_digits(s: Seq<char>) -> bool {
    forall|i: int| 0 <= i < s.len() ==> '0' <= #[trigger] s[i] && s[i] <= '9'
}

/// What `str::parse::<i32>` accepts: an optional sign, then one or more
/// digits, denoting a value within the type's range.
pub open spec fn spec_parse_i32(s: Seq<char>) -> Option<int> {
    if s.len() == 0 {
        None
    } else {
        let neg = s[0] == '-';
        let ds = if s[0] == '-' || s[0] == '+' {
            s.drop_first()
        } else {
            s
        };
        if ds.len() == 0 || !all_digits(ds) {
            None
        } else {
            let v = if neg {
                -digits_val(ds)
            } else {
                digits_val(ds)
            };
            if i32::MIN <= v <= i32::MAX {
                Some(v)
            } else {
                None
            }
        }
    }
}

/// A longer digit string never denotes a smaller value.
proof fn lemma_digits_val_prefix_le(s: Seq<char>, i: int)
    requires
        all_digits(s),
        0 <= i <= s.len(),
    ensures
        digits_val(s.take(i)) <= digits_val(s),
        digits_val(s) >= 0,
    decreases s.len() - i,
{
    if i == s.len() {
        assert(s.take(i) =~= s);
        lemma_digits_val_nonneg(s);
    } else {
        lemma_digits_val_prefix_le(s, i + 1);
        assert(s.take(i + 1).drop_last() =~= s.take(i));
        assert(digits_val(s.take(i + 1)) == digits_val(s.take(i)) * 10 + (s[i] as int - 48));
        lemma_digits_val_nonneg(s.take(i));
    }
}

proof fn lemma_digits_val_nonneg(s: Seq<char>)
    requires
        all_digits(s),
    ensures
        digits_val(s) >= 0,
    decreases s.len(),
{
    if s.len() > 0 {
        lemma_digits_val_nonneg(s.drop_last());
    }
}

/// Parses a signed decimal number the way `str::parse::<i32>` does.
#[verifier::loop_isolation(false)]
pub fn parse_i32(s: &str) -> (r: Option<i32>)
    ensures
        match r {
            Some(v) => spec_parse_i32(s@) == Some(v as int),
            None => spec_parse_i32(s@) is None,
        },
{
    let n = s.unicode_len();
    if n == 0 {
        return None;
    }
    let c0 = s.get_char(0);
    let neg = c0 == '-';
    let start: usize = if c0 == '-' || c0 == '+' {
        1
    } else {
        0
    };
    let ghost ds = if c0 == '-' || c0 == '+' {
        s@.drop_first()
    } else {
        s@
    };
    proof {
        assert(ds =~= s@.subrange(start as int, n as int));
    }
    if n == start {
        return None;
    }
    let mut i: usize = start;
    let mut acc: i64 = 0;
    while i < n
        invariant
            start <= i <= n,
            all_digits(ds.take(i - start)),
            acc == digits_val(ds.take(i - start)),
            0 <= acc <= 2147483648,
        decreases n - i,
    {
        let c = s.get_char(i);
        if c < '0' || c > '9' {
            proof {
                assert(ds[i - start] == c);
                assert(!all_digits(ds));
            }
            return None;
        }
        let d = (c as u32) - 48;
        proof {
            assert(ds.take(i + 1 - start).drop_last() =~= ds.take(i - start));
            assert(ds.take(i + 1 - start).last() == c);
        }
        acc = acc * 10 + (d as i64);
        if acc > 2147483648 {
            proof {
                assert(all_digits(ds.take(i + 1 - start)));
                if all_digits(ds) {
                    lemma_digits_val_prefix_le(ds, i + 1 - start);
                    assert(digits_val(ds) > 2147483648);
                }
            }
            return None;
        }
        i = i + 1;
    }
    proof {
        assert(ds.take(n - start) =~= ds);
    }
    if neg {
        Some((-acc) as i32)
    } else {
        if acc > 2147483647 {
            return None;
        }
        Some(acc as i32)
    }
}

/// What the liveness probe on a recorded process id reported.
pub enum ProbeResult {
    /// The process exists.
    Alive,
    /// No such process: the marker is stale.
    NoSuchProcess,
    /// The probe itself failed for another reason.
    Failed,
}

/// The guard's decision: whether a watcher is already running, and whether
/// a stale marker file must be removed before a new one starts.
#[derive(PartialEq, Eq, Structural, Debug)]
pub enum DaemonVerdict {
    Running,
    NotRunning { stale_marker: bool },
}

/// The process id a marker file's content denotes: its trimmed text parsed
/// as a decimal number, kept only when positive.
pub open spec fn spec_marker_pid(content: Option<Seq<char>>) -> Option<int> {
    match content {
        None => None,
        Some(s) => match spec_parse_i32(trim_of(s)) {
            Some(v) => if v > 0 {
                Some(v)
            } else {
                None
            },
            None => None,
        },
    }
}

/// How the guard reads a marker and a probe: only a present, valid,
/// positive process id that probes alive means a running watcher; a dead
/// process marks the marker stale, to be removed; anything else is simply
/// "not running".
pub open spec fn spec_verdict(pid: Option<int>, probe: ProbeResult) -> DaemonVerdict {
    match pid {
        None => DaemonVerdict::NotRunning { stale_marker: false },
        Some(_) => match probe {
            ProbeResult::Alive => DaemonVerdict::Running,
            ProbeResult::NoSuchProcess => DaemonVerdict::NotRunning { stale_marker: true },
            ProbeResult::Failed => DaemonVerdict::NotRunning { stale_marker: false },
        },
    }
}

/// Extracts the process id recorded in a marker file, if it is usable.
pub fn marker_pid(content: Option<&String>) -> (r: Option<i32>)
    ensures
        match r {
            Some(v) => spec_marker_pid(match content {
                Some(c) => Some(c@),
                None => None,
            }) == Some(v as int) && v > 0,
            None => spec_marker_pid(
                match content {
                    Some(c) => Some(c@),
                    None => None,
                },
            ) is None,
        },
{
    match content {
        None => None,
        Some(c) => {
            let t = trim(c.as_str());
            match parse_i32(t) {
                Some(v) => if v > 0 {
                    Some(v)
                } else {
                    None
                },
                None => None,
            }
        },
    }
}

/// Decides whether a watcher is already running for this data root, from
/// the marker file's content and the liveness probe's outcome. The probe
/// matters only when the marker held a usable process id.
pub fn daemon_running(content: Option<&String>, probe: ProbeResult) -> (r: DaemonVerdict)
    ensures
        r == spec_verdict(
            spec_marker_pid(
                match content {
                    Some(c) => Some(c@),
                    None => None,
                },
            ),
            probe,
        ),
{
    match marker_pid(content) {
        None => DaemonVerdict::NotRunning { stale_marker: false },
        Some(_) => match probe {
            ProbeResult::Alive => DaemonVerdict::Running,
            ProbeResult::NoSuchProcess => DaemonVerdict::NotRunning { stale_marker: true },
            ProbeResult::Failed => DaemonVerdict::NotRunning { stale_marker: false },
        },
    }
}

/// The content the watcher writes to the marker file on startup: its own
/// process id in decimal.
pub fn pid_marker_content(pid: u32) -> (r: String)
    ensures
        r@ == spec_dec(pid as int),
{
    format_u64(pid as u64)
}

/// Staleness cleanup law: a marker recording a process that is dead is
/// judged exactly as no marker at all — a new watcher may start — and it
/// alone is flagged for removal first.
pub proof fn lemma_stale_marker_like_absent(pid: Option<int>, probe: ProbeResult)
    ensures
        spec_verdict(pid, ProbeResult::NoSuchProcess) is NotRunning,
        spec_verdict(None, probe) is NotRunning,
        (pid is Some) ==> spec_verdict(pid, ProbeResult::NoSuchProcess) == (
        DaemonVerdict::NotRunning { stale_marker: true }),
        spec_verdict(None, probe) == (DaemonVerdict::NotRunning { stale_marker: false }),
{
}

/// Round trip: the marker a watcher writes for its own process id is read
/// back as exactly that process id.
pub proof fn lemma_pid_marker_round_trip(pid: u32)
    requires
        1 <= pid <= i32::MAX as u32,
    ensures
        spec_marker_pid(Some(spec_dec(pid as int))) == Some(pid as int),
{
    let s = spec_dec(pid as int);
    lemma_spec_dec_ascii(pid as int);
    assert('0' <= s[0] && s[0] <= '9');
    assert(!unicode_whitespace(s[0]));
    assert(trim_front_of(s) == s);
    assert('0' <= s.last() && s.last() <= '9');
    assert(!unicode_whitespace(s.last()));
    assert(trim_back_of(s) == s);
    lemma_digits_val_of_dec(pid as int);
    assert(s[0] != '-' && s[0] != '+');
    assert(all_digits(s));
    assert(spec_parse_i32(s) == Some(pid as int));
}

/// Rendering a number in decimal and reading the digits back is the
/// identity.
proof fn lemma_digits_val_of_dec(n: int)
    requires
        n >= 0,
    ensures
        digits_val(spec_dec(n)) == n,
    decreases n,
{
    if n < 10 {
        let s = spec_dec(n);
        assert(s =~= seq![((48 + n) as u8) as char]);
        assert((((48 + n) as u8) as char) as u32 == 48 + n);
        assert(s.drop_last() =~= Seq::<char>::empty());
        assert(digits_val(s.drop_last()) == 0);
        assert(s.last() as u32 == 48 + n);
        assert(digits_val(s) == n);
    } else {
        lemma_digits_val_of_dec(n / 10);
        assert(spec_dec(n).drop_last() =~= spec_dec(n / 10));
    }
}

} // verus!
