//! The change watcher's decision core: a single-threaded loop that blocks
//! on "next filesystem notification or cooldown timeout". The library holds
//! the state and decides; the surrounding binary subscribes to
//! notifications, sleeps, runs synchronization passes, and logs.

use vstd::prelude::*;

use crate::slug::lower_ascii_char;

verus! {

/// The quiet period, in seconds, that must pass after the last relevant
/// event before a synchronization pass runs.
pub const COOLDOWN_SECS: i64 = 30;

/// What the watcher remembers between wake-ups: whether a relevant event
/// is pending, and when the last one arrived.
#[derive(Clone, Copy, PartialEq, Eq, Structural, Debug)]
pub struct WatcherState {
    pub pending: bool,
    pub last_event: i64,
}

/// One wake-up of the watcher loop.
#[derive(Clone, Copy, PartialEq, Eq, Structural, Debug)]
pub enum WatcherInput {
    /// A filesystem notification; `note_file` says whether any reported
    /// path carries the note extension.
    Notification { note_file: bool },
    /// The notification source reported an error.
    NotifyError,
    /// The blocking receive timed out after one cooldown window.
    Timeout,
    /// The notification source closed; the loop ends.
    Closed,
}

/// What the shell must do after a wake-up.
#[derive(Clone, Copy, PartialEq, Eq, Structural, Debug)]
pub enum WatcherAction {
    /// Keep waiting.
    Wait,
    /// Run one full synchronization pass over all notes.
    RunSync,
    /// Log the notification error and keep waiting.
    LogError,
    /// Leave the loop.
    Stop,
}

/// The debounce policy: a relevant notification marks the state dirty and
/// restamps it; a timeout triggers one synchronization pass exactly when
/// the state is dirty and a full cooldown has passed since the last event.
pub open spec fn spec_step(s: WatcherState, input: WatcherInput, now: i64, cooldown: i64) -> (
    WatcherState,
    WatcherAction,
) {
    match input {
        WatcherInput::Notification { note_file } => {
            if note_file {
                (WatcherState { pending: true, last_event: now }, WatcherAction::Wait)
            } else {
                (s, WatcherAction::Wait)
            }
        },
        WatcherInput::NotifyError => (s, WatcherAction::LogError),
        WatcherInput::Timeout => {
            if s.pending && now - s.last_event >= cooldown {
                (WatcherState { pending: false, last_event: s.last_event }, WatcherAction::RunSync)
            } else {
                (s, WatcherAction::Wait)
            }
        },
        WatcherInput::Closed => (s, WatcherAction::Stop),
    }
}

impl WatcherState {
    /// The state a fresh watcher starts in: nothing pending.
    pub fn start(now: i64) -> (r: WatcherState)
        ensures
            !r.pending,
            r.last_event == now,
    {
        WatcherState { pending: false, last_event: now }
    }

    /// Advances the state by one wake-up and says what to do.
    pub fn step(&mut self, input: WatcherInput, now: i64, cooldown: i64) -> (r: WatcherAction)
        requires
            0 <= old(self).last_event,
            0 <= now,
        ensures
            *final(self) == spec_step(*old(self), input, now, cooldown).0,
            r == spec_step(*old(self), input, now, cooldown).1,
            0 <= final(self).last_event <= if now >= old(self).last_event {
                now as int
            } else {
                old(self).last_event as int
            },
    {
        match input {
            WatcherInput::Notification { note_file } => {
                if note_file {
                    self.pending = true;
                    self.last_event = now;
                }
                WatcherAction::Wait
            },
            WatcherInput::NotifyError => WatcherAction::LogError,
            WatcherInput::Timeout => {
                if self.pending && now - self.last_event >= cooldown {
                    self.pending = false;
                    WatcherAction::RunSync
                } else {
                    WatcherAction::Wait
                }
            },
            WatcherInput::Closed => WatcherAction::Stop,
        }
    }
}

/// The state and number of synchronization passes that a sequence of
/// wake-ups produces.
pub open spec fn spec_run(s: WatcherState, trace: Seq<(WatcherInput, i64)>, cooldown: i64) -> (
    WatcherState,
    int,
)
    decreases trace.len(),
{
    if trace.len() == 0 {
        (s, 0)
    } else {
        let first = spec_step(s, trace[0].0, trace[0].1, cooldown);
        let rest = spec_run(first.0, trace.drop_first(), cooldown);
        (
            rest.0,
            rest.1 + if first.1 is RunSync {
                1int
            } else {
                0int
            },
        )
    }
}

/// An input that can never trigger a synchronization pass by itself.
pub open spec fn non_timeout(input: WatcherInput) -> bool {
    input is Notification || input is NotifyError
}

/// Notifications alone never synchronize, however many arrive.
pub proof fn lemma_burst_never_syncs(s: WatcherState, trace: Seq<(WatcherInput, i64)>, cooldown: i64)
    requires
        forall|i: int| 0 <= i < trace.len() ==> non_timeout(#[trigger] trace[i].0),
    ensures
        spec_run(s, trace, cooldown).1 == 0,
    decreases trace.len(),
{
    if trace.len() > 0 {
        let first = spec_step(s, trace[0].0, trace[0].1, cooldown);
        assert(forall|i: int|
            0 <= i < trace.drop_first().len() ==> non_timeout(
                #[trigger] trace.drop_first()[i].0,
            ));
        lemma_burst_never_syncs(first.0, trace.drop_first(), cooldown);
    }
}

/// Once nothing is pending, timeouts keep waiting and keep nothing pending.
pub proof fn lemma_idle_timeouts_never_sync(
    s: WatcherState,
    trace: Seq<(WatcherInput, i64)>,
    cooldown: i64,
)
    requires
        !s.pending,
        forall|i: int| 0 <= i < trace.len() ==> (#[trigger] trace[i].0) is Timeout,
    ensures
        spec_run(s, trace, cooldown).1 == 0,
    decreases trace.len(),
{
    if trace.len() > 0 {
        let first = spec_step(s, trace[0].0, trace[0].1, cooldown);
        assert(first.0 == s);
        lemma_idle_timeouts_never_sync(s, trace.drop_first(), cooldown);
    }
}

/// Timeouts from any state synchronize at most once: the first pass that
/// fires clears the dirty flag, and nothing sets it again.
pub proof fn lemma_timeouts_sync_at_most_once(
    s: WatcherState,
    trace: Seq<(WatcherInput, i64)>,
    cooldown: i64,
)
    requires
        forall|i: int| 0 <= i < trace.len() ==> (#[trigger] trace[i].0) is Timeout,
    ensures
        spec_run(s, trace, cooldown).1 <= 1,
    decreases trace.len(),
{
    if trace.len() > 0 {
        let first = spec_step(s, trace[0].0, trace[0].1, cooldown);
        if first.1 is RunSync {
            assert(!first.0.pending);
            lemma_idle_timeouts_never_sync(first.0, trace.drop_first(), cooldown);
        } else {
            lemma_timeouts_sync_at_most_once(first.0, trace.drop_first(), cooldown);
        }
    }
}

/// Counting passes distributes over splitting the trace.
pub proof fn lemma_run_append(
    s: WatcherState,
    t1: Seq<(WatcherInput, i64)>,
    t2: Seq<(WatcherInput, i64)>,
    cooldown: i64,
)
    ensures
        spec_run(s, t1 + t2, cooldown).0 == spec_run(spec_run(s, t1, cooldown).0, t2, cooldown).0,
        spec_run(s, t1 + t2, cooldown).1 == spec_run(s, t1, cooldown).1 + spec_run(
            spec_run(s, t1, cooldown).0,
            t2,
            cooldown,
        ).1,
    decreases t1.len(),
{
    if t1.len() == 0 {
        assert(t1 + t2 =~= t2);
    } else {
        let first = spec_step(s, t1[0].0, t1[0].1, cooldown);
        assert((t1 + t2).drop_first() =~= t1.drop_first() + t2);
        lemma_run_append(first.0, t1.drop_first(), t2, cooldown);
    }
}

/// The debounce law: a burst of notifications, however many and however
/// rapid, followed by the loop's timeout wake-ups, produces at most one
/// synchronization pass.
pub proof fn lemma_debounce(
    s: WatcherState,
    burst: Seq<(WatcherInput, i64)>,
    quiet: Seq<(WatcherInput, i64)>,
    cooldown: i64,
)
    requires
        forall|i: int| 0 <= i < burst.len() ==> non_timeout(#[trigger] burst[i].0),
        forall|i: int| 0 <= i < quiet.len() ==> (#[trigger] quiet[i].0) is Timeout,
    ensures
        spec_run(s, burst + quiet, cooldown).1 <= 1,
{
    lemma_run_append(s, burst, quiet, cooldown);
    lemma_burst_never_syncs(s, burst, cooldown);
    lemma_timeouts_sync_at_most_once(spec_run(s, burst, cooldown).0, quiet, cooldown);
}

/// The index after the last occurrence of `c`, or `-1` when it never
/// occurs.
pub open spec fn last_index_of(s: Seq<char>, c: char) -> int
    decreases s.len(),
{
    if s.len() == 0 {
        -1
    } else if s.last() == c {
        s.len() - 1
    } else {
        last_index_of(s.drop_last(), c)
    }
}

proof fn lemma_last_index_of_at(s: Seq<char>, c: char, k: int)
    requires
        0 <= k < s.len(),
        s[k] == c,
        forall|j: int| k < j < s.len() ==> s[j] != c,
    ensures
        last_index_of(s, c) == k,
    decreases s.len(),
{
    if s.last() != c {
        assert(s.drop_last()[k] == c);
        lemma_last_index_of_at(s.drop_last(), c, k);
    }
}

proof fn lemma_last_index_of_none(s: Seq<char>, c: char)
    requires
        forall|j: int| 0 <= j < s.len() ==> s[j] != c,
    ensures
        last_index_of(s, c) == -1,
    decreases s.len(),
{
    if s.len() > 0 {
        lemma_last_index_of_none(s.drop_last(), c);
    }
}

/// Whether a path names a note file: its final component has the `md`
/// extension, compared without regard to ASCII case, the way the watcher
/// filters events.
pub open spec fn has_note_extension(p: Seq<char>) -> bool {
    let name = p.subrange(last_index_of(p, '/') + 1, p.len() as int);
    let d = last_index_of(name, '.');
    &&& d > 0
    &&& name.len() == d + 3
    &&& lower_ascii_char(name[d + 1]) == 'm'
    &&& lower_ascii_char(name[d + 2]) == 'd'
}

/// Decides `has_note_extension` for a path string.
#[verifier::loop_isolation(false)]
pub fn path_has_note_extension(p: &str) -> (r: bool)
    ensures
        r == has_note_extension(p@),
{
    let n = p.unicode_len();
    let mut i: usize = n;
    while i > 0 && p.get_char(i - 1) != '/'
        invariant
            0 <= i <= n,
            forall|j: int| i <= j < n ==> p@[j] != '/',
        decreases i,
    {
        i = i - 1;
    }
    proof {
        if i > 0 {
            lemma_last_index_of_at(p@, '/', i - 1);
        } else {
            lemma_last_index_of_none(p@, '/');
        }
    }
    let ghost name = p@.subrange(i as int, n as int);
    let mut d: usize = n;
    while d > i && p.get_char(d - 1) != '.'
        invariant
            i <= d <= n,
            forall|j: int| d <= j < n ==> p@[j] != '.',
        decreases d,
    {
        d = d - 1;
    }
    if d - i <= 1 {
        proof {
            if d > i {
                assert(name[d - 1 - i] == '.');
                lemma_last_index_of_at(name, '.', d - 1 - i);
            } else {
                assert(forall|j: int| 0 <= j < name.len() ==> name[j] != '.');
                lemma_last_index_of_none(name, '.');
            }
        }
        return false;
    }
    proof {
        assert(name[d - 1 - i] == '.');
        lemma_last_index_of_at(name, '.', d - 1 - i);
    }
    if n - d != 2 {
        return false;
    }
    let c1 = p.get_char(d);
    let c2 = p.get_char(d + 1);
    let m1 = c1 == 'm' || c1 == 'M';
    let m2 = c2 == 'd' || c2 == 'D';
    proof {
        assert(name[d - i as int + 0] == p@[d as int]);
        assert(name[d - i as int + 1] == p@[d + 1]);
    }
    m1 && m2
}

/// Whether any path of a notification names a note file; only such events
/// mark the watcher dirty.
#[verifier::loop_isolation(false)]
pub fn event_touches_notes(paths: &Vec<String>) -> (r: bool)
    ensures
        r == exists|i: int| 0 <= i < paths@.len() && has_note_extension(#[trigger] paths@[i]@),
{
    let n = paths.len();
    let mut i: usize = 0;
    while i < n
        invariant
            0 <= i <= n,
            forall|k: int| 0 <= k < i ==> !has_note_extension(#[trigger] paths@[k]@),
        decreases n - i,
    {
        if path_has_note_extension(paths[i].as_str()) {
            return true;
        }
        i = i + 1;
    }
    false
}

} // verus!
