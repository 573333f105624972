//! Span timings and event timestamps.
use vstd::prelude::*;

verus! {

/// Timing information about a span's lifetime, in nanoseconds.
#[derive(Debug, Copy, Clone, PartialEq, Eq, Structural)]
pub struct SpanTime {
    /// Nanoseconds the span spent entered.
    pub busy: u64,
    /// Nanoseconds the span spent created but not entered.
    pub idle: u64,
}

impl SpanTime {
    /// The time this span spent busy, in nanoseconds.
    pub fn busy(&self) -> (r: u64)
        ensures
            r == self.busy,
    {
        self.busy
    }

    /// The time this span spent idle, in nanoseconds.
    pub fn idle(&self) -> (r: u64)
        ensures
            r == self.idle,
    {
        self.idle
    }
}

/// The UNIX epoch time: seconds and sub-second nanoseconds since
/// 00:00 1 Jan 1970 (UTC). Serialized with the short keys `s` and `n`.
#[derive(Debug, Copy, Clone, PartialEq, Eq, Structural)]
pub struct UnixTime {
    /// Whole seconds since the epoch.
    pub seconds: u64,
    /// Sub-second nanoseconds.
    pub nanos: u32,
}

/// Tells the time for timestamping events.
pub trait Clock {
    /// The current time, or `None` when no timestamp should be recorded.
    fn time(&self) -> Option<UnixTime>;
}

/// A clock that never produces a timestamp.
#[derive(Copy, Clone, Debug)]
pub struct NoClock;

impl Clock for NoClock {
    /// Never a timestamp.
    fn time(&self) -> (r: Option<UnixTime>)
        ensures
            r is None,
    {
        None
    }
}

/// A `Clock` backed by the system wall clock.
#[derive(Copy, Clone, Debug)]
pub struct SystemClock {
    _private: (),
}

impl SystemClock {
    /// Make a system-clock instance.
    pub fn new() -> SystemClock {
        SystemClock { _private: () }
    }
}

impl Clock for SystemClock {
    /// A timestamp from the system clock, or nothing when the platform
    /// clock reads earlier than the epoch; the sub-second part is always
    /// below one billion.
    fn time(&self) -> (r: Option<UnixTime>)
        ensures
            r matches Some(t) ==> t.nanos < 1_000_000_000,
    {
        match system_epoch_duration() {
            Some(d) => {
                let s = duration_secs(&d);
                let n = duration_subsec_nanos(&d);
                Some(UnixTime { seconds: s, nanos: n })
            },
            None => None,
        }
    }
}

#[verifier::external_type_specification]
#[verifier::external_body]
pub struct ExInstant(std::time::Instant);

/// Relies on `SystemTime::now().duration_since(UNIX_EPOCH)`: the elapsed
/// time since the epoch, or `None` when the platform clock reads earlier
/// than the epoch.
#[verifier::external_body]
fn system_epoch_duration() -> Option<std::time::Duration> {
    std::time::SystemTime::now().duration_since(std::time::UNIX_EPOCH).ok()
}

/// Relies on `Duration::as_secs`: the whole-second part of the duration.
#[verifier::external_body]
fn duration_secs(d: &std::time::Duration) -> u64 {
    d.as_secs()
}

/// Relies on `Duration::subsec_nanos`: the sub-second part, documented to be
/// below one billion.
#[verifier::external_body]
fn duration_subsec_nanos(d: &std::time::Duration) -> (r: u32)
    ensures
        r < 1_000_000_000,
{
    d.subsec_nanos()
}

/// Relies on `Instant::now`: an opaque monotonic reading.
#[verifier::external_body]
fn instant_now() -> std::time::Instant {
    std::time::Instant::now()
}

/// Relies on `Instant::duration_since` and `Duration::as_nanos`: the
/// nanoseconds from `earlier` to `now` (zero when `now` is not later),
/// truncated into 64 bits.
#[verifier::external_body]
fn nanos_between(earlier: std::time::Instant, now: std::time::Instant) -> u64 {
    now.duration_since(earlier).as_nanos() as u64
}

/// Accumulates the busy and idle time of one span across re-entries.
///
/// The timer splits a span's lifetime into alternating phases at each
/// enter (`start_busy`) and exit (`end_busy`); the nanoseconds of the
/// phase that just ended are added to the matching counter, saturating
/// at the counter's maximum.
#[derive(Debug, Copy, Clone)]
pub struct SpanTimer {
    busy: u64,
    idle: u64,
    last_update: std::time::Instant,
}

impl SpanTimer {
    /// The accumulated counters of this timer.
    pub closed spec fn totals(self) -> SpanTime {
        SpanTime { busy: self.busy, idle: self.idle }
    }

    /// A fresh timer: both counters zero, the phase starting now.
    pub fn new() -> (t: SpanTimer)
        ensures
            t.totals() == (SpanTime { busy: 0, idle: 0 }),
    {
        SpanTimer { busy: 0, idle: 0, last_update: instant_now() }
    }

    /// Credit `elapsed` nanoseconds to the idle counter, saturating.
    pub fn add_idle(&mut self, elapsed: u64)
        ensures
            final(self).totals() == (SpanTime {
                busy: old(self).totals().busy,
                idle: sat_add(old(self).totals().idle, elapsed),
            }),
    {
        self.idle = self.idle.saturating_add(elapsed);
    }

    /// Credit `elapsed` nanoseconds to the busy counter, saturating.
    pub fn add_busy(&mut self, elapsed: u64)
        ensures
            final(self).totals() == (SpanTime {
                busy: sat_add(old(self).totals().busy, elapsed),
                idle: old(self).totals().idle,
            }),
    {
        self.busy = self.busy.saturating_add(elapsed);
    }

    /// The span was entered: the phase that just ended was idle time.
    pub fn start_busy(&mut self)
        ensures
            final(self).totals().busy == old(self).totals().busy,
            final(self).totals().idle >= old(self).totals().idle,
    {
        let now = instant_now();
        let elapsed = nanos_between(self.last_update, now);
        self.add_idle(elapsed);
        self.last_update = now;
    }

    /// The span was exited: the phase that just ended was busy time.
    pub fn end_busy(&mut self)
        ensures
            final(self).totals().idle == old(self).totals().idle,
            final(self).totals().busy >= old(self).totals().busy,
    {
        let now = instant_now();
        let elapsed = nanos_between(self.last_update, now);
        self.add_busy(elapsed);
        self.last_update = now;
    }

    /// Read out a snapshot of the accumulated counters.
    pub fn finish(&self) -> (r: SpanTime)
        ensures
            r == self.totals(),
    {
        SpanTime { busy: self.busy, idle: self.idle }
    }
}

/// Saturating 64-bit addition, as a specification value.
pub open spec fn sat_add(a: u64, b: u64) -> u64 {
    if a + b <= u64::MAX {
        (a + b) as u64
    } else {
        u64::MAX
    }
}

/// The counters a timer shows after a sequence of alternating phases:
/// each phase credits its nanoseconds to one counter, saturating.
pub open spec fn timer_after(phases: Seq<(bool, u64)>) -> SpanTime
    decreases phases.len(),
{
    if phases.len() == 0 {
        SpanTime { busy: 0, idle: 0 }
    } else {
        let prev = timer_after(phases.drop_last());
        let (is_busy, d) = phases.last();
        if is_busy {
            SpanTime { busy: sat_add(prev.busy, d), idle: prev.idle }
        } else {
            SpanTime { busy: prev.busy, idle: sat_add(prev.idle, d) }
        }
    }
}

/// A timer never loses time: after any sequence of phases whose total
/// fits in 64 bits, the busy and idle counters sum exactly to the
/// wall-clock total of the phases.
pub proof fn lemma_timer_accounts_for_all_time(phases: Seq<(bool, u64)>)
    requires
        seq_total(phases) <= u64::MAX,
    ensures
        timer_after(phases).busy + timer_after(phases).idle == seq_total(phases),
    decreases phases.len(),
{
    if phases.len() > 0 {
        lemma_timer_accounts_for_all_time(phases.drop_last());
        lemma_seq_total_drop_last(phases);
    }
}

/// The wall-clock total of a sequence of phases.
pub open spec fn seq_total(phases: Seq<(bool, u64)>) -> int
    decreases phases.len(),
{
    if phases.len() == 0 {
        0
    } else {
        seq_total(phases.drop_last()) + phases.last().1
    }
}

proof fn lemma_seq_total_drop_last(phases: Seq<(bool, u64)>)
    requires
        phases.len() > 0,
    ensures
        seq_total(phases) == seq_total(phases.drop_last()) + phases.last().1,
        seq_total(phases.drop_last()) >= 0,
        phases.last().1 >= 0,
    decreases phases.len(),
{
    lemma_seq_total_nonneg(phases.drop_last());
}

proof fn lemma_seq_total_nonneg(phases: Seq<(bool, u64)>)
    ensures
        seq_total(phases) >= 0,
    decreases phases.len(),
{
    if phases.len() > 0 {
        lemma_seq_total_nonneg(phases.drop_last());
    }
}

} // verus!
