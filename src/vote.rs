use vstd::prelude::*;

verus! {

/// A single ballot: the option voted for and the moment it was cast,
/// in milliseconds on the library's clock.
#[derive(Clone, Debug)]
pub struct Vote {
    pub value: String,
    pub ts: u64,
}

/// The span during which ballots are accepted: it opens at `start` and
/// stays open for `duration` milliseconds.
#[derive(Clone, Copy, Debug, PartialEq, Eq)]
pub struct Window {
    pub start: u64,
    pub duration: u64,
}

/// Time from `from` to `now`, clamped to zero when the clock reads earlier
/// than `from`.
pub open spec fn age_between(from: u64, now: u64) -> nat {
    if now >= from {
        (now - from) as nat
    } else {
        0
    }
}

/// Reads the wall clock.
///
/// Relies on `std::time::SystemTime::now`, taken as milliseconds since the
/// Unix epoch (zero when the clock reads before the epoch). Nothing is known
/// of the value: the clock may jump in either direction between two reads.
#[verifier::external_body]
pub(crate) fn now_millis() -> (r: u64) {
    std::time::SystemTime::now()
        .duration_since(std::time::UNIX_EPOCH)
        .map(|d| d.as_millis() as u64)
        .unwrap_or(0)
}

/// Saturating difference of two instants.
pub fn age_at(from: u64, now: u64) -> (r: u64)
    ensures
        r == age_between(from, now),
{
    if now >= from {
        now - from
    } else {
        0
    }
}

impl Window {
    /// A window of `duration` milliseconds that opens at the current
    /// wall-clock time.
    pub fn starting_now(duration: u64) -> (r: Window)
        ensures
            r.duration == duration,
    {
        Window { start: now_millis(), duration }
    }

    /// Time elapsed since the window opened, as seen at `now`.
    pub open spec fn spec_elapsed(&self, now: u64) -> nat {
        age_between(self.start, now)
    }

    /// Whether the window accepts ballots at `now`.
    pub open spec fn spec_is_open(&self, now: u64) -> bool {
        self.spec_elapsed(now) < self.duration
    }

    /// Time elapsed since the window opened, as seen at `now`; zero when
    /// `now` lies before the start.
    pub fn elapsed_at(&self, now: u64) -> (r: u64)
        ensures
            r == self.spec_elapsed(now),
    {
        age_at(self.start, now)
    }

    /// Whether the window still accepts ballots at `now`.
    pub fn is_open_at(&self, now: u64) -> (r: bool)
        ensures
            r == self.spec_is_open(now),
    {
        self.elapsed_at(now) < self.duration
    }

    /// Whether the window still accepts ballots, by the wall clock.
    pub fn is_open(&self) -> (r: bool)
        ensures
            exists|now: u64| r == #[trigger] self.spec_is_open(now),
            self.duration == 0 ==> !r,
    {
        let now = now_millis();
        self.is_open_at(now)
    }

    /// Time elapsed since the window opened, by the wall clock; never
    /// negative, even when the clock has moved backward.
    pub fn elapsed(&self) -> (r: u64)
        ensures
            exists|now: u64| r == #[trigger] self.spec_elapsed(now),
    {
        let now = now_millis();
        self.elapsed_at(now)
    }
}

} // verus!
