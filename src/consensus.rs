use vstd::prelude::*;

use crate::decay::{Decay, SCALE};
use crate::lexical::{lex_less, lex_less_asymmetric, lex_less_total, lex_less_transitive, str_less};
use crate::threshold::Escalator;
use crate::vote::{age_at, age_between, now_millis, Vote, Window};

verus! {

/// The weight below which no ballot falls, however old: one tenth.
pub const MIN_WEIGHT: u64 = 100_000;

/// Aggregates ballots cast while a window is open into one decision.
///
/// Each ballot counts with the weight that the decay strategy gives its age,
/// never less than a floor; a value wins when its share of the total weight
/// reaches the threshold that the escalator sets for the time elapsed.
pub struct Consensus<D, E> {
    decay: D,
    escalator: E,
    window: Window,
    votes: Vec<Vote>,
    min_weight: u64,
}

/// A decision as a plain sequence of characters.
pub open spec fn answer_view(r: Option<String>) -> Option<Seq<char>> {
    match r {
        Some(s) => Some(s@),
        None => None,
    }
}

impl<D: Decay, E: Escalator> Consensus<D, E> {
    pub closed spec fn spec_decay(&self) -> D {
        self.decay
    }

    pub closed spec fn spec_escalator(&self) -> E {
        self.escalator
    }

    pub closed spec fn spec_window(&self) -> Window {
        self.window
    }

    /// The ballots recorded so far, oldest first.
    pub closed spec fn spec_votes(&self) -> Seq<Vote> {
        self.votes@
    }

    pub closed spec fn spec_min_weight(&self) -> nat {
        self.min_weight as nat
    }

    /// The decay strategy is usable and the weight floor is at most one.
    pub open spec fn wf(&self) -> bool {
        &&& self.spec_decay().wf()
        &&& self.spec_min_weight() <= SCALE
    }

    /// Weight of ballot `i` at `now`: its decayed weight, raised to the floor.
    pub open spec fn vote_weight(&self, now: u64, i: int) -> nat {
        let w = self.spec_decay().spec_weight(age_between(self.spec_votes()[i].ts, now));
        if w >= self.spec_min_weight() {
            w
        } else {
            self.spec_min_weight()
        }
    }

    /// Summed weight at `now` of the first `n` ballots that are for `v`.
    pub open spec fn tally_upto(&self, now: u64, v: Seq<char>, n: int) -> nat
        decreases n,
    {
        if n <= 0 {
            0
        } else {
            self.tally_upto(now, v, n - 1) + if self.spec_votes()[n - 1].value@ == v {
                self.vote_weight(now, n - 1)
            } else {
                0
            }
        }
    }

    /// Summed weight at `now` of the first `n` ballots.
    pub open spec fn total_upto(&self, now: u64, n: int) -> nat
        decreases n,
    {
        if n <= 0 {
            0
        } else {
            self.total_upto(now, n - 1) + self.vote_weight(now, n - 1)
        }
    }

    /// The time of the first of the first `n` ballots that is for `v`.
    pub open spec fn first_upto(&self, v: Seq<char>, n: int) -> Option<u64>
        decreases n,
    {
        if n <= 0 {
            None
        } else {
            match self.first_upto(v, n - 1) {
                Some(t) => Some(t),
                None => if self.spec_votes()[n - 1].value@ == v {
                    Some(self.spec_votes()[n - 1].ts)
                } else {
                    None
                },
            }
        }
    }

    /// Summed weight at `now` of the ballots for `v`.
    pub open spec fn tally(&self, now: u64, v: Seq<char>) -> nat {
        self.tally_upto(now, v, self.spec_votes().len() as int)
    }

    /// Summed weight at `now` of all ballots.
    pub open spec fn total(&self, now: u64) -> nat {
        self.total_upto(now, self.spec_votes().len() as int)
    }

    /// When `v` was first voted for (zero if never).
    pub open spec fn first_cast(&self, v: Seq<char>) -> nat {
        match self.first_upto(v, self.spec_votes().len() as int) {
            Some(t) => t as nat,
            None => 0,
        }
    }

    /// The share, in parts per million, that a value needs at `now`.
    pub open spec fn threshold_at(&self, now: u64) -> nat {
        self.spec_escalator().spec_threshold(self.spec_window().spec_elapsed(now))
    }

    /// Some ballot is for `v`.
    pub open spec fn is_candidate(&self, v: Seq<char>) -> bool {
        exists|i: int| 0 <= i < self.spec_votes().len() && #[trigger] self.spec_votes()[i].value@ == v
    }

    /// At `now`, `a` ranks before `b`: more weight; on equal weight, cast
    /// first earlier; on that too, first in dictionary order.
    pub open spec fn outranks(&self, now: u64, a: Seq<char>, b: Seq<char>) -> bool {
        let (ta, tb) = (self.tally(now, a), self.tally(now, b));
        let (fa, fb) = (self.first_cast(a), self.first_cast(b));
        ||| ta > tb
        ||| ta == tb && fa < fb
        ||| ta == tb && fa == fb && lex_less(a, b)
    }

    /// `v` is voted for and ranks before every other value voted for.
    pub open spec fn is_leader(&self, now: u64, v: Seq<char>) -> bool {
        &&& self.is_candidate(v)
        &&& forall|i: int|
            0 <= i < self.spec_votes().len() && #[trigger] self.spec_votes()[i].value@ != v
                ==> self.outranks(now, v, self.spec_votes()[i].value@)
    }

    /// The share of `v` at `now` reaches the threshold.
    pub open spec fn qualifies(&self, now: u64, v: Seq<char>) -> bool {
        self.tally(now, v) * SCALE >= self.threshold_at(now) * self.total(now)
    }

    /// `v` is the decision at `now`: some weight was cast, `v` leads the
    /// ranking and its share reaches the threshold.
    pub open spec fn is_decision(&self, now: u64, v: Seq<char>) -> bool {
        &&& self.total(now) > 0
        &&& self.is_leader(now, v)
        &&& self.qualifies(now, v)
    }

    /// `r` is the outcome at `now`: the decision, or none when no value is.
    pub open spec fn decided(&self, now: u64, r: Option<Seq<char>>) -> bool {
        match r {
            Some(v) => self.is_decision(now, v),
            None => forall|v: Seq<char>| !#[trigger] self.is_decision(now, v),
        }
    }

    proof fn lemma_outranks_asymmetric(&self, now: u64, a: Seq<char>, b: Seq<char>)
        ensures
            !(self.outranks(now, a, b) && self.outranks(now, b, a)),
    {
        lex_less_asymmetric(a, b);
    }

    proof fn lemma_outranks_transitive(&self, now: u64, a: Seq<char>, b: Seq<char>, c: Seq<char>)
        requires
            self.outranks(now, a, b),
            self.outranks(now, b, c),
        ensures
            self.outranks(now, a, c),
    {
        if lex_less(a, b) && lex_less(b, c) {
            lex_less_transitive(a, b, c);
        }
    }

    proof fn lemma_outranks_total(&self, now: u64, a: Seq<char>, b: Seq<char>)
        requires
            a != b,
        ensures
            self.outranks(now, a, b) || self.outranks(now, b, a),
    {
        lex_less_total(a, b);
    }

    proof fn lemma_tally_le_total(&self, now: u64, v: Seq<char>, n: int)
        ensures
            self.tally_upto(now, v, n) <= self.total_upto(now, n),
        decreases n,
    {
        if n > 0 {
            self.lemma_tally_le_total(now, v, n - 1);
        }
    }

    /// At any moment at most one value leads the ranking.
    pub proof fn leader_unique(&self, now: u64, a: Seq<char>, b: Seq<char>)
        requires
            self.is_leader(now, a),
            self.is_leader(now, b),
        ensures
            a == b,
    {
        if a != b {
            let i = choose|i: int| 0 <= i < self.spec_votes().len() && #[trigger] self.spec_votes()[i].value@ == b;
            let j = choose|j: int| 0 <= j < self.spec_votes().len() && #[trigger] self.spec_votes()[j].value@ == a;
            assert(self.spec_votes()[i].value@ != a);
            assert(self.spec_votes()[j].value@ != b);
            self.lemma_outranks_asymmetric(now, a, b);
        }
    }

    /// The outcome is a function of the ballots and the moment: two
    /// computations of the result at the same time, with no ballot cast in
    /// between, agree.
    pub proof fn decision_unique(&self, now: u64, r1: Option<Seq<char>>, r2: Option<Seq<char>>)
        requires
            self.decided(now, r1),
            self.decided(now, r2),
        ensures
            r1 == r2,
    {
        match (r1, r2) {
            (Some(a), Some(b)) => self.leader_unique(now, a, b),
            (Some(a), None) => assert(self.is_decision(now, a)),
            (None, Some(b)) => assert(self.is_decision(now, b)),
            (None, None) => {},
        }
    }
}

/// `new` is `old` with one more ballot, for `value` at `ts`, at its end.
pub open spec fn appended(old: Seq<Vote>, new: Seq<Vote>, value: Seq<char>, ts: u64) -> bool {
    &&& new.len() == old.len() + 1
    &&& new.subrange(0, old.len() as int) == old
    &&& new.last().value@ == value
    &&& new.last().ts == ts
}

impl<D: Decay, E: Escalator> Consensus<D, E> {
    /// An aggregator with no ballots yet and the usual weight floor.
    pub fn new(decay: D, escalator: E, window: Window) -> (r: Self)
        requires
            decay.wf(),
        ensures
            r.wf(),
            r.spec_decay() == decay,
            r.spec_escalator() == escalator,
            r.spec_window() == window,
            r.spec_votes().len() == 0,
            r.spec_min_weight() == MIN_WEIGHT,
    {
        Consensus { decay, escalator, window, votes: Vec::new(), min_weight: MIN_WEIGHT }
    }

    /// Records a ballot for `value` cast at `now` if the window is open
    /// then; otherwise changes nothing.
    pub fn cast_at(&mut self, value: &str, now: u64)
        requires
            old(self).wf(),
        ensures
            final(self).wf(),
            final(self).spec_decay() == old(self).spec_decay(),
            final(self).spec_escalator() == old(self).spec_escalator(),
            final(self).spec_window() == old(self).spec_window(),
            final(self).spec_min_weight() == old(self).spec_min_weight(),
            old(self).spec_window().spec_is_open(now) ==> appended(
                old(self).spec_votes(),
                final(self).spec_votes(),
                value@,
                now,
            ),
            !old(self).spec_window().spec_is_open(now) ==> final(self).spec_votes() == old(
                self,
            ).spec_votes(),
    {
        if self.window.is_open_at(now) {
            self.votes.push(Vote { value: value.to_owned(), ts: now });
            assert(self.votes@.subrange(0, old(self).votes@.len() as int) =~= old(self).votes@);
        }
    }

    /// Records a ballot for `value`, stamped by the wall clock, if the
    /// window is open at that moment; otherwise changes nothing.
    pub fn cast(&mut self, value: &str)
        requires
            old(self).wf(),
        ensures
            final(self).wf(),
            final(self).spec_decay() == old(self).spec_decay(),
            final(self).spec_escalator() == old(self).spec_escalator(),
            final(self).spec_window() == old(self).spec_window(),
            final(self).spec_min_weight() == old(self).spec_min_weight(),
            exists|now: u64|
                {
                    &&& #[trigger] old(self).spec_window().spec_is_open(now) ==> appended(
                        old(self).spec_votes(),
                        final(self).spec_votes(),
                        value@,
                        now,
                    )
                    &&& !old(self).spec_window().spec_is_open(now) ==> final(self).spec_votes()
                        == old(self).spec_votes()
                },
    {
        let now = now_millis();
        self.cast_at(value, now);
    }

    /// Number of ballots recorded.
    pub fn vote_count(&self) -> (r: usize)
        ensures
            r == self.spec_votes().len(),
    {
        self.votes.len()
    }

    /// The share, in parts per million, that a value needs at `now`.
    pub fn current_threshold_at(&self, now: u64) -> (r: u64)
        ensures
            r == self.threshold_at(now),
    {
        self.escalator.threshold(self.window.elapsed_at(now))
    }

    /// The share, in parts per million, that a value needs by the wall clock.
    pub fn current_threshold(&self) -> (r: u64)
        ensures
            exists|now: u64| r == #[trigger] self.threshold_at(now),
    {
        let now = now_millis();
        self.current_threshold_at(now)
    }

    /// Whether ballots are accepted at `now`.
    pub fn is_window_open_at(&self, now: u64) -> (r: bool)
        ensures
            r == self.spec_window().spec_is_open(now),
    {
        self.window.is_open_at(now)
    }

    /// Whether ballots are accepted by the wall clock.
    pub fn is_window_open(&self) -> (r: bool)
        ensures
            exists|now: u64| r == #[trigger] self.spec_window().spec_is_open(now),
    {
        let now = now_millis();
        self.is_window_open_at(now)
    }

    /// Time left in the window at `now`, or none once it has run past its
    /// length.
    pub fn time_remaining_at(&self, now: u64) -> (r: Option<u64>)
        ensures
            r == (if self.spec_window().spec_elapsed(now) <= self.spec_window().duration {
                Some((self.spec_window().duration - self.spec_window().spec_elapsed(now)) as u64)
            } else {
                None
            }),
    {
        let elapsed = self.window.elapsed_at(now);
        self.window.duration.checked_sub(elapsed)
    }

    /// Time left in the window by the wall clock, or none once it has run
    /// past its length.
    pub fn time_remaining(&self) -> (r: Option<u64>)
        ensures
            exists|now: u64|
                r == (if #[trigger] self.spec_window().spec_elapsed(now)
                    <= self.spec_window().duration {
                    Some(
                        (self.spec_window().duration - self.spec_window().spec_elapsed(
                            now,
                        )) as u64,
                    )
                } else {
                    None
                }),
    {
        let now = now_millis();
        self.time_remaining_at(now)
    }
}

impl<D: Decay, E: Escalator> Consensus<D, E> {
    /// The floored weight of every ballot at `now`, in ballot order.
    fn weights_at(&self, now: u64) -> (ws: Vec<u64>)
        requires
            self.wf(),
        ensures
            ws@.len() == self.spec_votes().len(),
            forall|k: int|
                0 <= k < ws@.len() ==> #[trigger] ws@[k] == self.vote_weight(now, k) && ws@[k]
                    <= SCALE,
    {
        let mut ws: Vec<u64> = Vec::new();
        let mut j: usize = 0;
        while j < self.votes.len()
            invariant
                self.wf(),
                j <= self.votes@.len(),
                ws@.len() == j,
                forall|k: int|
                    0 <= k < j ==> #[trigger] ws@[k] == self.vote_weight(now, k) && ws@[k]
                        <= SCALE,
            decreases self.votes@.len() - j,
        {
            let age = age_at(self.votes[j].ts, now);
            let w = self.decay.weight(age);
            let w = if w >= self.min_weight {
                w
            } else {
                self.min_weight
            };
            ws.push(w);
            j = j + 1;
        }
        ws
    }

    /// Summed weight of all ballots, given their weights.
    fn total_weight(&self, Ghost(now): Ghost<u64>, ws: &Vec<u64>) -> (r: u128)
        requires
            ws@.len() == self.spec_votes().len(),
            forall|k: int|
                0 <= k < ws@.len() ==> #[trigger] ws@[k] == self.vote_weight(now, k) && ws@[k]
                    <= SCALE,
        ensures
            r == self.total(now),
            r <= ws@.len() * SCALE,
    {
        let mut acc: u128 = 0;
        let mut j: usize = 0;
        while j < ws.len()
            invariant
                j <= ws@.len(),
                ws@.len() == self.spec_votes().len(),
                forall|k: int|
                    0 <= k < ws@.len() ==> #[trigger] ws@[k] == self.vote_weight(now, k) && ws@[k]
                        <= SCALE,
                acc == self.total_upto(now, j as int),
                acc <= j * SCALE,
            decreases ws@.len() - j,
        {
            acc = acc + ws[j] as u128;
            j = j + 1;
        }
        acc
    }

    /// Summed weight and first time of cast of the value of ballot `i`.
    fn standing(&self, Ghost(now): Ghost<u64>, ws: &Vec<u64>, i: usize) -> (r: (u128, u64))
        requires
            i < self.spec_votes().len(),
            ws@.len() == self.spec_votes().len(),
            forall|k: int|
                0 <= k < ws@.len() ==> #[trigger] ws@[k] == self.vote_weight(now, k) && ws@[k]
                    <= SCALE,
        ensures
            r.0 == self.tally(now, self.spec_votes()[i as int].value@),
            r.1 == self.first_cast(self.spec_votes()[i as int].value@),
            r.0 <= ws@.len() * SCALE,
    {
        let value = &self.votes[i].value;
        let ghost v = value@;
        let mut acc: u128 = 0;
        let mut found = false;
        let mut first: u64 = 0;
        let mut j: usize = 0;
        while j < self.votes.len()
            invariant
                j <= self.votes@.len(),
                ws@.len() == self.votes@.len(),
                self.votes@ == self.spec_votes(),
                v == value@,
                forall|k: int|
                    0 <= k < ws@.len() ==> #[trigger] ws@[k] == self.vote_weight(now, k) && ws@[k]
                        <= SCALE,
                acc == self.tally_upto(now, v, j as int),
                acc <= j * SCALE,
                self.first_upto(v, j as int) == (if found {
                    Some(first)
                } else {
                    None::<u64>
                }),
                !found ==> first == 0,
            decreases self.votes@.len() - j,
        {
            if self.votes[j].value == *value {
                acc = acc + ws[j] as u128;
                if !found {
                    found = true;
                    first = self.votes[j].ts;
                }
            }
            j = j + 1;
        }
        (acc, first)
    }

    /// The decision at `now`: among the values voted for, the one with the
    /// most weight (then the earliest first ballot, then the first in
    /// dictionary order), provided its share reaches the threshold.
    pub fn result_at(&self, now: u64) -> (r: Option<String>)
        requires
            self.wf(),
        ensures
            self.decided(now, answer_view(r)),
            self.spec_votes().len() == 0 ==> r is None,
    {
        let threshold = self.escalator.threshold(self.window.elapsed_at(now));
        let ws = self.weights_at(now);
        let total = self.total_weight(Ghost(now), &ws);
        if total == 0 {
            return None;
        }
        let n = self.votes.len();
        let mut best: usize = 0;
        let (mut bt, mut bf) = self.standing(Ghost(now), &ws, 0);
        let mut i: usize = 1;
        while i < n
            invariant
                n == self.spec_votes().len(),
                self.votes@ == self.spec_votes(),
                ws@.len() == n,
                forall|k: int|
                    0 <= k < ws@.len() ==> #[trigger] ws@[k] == self.vote_weight(now, k) && ws@[k]
                        <= SCALE,
                best < i <= n,
                bt == self.tally(now, self.spec_votes()[best as int].value@),
                bf == self.first_cast(self.spec_votes()[best as int].value@),
                bt <= n * SCALE,
                forall|k: int|
                    0 <= k < i && #[trigger] self.spec_votes()[k].value@ != self.spec_votes()[best as int].value@
                        ==> self.outranks(
                        now,
                        self.spec_votes()[best as int].value@,
                        self.spec_votes()[k].value@,
                    ),
            decreases n - i,
        {
            let (t, f) = self.standing(Ghost(now), &ws, i);
            let ahead = t > bt || (t == bt && (f < bf || (f == bf && str_less(
                self.votes[i].value.as_str(),
                self.votes[best].value.as_str(),
            ))));
            let ghost vi = self.spec_votes()[i as int].value@;
            let ghost vb = self.spec_votes()[best as int].value@;
            assert(ahead == self.outranks(now, vi, vb));
            if ahead {
                proof {
                    assert forall|k: int|
                        0 <= k < i + 1 && #[trigger] self.spec_votes()[k].value@ != vi
                            implies self.outranks(now, vi, self.spec_votes()[k].value@) by {
                        let vk = self.spec_votes()[k].value@;
                        if vk != vb {
                            self.lemma_outranks_transitive(now, vi, vb, vk);
                        }
                    }
                }
                best = i;
                bt = t;
                bf = f;
            } else {
                proof {
                    if vi != vb {
                        self.lemma_outranks_total(now, vi, vb);
                    }
                }
            }
            i = i + 1;
        }
        let ghost vb = self.spec_votes()[best as int].value@;
        assert(self.is_leader(now, vb));
        proof {
            self.lemma_tally_le_total(now, vb, n as int);
        }
        if threshold > SCALE {
            proof {
                assert(bt * SCALE < threshold * total) by (nonlinear_arith)
                    requires
                        bt <= total,
                        total > 0,
                        threshold > SCALE,
                ;
                assert forall|v: Seq<char>| !#[trigger] self.is_decision(now, v) by {
                    if self.is_decision(now, v) {
                        self.leader_unique(now, v, vb);
                    }
                }
            }
            return None;
        }
        assert((threshold as int) * (total as int) <= SCALE * (n * SCALE)) by (nonlinear_arith)
            requires
                threshold <= SCALE,
                total <= n * SCALE,
        ;
        let lhs: u128 = bt * (SCALE as u128);
        let rhs: u128 = (threshold as u128) * total;
        if lhs >= rhs {
            Some(self.votes[best].value.clone())
        } else {
            proof {
                assert forall|v: Seq<char>| !#[trigger] self.is_decision(now, v) by {
                    if self.is_decision(now, v) {
                        self.leader_unique(now, v, vb);
                    }
                }
            }
            None
        }
    }

    /// The decision by the wall clock: the value that `result_at` gives for
    /// the moment read.
    pub fn result(&self) -> (r: Option<String>)
        requires
            self.wf(),
        ensures
            exists|now: u64| #[trigger] self.decided(now, answer_view(r)),
            self.spec_votes().len() == 0 ==> r is None,
    {
        let now = now_millis();
        self.result_at(now)
    }
}

} // verus!
