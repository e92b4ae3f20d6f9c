//! The Bellman maximizer's search over next-period capital choices.
//!
//! For one productivity state, the maximizer walks the capital grid in
//! increasing order.  For each current capital level (a *cell*) it scans
//! candidate next-period capital indices upward, keeps the best candidate
//! value seen, and stops at the first candidate that fails to improve on the
//! running best: the candidate values are concave in the choice, so the first
//! fall marks the maximum.  The scan of the next cell resumes from the chosen
//! index rather than from zero, because the optimal choice is monotone in the
//! current capital level.
//!
//! [`Sweep`] is that search as an incremental machine.  The caller evaluates
//! one candidate at a time — the real-valued utility arithmetic happens
//! outside — and feeds the resulting order code in; the machine does all the
//! deciding: acceptance, early stop, resume position, and the recording of
//! the per-cell value and choice.  Its ghost state keeps the full record of
//! fed candidates, so the contracts pin every output to the fed codes.

use vstd::prelude::*;

verus! {

/// Candidate `t` improves on the running best before it: that best is `floor`
/// when `t == 0` and the previously accepted `fed[t - 1]` otherwise.
pub open spec fn improves_at(fed: Seq<u64>, floor: u64, t: int) -> bool {
    fed[t] > (if t == 0 {
        floor
    } else {
        fed[t - 1]
    })
}

/// The first `k` candidates each improved on the running best.
pub open spec fn rising(fed: Seq<u64>, floor: u64, k: int) -> bool {
    forall|t: int| 0 <= t < k ==> #[trigger] improves_at(fed, floor, t)
}

/// How many of a finished cell's candidates were accepted: all of them when
/// the scan ran to the end of the grid still improving, all but the last
/// otherwise (the last one was the first fall, which stopped the scan).
pub open spec fn accept_count(fed: Seq<u64>, floor: u64) -> int {
    if rising(fed, floor, fed.len() as int) {
        fed.len() as int
    } else {
        fed.len() - 1
    }
}

/// The value a finished cell reports: the last accepted candidate, or the
/// floor when the very first candidate already failed to beat it.
pub open spec fn cell_value(fed: Seq<u64>, floor: u64) -> u64 {
    if accept_count(fed, floor) <= 0 {
        floor
    } else {
        fed[accept_count(fed, floor) - 1]
    }
}

/// The next-period capital index a finished cell chooses: the grid position
/// of the last accepted candidate for a scan that began at `start`, or index
/// 0 when no candidate was accepted.
pub open spec fn cell_choice(fed: Seq<u64>, floor: u64, start: int) -> int {
    if accept_count(fed, floor) <= 0 {
        0
    } else {
        start + accept_count(fed, floor) - 1
    }
}

/// Where the next cell's scan resumes: at the last accepted index, or where
/// this cell's scan began when nothing was accepted.
pub open spec fn next_start(fed: Seq<u64>, floor: u64, start: int) -> int {
    if accept_count(fed, floor) <= 0 {
        start
    } else {
        start + accept_count(fed, floor) - 1
    }
}

/// The scan start of cell `i` in a sweep whose finished cells fed the
/// candidate records in `log`: cell 0 starts at grid index 0 and each later
/// cell resumes from where its predecessor left off.
pub open spec fn start_of(log: Seq<Seq<u64>>, floor: u64, i: int) -> int
    decreases i,
{
    if i <= 0 {
        0
    } else {
        next_start(log[i - 1], floor, start_of(log, floor, i - 1))
    }
}

/// Shape of a finished cell's candidate record for a scan that began at grid
/// index `start` on a grid of `n` levels: at least one candidate was tried,
/// the scan stayed inside the grid, every candidate but possibly the last
/// improved on the running best, and only a scan that reached the last grid
/// index may consist of improvements alone.
pub open spec fn cell_wf(fed: Seq<u64>, floor: u64, start: int, n: int) -> bool {
    &&& fed.len() >= 1
    &&& 0 <= start
    &&& start + fed.len() <= n
    &&& rising(fed, floor, fed.len() - 1)
    &&& (rising(fed, floor, fed.len() as int) ==> start + fed.len() == n)
}

/// Within an accepted run the candidates rise strictly, so the last accepted
/// candidate is the largest and beats the floor.
pub proof fn lemma_rising_peak(fed: Seq<u64>, floor: u64, k: int)
    requires
        rising(fed, floor, k),
        0 < k <= fed.len(),
    ensures
        fed[k - 1] > floor,
        forall|t: int| 0 <= t < k ==> #[trigger] fed[t] <= fed[k - 1],
    decreases k,
{
    assert(improves_at(fed, floor, k - 1));
    if k > 1 {
        lemma_rising_peak(fed, floor, k - 1);
    }
    assert forall|t: int| 0 <= t < k implies #[trigger] fed[t] <= fed[k - 1] by {
        if t < k - 1 {
            assert(fed[t] <= fed[k - 2]);
        }
    }
}

/// The value of a well-formed finished cell dominates every candidate the
/// cell scanned and never falls below the floor.
pub proof fn lemma_cell_value_peak(fed: Seq<u64>, floor: u64, start: int, n: int)
    requires
        cell_wf(fed, floor, start, n),
    ensures
        cell_value(fed, floor) >= floor,
        forall|t: int| 0 <= t < fed.len() ==> #[trigger] fed[t] <= cell_value(fed, floor),
{
    let k = accept_count(fed, floor);
    if k > 0 {
        lemma_rising_peak(fed, floor, k);
        if k < fed.len() {
            // the scan stopped at a fall: the last candidate did not beat the
            // running best, which at that point was fed[k - 1]
            assert(!rising(fed, floor, fed.len() as int));
            let t0 = choose|t: int|
                0 <= t < fed.len() && !(#[trigger] improves_at(fed, floor, t));
            assert(t0 == fed.len() - 1);
            assert(fed.last() <= fed[k - 1]);
        }
    } else {
        // nothing accepted: the only scanned candidate is at most the floor
        assert(fed.len() == 1);
        assert(!rising(fed, floor, fed.len() as int));
        let t0 = choose|t: int|
            0 <= t < fed.len() && !(#[trigger] improves_at(fed, floor, t));
        assert(t0 == 0);
        assert(fed[0] <= floor);
    }
}

/// Appending a record to the log moves no earlier cell's scan start.
proof fn lemma_start_of_push(log: Seq<Seq<u64>>, floor: u64, x: Seq<u64>, i: int)
    requires
        0 <= i <= log.len(),
    ensures
        start_of(log.push(x), floor, i) == start_of(log, floor, i),
    decreases i,
{
    if i > 0 {
        lemma_start_of_push(log, floor, x, i - 1);
        assert(log.push(x)[i - 1] == log[i - 1]);
    }
}

/// Maps a sweep's chosen grid indices to the capital-level codes they pick:
/// the policy function as the model consumes it, one chosen capital level per
/// current capital level.
pub fn policy_levels(policy: &Vec<usize>, grid: &Vec<u64>) -> (r: Vec<u64>)
    requires
        forall|i: int| 0 <= i < policy@.len() ==> (#[trigger] policy@[i]) < grid@.len(),
    ensures
        r@.len() == policy@.len(),
        forall|i: int| 0 <= i < policy@.len() ==> r@[i] == grid@[#[trigger] policy@[i] as int],
{
    let mut r: Vec<u64> = Vec::new();
    let mut i: usize = 0;
    while i < policy.len()
        invariant
            i <= policy@.len(),
            r@.len() == i,
            forall|p: int| 0 <= p < policy@.len() ==> (#[trigger] policy@[p]) < grid@.len(),
            forall|p: int| 0 <= p < i ==> r@[p] == grid@[#[trigger] policy@[p] as int],
        decreases policy@.len() - i,
    {
        r.push(grid[policy[i]]);
        i = i + 1;
    }
    r
}

/// The maximizer's sweep over one productivity state, driven one candidate
/// code at a time.
pub struct Sweep {
    /// Number of capital grid levels.
    n: usize,
    /// Code of the sentinel value a cell reports when nothing is accepted.
    floor: u64,
    /// Where the current cell's scan began (the monotone resume position).
    resume: usize,
    /// Grid index of the candidate to be fed next.
    scan: usize,
    /// Number of candidates the current cell has accepted.
    n_acc: usize,
    /// Best candidate code the current cell has seen (floor before the first
    /// acceptance).
    best_val: u64,
    /// Grid index of the best candidate (0 before the first acceptance).
    best_idx: usize,
    /// Reported value of each finished cell.
    values: Vec<u64>,
    /// Chosen next-period capital index of each finished cell.
    policy: Vec<usize>,
    /// Whether each finished cell accepted any candidate at all.
    accepted: Vec<bool>,
    /// Candidate codes fed to each finished cell, in scan order.
    log: Ghost<Seq<Seq<u64>>>,
    /// Candidate codes fed to the current cell so far.
    cur: Ghost<Seq<u64>>,
}

impl Sweep {
    /// The grid size the sweep was built for.
    pub closed spec fn grid_len(self) -> int {
        self.n as int
    }

    /// The sentinel code the sweep was built with.
    pub closed spec fn floor_code(self) -> u64 {
        self.floor
    }

    /// The candidate records of the finished cells.
    pub closed spec fn cells(self) -> Seq<Seq<u64>> {
        self.log@
    }

    /// The candidate codes fed to the unfinished cell so far.
    pub closed spec fn probes(self) -> Seq<u64> {
        self.cur@
    }

    /// The reported values of the finished cells.
    pub closed spec fn values_seq(self) -> Seq<u64> {
        self.values@
    }

    /// The chosen indices of the finished cells.
    pub closed spec fn policy_seq(self) -> Seq<usize> {
        self.policy@
    }

    /// Which finished cells accepted a candidate.
    pub closed spec fn accepted_seq(self) -> Seq<bool> {
        self.accepted@
    }

    /// How many cells are finished.
    pub open spec fn cells_done(self) -> int {
        self.cells().len() as int
    }

    /// The sweep is done once every grid level has its cell finished.
    pub open spec fn is_done_spec(self) -> bool {
        self.cells_done() == self.grid_len()
    }

    /// The running best the next fed candidate must beat.
    pub open spec fn current_best(self) -> u64 {
        if self.probes().len() == 0 {
            self.floor_code()
        } else {
            self.probes().last()
        }
    }

    /// Internal consistency: the finished cells' records are well-formed
    /// back-to-back scans, the recorded outputs match them, and the exec
    /// fields mirror the current cell's partial scan.
    pub closed spec fn wf(self) -> bool {
        &&& 1 <= self.n
        &&& self.log@.len() <= self.n
        &&& self.values@.len() == self.log@.len()
        &&& self.policy@.len() == self.log@.len()
        &&& self.accepted@.len() == self.log@.len()
        &&& (forall|i: int|
            0 <= i < self.log@.len() ==> cell_wf(
                #[trigger] self.log@[i],
                self.floor,
                start_of(self.log@, self.floor, i),
                self.n as int,
            ))
        &&& (forall|i: int|
            0 <= i < self.log@.len() ==> self.values@[i] == cell_value(
                #[trigger] self.log@[i],
                self.floor,
            ))
        &&& (forall|i: int|
            0 <= i < self.log@.len() ==> self.policy@[i] as int == cell_choice(
                #[trigger] self.log@[i],
                self.floor,
                start_of(self.log@, self.floor, i),
            ))
        &&& (forall|i: int|
            0 <= i < self.log@.len() ==> self.accepted@[i] == (accept_count(
                #[trigger] self.log@[i],
                self.floor,
            ) > 0))
        &&& (self.log@.len() < self.n ==> {
            let start = start_of(self.log@, self.floor, self.log@.len() as int);
            &&& 0 <= start
            &&& rising(self.cur@, self.floor, self.cur@.len() as int)
            &&& start + self.cur@.len() == self.scan
            &&& self.scan < self.n
            &&& self.n_acc == self.cur@.len()
            &&& self.resume as int == if self.cur@.len() == 0 {
                start
            } else {
                self.scan - 1
            }
            &&& self.best_val == if self.cur@.len() == 0 {
                self.floor
            } else {
                self.cur@.last()
            }
            &&& self.best_idx as int == if self.cur@.len() == 0 {
                0
            } else {
                self.scan - 1
            }
        })
        &&& (self.log@.len() == self.n ==> self.cur@.len() == 0)
    }

    /// Starts the sweep of one productivity state over a grid of `n` capital
    /// levels.  `floor` is the code of the sentinel a cell reports when no
    /// candidate is accepted (the caller's stand-in for minus infinity).
    pub fn new(n: usize, floor: u64) -> (s: Sweep)
        requires
            1 <= n,
        ensures
            s.wf(),
            s.grid_len() == n,
            s.floor_code() == floor,
            s.cells() == Seq::<Seq<u64>>::empty(),
            s.probes() == Seq::<u64>::empty(),
    {
        Sweep {
            n,
            floor,
            resume: 0,
            scan: 0,
            n_acc: 0,
            best_val: floor,
            best_idx: 0,
            values: Vec::new(),
            policy: Vec::new(),
            accepted: Vec::new(),
            log: Ghost(Seq::empty()),
            cur: Ghost(Seq::empty()),
        }
    }

    /// The grid index the next fed candidate is for.
    pub open spec fn trial_spec(self) -> int {
        start_of(self.cells(), self.floor_code(), self.cells_done()) + self.probes().len()
    }

    /// Feeds the candidate code for the grid index `trial` points at.  The
    /// candidate is accepted exactly when it beats the running best; a
    /// rejection, or an acceptance at the last grid index, finishes the cell
    /// and records its value and choice.
    pub fn feed(&mut self, v: u64) -> (accepted: bool)
        requires
            old(self).wf(),
            !old(self).is_done_spec(),
        ensures
            final(self).wf(),
            final(self).grid_len() == old(self).grid_len(),
            final(self).floor_code() == old(self).floor_code(),
            accepted == (v > old(self).current_best()),
            ({
                let fed = old(self).probes().push(v);
                if !accepted || old(self).trial_spec() + 1 == old(self).grid_len() {
                    final(self).cells() == old(self).cells().push(fed) && final(self).probes()
                        == Seq::<u64>::empty()
                } else {
                    final(self).cells() == old(self).cells() && final(self).probes() == fed
                }
            }),
    {
        let ghost start = start_of(self.log@, self.floor, self.log@.len() as int);
        let ghost old_cur = self.cur@;
        let accepted = v > self.best_val;
        self.cur = Ghost(self.cur@.push(v));
        let mut closes = !accepted;
        if accepted {
            self.best_val = v;
            self.best_idx = self.scan;
            self.resume = self.scan;
            self.n_acc = self.n_acc + 1;
            self.scan = self.scan + 1;
            closes = self.scan == self.n;
            proof {
                assert forall|t: int|
                    0 <= t < self.cur@.len() implies #[trigger] improves_at(
                    self.cur@,
                    self.floor,
                    t,
                ) by {
                    if t < old_cur.len() {
                        assert(improves_at(old_cur, self.floor, t));
                        assert(self.cur@[t] == old_cur[t]);
                    }
                }
                assert(rising(self.cur@, self.floor, self.cur@.len() as int));
            }
        } else {
            proof {
                assert(!improves_at(self.cur@, self.floor, self.cur@.len() - 1));
                assert(!rising(self.cur@, self.floor, self.cur@.len() as int));
                assert forall|t: int|
                    0 <= t < self.cur@.len() - 1 implies #[trigger] improves_at(
                    self.cur@,
                    self.floor,
                    t,
                ) by {
                    assert(improves_at(old_cur, self.floor, t));
                    assert(self.cur@[t] == old_cur[t]);
                }
            }
        }
        if closes {
            let ghost rec = self.cur@;
            proof {
                assert(accept_count(rec, self.floor) == self.n_acc as int);
                assert(cell_wf(rec, self.floor, start, self.n as int));
            }
            self.values.push(self.best_val);
            self.policy.push(self.best_idx);
            self.accepted.push(self.n_acc > 0);
            let ghost old_log = self.log@;
            self.log = Ghost(self.log@.push(rec));
            self.cur = Ghost(Seq::empty());
            self.n_acc = 0;
            self.best_val = self.floor;
            self.best_idx = 0;
            self.scan = self.resume;
            proof {
                let floor = self.floor;
                let nn = self.n as int;
                assert forall|i: int| 0 <= i < self.log@.len() implies {
                    &&& cell_wf(
                        #[trigger] self.log@[i],
                        floor,
                        start_of(self.log@, floor, i),
                        nn,
                    )
                    &&& self.values@[i] == cell_value(self.log@[i], floor)
                    &&& self.policy@[i] as int == cell_choice(
                        self.log@[i],
                        floor,
                        start_of(self.log@, floor, i),
                    )
                    &&& self.accepted@[i] == (accept_count(self.log@[i], floor) > 0)
                } by {
                    lemma_start_of_push(old_log, floor, rec, i);
                    if i < old_log.len() {
                        assert(self.log@[i] == old_log[i]);
                        assert(cell_wf(old_log[i], floor, start_of(old_log, floor, i), nn));
                    } else {
                        assert(self.log@[i] == rec);
                        assert(start_of(self.log@, floor, i) == start);
                    }
                }
                if self.log@.len() < self.n {
                    lemma_start_of_push(old_log, floor, rec, old_log.len() as int);
                    assert(start_of(self.log@, floor, self.log@.len() as int) == next_start(
                        rec,
                        floor,
                        start,
                    ));
                    assert(self.resume as int == next_start(rec, floor, start));
                }
            }
        }
        accepted
    }

    /// Whether every cell is finished.
    pub fn is_done(&self) -> (r: bool)
        requires
            self.wf(),
        ensures
            r == self.is_done_spec(),
    {
        self.values.len() == self.n
    }

    /// The capital index of the cell currently being searched.
    pub fn capital(&self) -> (i: usize)
        requires
            self.wf(),
        ensures
            i as int == self.cells_done(),
    {
        self.values.len()
    }

    /// The grid index whose candidate must be fed next.
    pub fn trial(&self) -> (t: usize)
        requires
            self.wf(),
            !self.is_done_spec(),
        ensures
            t as int == start_of(self.cells(), self.floor_code(), self.cells_done())
                + self.probes().len(),
            t < self.grid_len(),
    {
        self.scan
    }

    /// The reported value codes of the finished cells: each is the cell's
    /// last accepted candidate, or the floor when nothing was accepted.
    pub fn values(&self) -> (r: &Vec<u64>)
        requires
            self.wf(),
        ensures
            r@ == self.values_seq(),
            r@.len() == self.cells_done(),
            forall|i: int|
                0 <= i < self.cells_done() ==> r@[i] == cell_value(
                    #[trigger] self.cells()[i],
                    self.floor_code(),
                ),
    {
        &self.values
    }

    /// The chosen next-period capital indices of the finished cells; every
    /// choice lies inside the grid.
    pub fn policy(&self) -> (r: &Vec<usize>)
        requires
            self.wf(),
        ensures
            r@ == self.policy_seq(),
            r@.len() == self.cells_done(),
            forall|i: int|
                0 <= i < self.cells_done() ==> r@[i] as int == cell_choice(
                    #[trigger] self.cells()[i],
                    self.floor_code(),
                    start_of(self.cells(), self.floor_code(), i),
                ),
            forall|i: int| 0 <= i < self.cells_done() ==> (#[trigger] r@[i]) < self.grid_len(),
    {
        proof {
            assert forall|i: int| 0 <= i < self.cells_done() implies (#[trigger] self.policy@[i])
                < self.grid_len() by {
                assert(cell_wf(
                    self.log@[i],
                    self.floor,
                    start_of(self.log@, self.floor, i),
                    self.n as int,
                ));
            }
        }
        &self.policy
    }

    /// Dominance of the reported value: each finished cell's value code is at
    /// least every candidate code scanned in that cell, and at least the
    /// floor — the first local maximum the scan finds is the best candidate
    /// it saw.
    pub proof fn lemma_value_dominates(&self, i: int)
        requires
            self.wf(),
            0 <= i < self.cells_done(),
        ensures
            self.values_seq()[i] >= self.floor_code(),
            forall|t: int|
                0 <= t < self.cells()[i].len() ==> #[trigger] self.cells()[i][t]
                    <= self.values_seq()[i],
    {
        lemma_cell_value_peak(
            self.cells()[i],
            self.floor_code(),
            start_of(self.cells(), self.floor_code(), i),
            self.grid_len(),
        );
    }

    /// Early stop: a cell whose scan did not run to the end of the grid
    /// stopped at the very first candidate that failed to improve — exactly
    /// one candidate past the recorded choice was scanned, and it did not
    /// beat the reported value.
    pub proof fn lemma_early_stop(&self, i: int)
        requires
            self.wf(),
            0 <= i < self.cells_done(),
            accept_count(self.cells()[i], self.floor_code()) < self.cells()[i].len(),
        ensures
            self.cells()[i].len() == accept_count(self.cells()[i], self.floor_code()) + 1,
            self.cells()[i].last() <= self.values_seq()[i],
    {
        self.lemma_value_dominates(i);
    }

    /// Monotone policy within a sweep: whenever two cells both accepted a
    /// candidate and every cell between them did as well, the later cell's
    /// chosen index is at least the earlier one's — the resume position never
    /// moves backward.
    pub proof fn lemma_policy_monotone(&self, i: int, j: int)
        requires
            self.wf(),
            0 <= i <= j < self.cells_done(),
            forall|m: int|
                i <= m <= j ==> accept_count(#[trigger] self.cells()[m], self.floor_code()) > 0,
        ensures
            self.policy_seq()[i] <= self.policy_seq()[j],
        decreases j - i,
    {
        if i < j {
            self.lemma_policy_monotone(i, j - 1);
            let floor = self.floor_code();
            let prev = start_of(self.cells(), floor, j - 1);
            assert(start_of(self.cells(), floor, j) == next_start(self.cells()[j - 1], floor, prev));
            assert(accept_count(self.cells()[j - 1], floor) > 0);
            assert(accept_count(self.cells()[j], floor) > 0);
            assert(self.policy_seq()[j - 1] as int == cell_choice(self.cells()[j - 1], floor, prev));
        }
    }

    /// Determinism: two sweeps over the same grid length and floor that were
    /// fed the same candidate codes report the same values, the same choices
    /// and the same acceptance record.
    pub proof fn lemma_deterministic(&self, other: &Sweep)
        requires
            self.wf(),
            other.wf(),
            self.grid_len() == other.grid_len(),
            self.floor_code() == other.floor_code(),
            self.cells() == other.cells(),
        ensures
            self.values_seq() == other.values_seq(),
            self.policy_seq() == other.policy_seq(),
            self.accepted_seq() == other.accepted_seq(),
    {
        assert forall|i: int| 0 <= i < self.cells_done() implies self.values_seq()[i]
            == other.values_seq()[i] && self.policy_seq()[i] == other.policy_seq()[i]
            && self.accepted_seq()[i] == other.accepted_seq()[i] by {
            assert(self.values@[i] == cell_value(self.log@[i], self.floor));
            assert(other.values@[i] == cell_value(other.log@[i], other.floor));
            assert(self.policy@[i] as int == cell_choice(
                self.log@[i],
                self.floor,
                start_of(self.log@, self.floor, i),
            ));
            assert(other.policy@[i] as int == cell_choice(
                other.log@[i],
                other.floor,
                start_of(other.log@, other.floor, i),
            ));
            assert(self.accepted@[i] == (accept_count(self.log@[i], self.floor) > 0));
            assert(other.accepted@[i] == (accept_count(other.log@[i], other.floor) > 0));
        }
        assert(self.values_seq() =~= other.values_seq());
        assert(self.policy_seq() =~= other.policy_seq());
        assert(self.accepted_seq() =~= other.accepted_seq());
    }

    /// Whether each finished cell accepted any candidate at all.
    pub fn accepted(&self) -> (r: &Vec<bool>)
        requires
            self.wf(),
        ensures
            r@ == self.accepted_seq(),
            r@.len() == self.cells_done(),
            forall|i: int|
                0 <= i < self.cells_done() ==> r@[i] == (accept_count(
                    #[trigger] self.cells()[i],
                    self.floor_code(),
                ) > 0),
    {
        &self.accepted
    }
}

} // verus!
