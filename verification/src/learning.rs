//! The scheduler: when an entry is due, and how a review outcome advances
//! its memory state through the pluggable prediction model.

use vstd::prelude::*;
use crate::lock::LockItem;

verus! {

/// The four review outcomes the operator can report.
#[derive(Debug, Clone, Copy, PartialEq, Eq, Structural)]
pub enum Difficulty {
    Easy,
    Good,
    Hard,
    Again,
}

/// The memory state of a reviewed card.
///
/// The instant of the last review is whole seconds on the UTC-naive
/// timeline. The interval until the next due instant, a fractional-day
/// count, is carried as the bit pattern of its 32-bit float value, exactly
/// as the model produced it and the ledger file stores it; the engine reads
/// it only through [`interval_secs_spec`]. The model's own payload — its
/// stability and difficulty parameters, with the interval as it made it —
/// rides through opaquely: the engine never looks inside it.
#[derive(Debug, PartialEq)]
pub struct MemoryState {
    pub last_reviewed: i64,
    pub interval: u32,
    pub item: fsrs::ItemState,
}

/// What can go wrong while advancing an entry: the prediction model refused
/// its inputs. The entry is left untouched when this comes back.
#[derive(Debug, Clone, Copy, PartialEq, Eq, Structural)]
pub enum SchedulerError {
    Model,
}

/// One candidate next state from the prediction model: the next interval in
/// fractional days as its 32-bit float bit pattern, and the model's opaque
/// payload for that outcome.
#[derive(Debug, PartialEq)]
pub struct CandidateState {
    pub interval: u32,
    pub item: fsrs::ItemState,
}

/// The four candidate next states the model offers, one per review outcome.
#[derive(Debug, PartialEq)]
pub struct NextCandidates {
    pub easy: CandidateState,
    pub good: CandidateState,
    pub hard: CandidateState,
    pub again: CandidateState,
}

#[verifier::external_type_specification]
#[verifier::external_body]
pub struct ExFsrs(fsrs::FSRS);

#[verifier::external_type_specification]
#[verifier::external_body]
pub struct ExFsrsError(fsrs::FSRSError);

#[verifier::external_type_specification]
#[verifier::external_body]
pub struct ExItemState(fsrs::ItemState);

/// Relies on fsrs::ItemState being plain data (two floats and a float
/// interval): cloning it gives the same value.
pub assume_specification[ <fsrs::ItemState as Clone>::clone ](
    m: &fsrs::ItemState,
) -> (r: fsrs::ItemState)
    ensures
        r == *m,
;

impl Clone for MemoryState {
    fn clone(&self) -> (r: Self)
        ensures
            r == *self,
    {
        MemoryState {
            last_reviewed: self.last_reviewed,
            interval: self.interval,
            item: self.item.clone(),
        }
    }
}

impl Clone for CandidateState {
    fn clone(&self) -> (r: Self)
        ensures
            r == *self,
    {
        CandidateState { interval: self.interval, item: self.item.clone() }
    }
}

/// Relies on fsrs::FSRS::new: builds the prediction model; an empty
/// parameter list selects the crate's default parameters. For the empty
/// list the call cannot fail: the crate fills in its 21 finite default
/// parameters, they pass the finiteness check, and clipping keeps their
/// number, so the result is always Ok.
#[verifier::external_body]
pub(crate) fn fsrs_new() -> (r: Result<fsrs::FSRS, fsrs::FSRSError>)
    ensures
        r is Ok,
{
    fsrs::FSRS::new(&[])
}

/// Converts one fsrs::ItemState into the library's form. Relies on
/// f32::to_bits, which is exactly the bits of the float value.
#[verifier::external_body]
fn candidate_of(s: &fsrs::ItemState) -> CandidateState {
    CandidateState { interval: s.interval.to_bits(), item: s.clone() }
}

/// Whether the text parses as the 32-bit float value the prediction model
/// takes for its target retention: a pure function of the characters.
pub uninterp spec fn parses_as_float(s: Seq<char>) -> bool;

/// Relies on fsrs::FSRS::next_states: given the prior memory parameters (or
/// none for a card never reviewed), the target retention (carried textually,
/// parsed here to the float the model takes), and the elapsed whole days,
/// it returns the four candidate next states, or an error for inputs the
/// model refuses. Nothing is promised of the numbers that come back.
///
/// For a card never reviewed the call succeeds exactly when the retention
/// text parses: the model then takes its default-initialization path, whose
/// memory states are built from the model's clipped, finite parameters for
/// every retention value, and only those states are validated.
#[verifier::external_body]
fn fsrs_next_states(
    f: &fsrs::FSRS,
    prior: Option<&fsrs::ItemState>,
    retention: &str,
    elapsed_days: u32,
) -> (r: Result<NextCandidates, SchedulerError>)
    ensures
        prior is None ==> (r is Ok <==> parses_as_float(retention@)),
{
    let retention = retention.parse().map_err(|_| SchedulerError::Model)?;
    match f.next_states(prior.map(|it| it.memory), retention, elapsed_days) {
        Ok(ns) => Ok(NextCandidates {
            easy: candidate_of(&ns.easy),
            good: candidate_of(&ns.good),
            hard: candidate_of(&ns.hard),
            again: candidate_of(&ns.again),
        }),
        Err(_) => Err(SchedulerError::Model),
    }
}

/// Relies on chrono::Utc::now: the current instant, as whole seconds of the
/// UTC-naive timeline. The value depends on the clock, so nothing is
/// promised of it.
#[verifier::external_body]
pub(crate) fn now_utc_seconds() -> i64 {
    chrono::Utc::now().timestamp()
}

/// Relies on chrono::Local: the whole days elapsed from the given UTC-naive
/// instant, read on the local calendar, to the local now; None when that
/// instant has no local reading. Depends on the clock and the machine's
/// time zone, so nothing is promised of the value.
#[verifier::external_body]
fn elapsed_days_local(prev_seconds: i64) -> Option<i64> {
    let prev = chrono::DateTime::from_timestamp(prev_seconds, 0)?.naive_utc();
    let prev_local = chrono::TimeZone::from_local_datetime(&chrono::Local, &prev).earliest()?;
    Some((chrono::Local::now() - prev_local).num_days())
}

/// The whole-day count handed to the prediction model for a reading of the
/// local calendar: a negative reading clamps to zero (the model takes no
/// negative elapsed time), an oversized one to the largest count it takes.
pub open spec fn clamp_days_spec(d: int) -> u32 {
    if d < 0 {
        0
    } else if d > u32::MAX {
        u32::MAX
    } else {
        d as u32
    }
}

fn clamp_days(d: i64) -> (r: u32)
    ensures
        r == clamp_days_spec(d as int),
{
    if d < 0 {
        0
    } else if d > u32::MAX as i64 {
        u32::MAX
    } else {
        d as u32
    }
}

/// Two to the power `k`.
pub open spec fn pow2(k: nat) -> int
    decreases k,
{
    if k == 0 {
        1
    } else {
        2 * pow2((k - 1) as nat)
    }
}

pub proof fn lemma_pow2_pos(k: nat)
    ensures
        pow2(k) >= 1,
    decreases k,
{
    if k > 0 {
        lemma_pow2_pos((k - 1) as nat);
    }
}

pub proof fn lemma_pow2_mono(a: nat, b: nat)
    requires
        a <= b,
    ensures
        pow2(a) <= pow2(b),
    decreases b,
{
    if a < b {
        lemma_pow2_mono(a, (b - 1) as nat);
        lemma_pow2_pos((b - 1) as nat);
    }
}

/// The exact mathematical value of `bits`, read as a 32-bit float
/// fractional-day count, times 86400 seconds per day, truncated toward
/// zero: the number the bit pattern encodes is m * 2^(e-150) (with the
/// hidden mantissa bit for normal values), so the whole-second count is
/// m * 86400 scaled by that power of two. A pattern with the exponent field
/// saturated reads as zero when it encodes no number, else as unbounded.
pub open spec fn interval_secs_exact(bits: u32) -> int {
    let sign = bits as int / 0x8000_0000;
    let e = (bits as int / 0x80_0000) % 0x100;
    let frac = bits as int % 0x80_0000;
    if e == 0xFF {
        if frac != 0 {
            0
        } else if sign == 1 {
            i64::MIN as int
        } else {
            i64::MAX as int
        }
    } else {
        let m = if e == 0 {
            frac
        } else {
            frac + 0x80_0000
        };
        let scaled = m * 86400;
        let ex: int = if e == 0 {
            1
        } else {
            e as int
        };
        let mag: int = if ex >= 150 {
            scaled * pow2((ex - 150) as nat)
        } else {
            scaled / pow2((150 - ex) as nat)
        };
        if sign == 1 {
            -mag
        } else {
            mag
        }
    }
}

/// The interval in whole seconds: the exact value, saturated to the range
/// an i64 holds.
pub open spec fn interval_secs_spec(bits: u32) -> i64 {
    if interval_secs_exact(bits) > i64::MAX {
        i64::MAX
    } else if interval_secs_exact(bits) < i64::MIN {
        i64::MIN
    } else {
        interval_secs_exact(bits) as i64
    }
}

/// Reads the fractional-day interval from its 32-bit float bit pattern and
/// converts it to whole seconds, exactly as [`interval_secs_spec`] states.
pub fn interval_seconds(bits: u32) -> (s: i64)
    ensures
        s == interval_secs_spec(bits),
{
    let sign: u32 = bits / 0x8000_0000;
    let e: u32 = (bits / 0x80_0000) % 0x100;
    let frac: u32 = bits % 0x80_0000;
    if e == 0xFF {
        if frac != 0 {
            0
        } else if sign == 1 {
            i64::MIN
        } else {
            i64::MAX
        }
    } else {
        let m: u64 = if e == 0 {
            frac as u64
        } else {
            (frac + 0x80_0000) as u64
        };
        let scaled: u64 = m * 86400;
        let ex: u32 = if e == 0 {
            1
        } else {
            e
        };
        if ex >= 150 {
            let sh: u32 = ex - 150;
            if sh >= 63 {
                proof {
                    lemma_pow2_mono(63, sh as nat);
                    assert(pow2(63) == 0x8000_0000_0000_0000) by {
                        reveal_with_fuel(pow2, 64);
                    }
                    assert(scaled * pow2(sh as nat) >= 0x8000_0000_0000_0000) by (nonlinear_arith)
                        requires
                            scaled >= 1,
                            pow2(sh as nat) >= 0x8000_0000_0000_0000,
                    ;
                }
                if sign == 1 {
                    i64::MIN
                } else {
                    i64::MAX
                }
            } else {
                let mut pow: u64 = 1;
                let mut i: u32 = 0;
                proof {
                    lemma_pow2_mono(sh as nat, 62);
                    assert(pow2(62) == 0x4000_0000_0000_0000) by {
                        reveal_with_fuel(pow2, 63);
                    }
                }
                while i < sh
                    invariant
                        i <= sh < 63,
                        pow == pow2(i as nat),
                        pow2(sh as nat) <= 0x4000_0000_0000_0000,
                    decreases sh - i,
                {
                    proof {
                        lemma_pow2_mono((i + 1) as nat, sh as nat);
                    }
                    pow = pow * 2;
                    i += 1;
                }
                proof {
                    assert(scaled < 0x200_0000_0000);
                    assert(scaled as int * pow as int <= 0x200_0000_0000 * 0x4000_0000_0000_0000)
                        by (nonlinear_arith)
                        requires
                            0 <= scaled as int <= 0x200_0000_0000,
                            0 <= pow as int <= 0x4000_0000_0000_0000,
                    ;
                }
                let mag: u128 = (scaled as u128) * (pow as u128);
                if mag > i64::MAX as u128 {
                    if sign == 1 {
                        i64::MIN
                    } else {
                        i64::MAX
                    }
                } else {
                    if sign == 1 {
                        -(mag as i64)
                    } else {
                        mag as i64
                    }
                }
            }
        } else {
            let sh: u32 = 150 - ex;
            if sh >= 41 {
                proof {
                    lemma_pow2_mono(41, sh as nat);
                    assert(pow2(41) == 0x200_0000_0000) by {
                        reveal_with_fuel(pow2, 42);
                    }
                    lemma_pow2_pos(sh as nat);
                    assert(scaled < pow2(sh as nat));
                    vstd::arithmetic::div_mod::lemma_basic_div(scaled as int, pow2(sh as nat));
                }
                0
            } else {
                let mut pow: u64 = 1;
                let mut i: u32 = 0;
                proof {
                    lemma_pow2_mono(sh as nat, 40);
                    assert(pow2(40) == 0x100_0000_0000) by {
                        reveal_with_fuel(pow2, 41);
                    }
                }
                while i < sh
                    invariant
                        i <= sh < 41,
                        pow == pow2(i as nat),
                        pow2(sh as nat) <= 0x100_0000_0000,
                    decreases sh - i,
                {
                    proof {
                        lemma_pow2_mono((i + 1) as nat, sh as nat);
                    }
                    pow = pow * 2;
                    i += 1;
                }
                proof {
                    lemma_pow2_pos(sh as nat);
                    assert(scaled / pow <= scaled) by (nonlinear_arith)
                        requires
                            scaled >= 0,
                            pow >= 1,
                    ;
                }
                let mag: u64 = scaled / pow;
                if sign == 1 {
                    -(mag as i64)
                } else {
                    mag as i64
                }
            }
        }
    }
}

/// When an entry is due: always, while it has never been reviewed; once
/// reviewed, exactly from the interval's whole-second count after the last
/// review.
pub open spec fn is_due_spec(state: Option<MemoryState>, now: i64) -> bool {
    match state {
        None => true,
        Some(m) => now >= m.last_reviewed + interval_secs_spec(m.interval),
    }
}

/// The candidate next state the outcome selects.
pub open spec fn chosen_candidate(c: NextCandidates, outcome: Difficulty) -> CandidateState {
    match outcome {
        Difficulty::Easy => c.easy,
        Difficulty::Good => c.good,
        Difficulty::Hard => c.hard,
        Difficulty::Again => c.again,
    }
}

/// The memory state a chosen candidate becomes when the review happens at
/// `now`.
pub open spec fn state_from(c: CandidateState, now: i64) -> MemoryState {
    MemoryState { last_reviewed: now, interval: c.interval, item: c.item }
}

impl LockItem {
    pub fn set_ignored(&mut self, ignored: bool)
        ensures
            *final(self) == (LockItem { ignored, ..*old(self) }),
    {
        self.ignored = ignored;
    }

    /// Whether this entry is due at the given instant.
    pub fn is_due_at(&self, now: i64) -> (r: bool)
        ensures
            r == is_due_spec(self.state, now),
    {
        match self.state {
            None => true,
            Some(ref m) => {
                let due_from: i128 = m.last_reviewed as i128 + interval_seconds(
                    m.interval,
                ) as i128;
                now as i128 >= due_from
            },
        }
    }

    /// Whether this entry is due at the current instant. An entry that has
    /// never been reviewed is due at every instant, so for it the answer is
    /// true whatever the clock says.
    pub fn filter_on_time(&self) -> (r: bool)
        ensures
            self.state is None ==> r,
    {
        self.is_due_at(now_utc_seconds())
    }

    /// Applies the model's answer: the state becomes the candidate matching
    /// the outcome, stamped with the review instant; identity and the
    /// ignored flag stay as they were.
    pub fn advance_at(&mut self, candidates: &NextCandidates, difficulty: Difficulty, now: i64)
        ensures
            *final(self) == (LockItem {
                state: Some(state_from(chosen_candidate(*candidates, difficulty), now)),
                ..*old(self)
            }),
    {
        let c = match difficulty {
            Difficulty::Easy => &candidates.easy,
            Difficulty::Good => &candidates.good,
            Difficulty::Hard => &candidates.hard,
            Difficulty::Again => &candidates.again,
        };
        self.state = Some(
            MemoryState { last_reviewed: now, interval: c.interval, item: c.item.clone() },
        );
    }

    /// Advances this entry by one review: asks the prediction model for the
    /// four candidate next states, with the elapsed days read on the local
    /// calendar (zero for a card never reviewed), and keeps the candidate
    /// matching the outcome, stamped with the current instant. When the
    /// model refuses its inputs the entry is left exactly as it was; for a
    /// card never reviewed the model refuses nothing but an unparsable
    /// retention, so success is owed whenever the retention parses.
    pub fn next_state(
        &mut self,
        fsrs: &fsrs::FSRS,
        retention: &str,
        difficulty: Difficulty,
    ) -> (r: Result<(), SchedulerError>)
        ensures
            r is Err ==> *final(self) == *old(self),
            r is Ok ==> final(self).name == old(self).name,
            r is Ok ==> final(self).content == old(self).content,
            r is Ok ==> final(self).ignored == old(self).ignored,
            r is Ok ==> final(self).state is Some,
            old(self).state is None && parses_as_float(retention@) ==> r is Ok,
    {
        let prior: Option<&fsrs::ItemState> = match self.state {
            None => None,
            Some(ref m) => Some(&m.item),
        };
        let elapsed: u32 = match self.state {
            None => 0,
            Some(ref m) => match elapsed_days_local(m.last_reviewed) {
                Some(d) => clamp_days(d),
                None => 0,
            },
        };
        match fsrs_next_states(fsrs, prior, retention, elapsed) {
            Ok(c) => {
                let now = now_utc_seconds();
                self.advance_at(&c, difficulty, now);
                Ok(())
            },
            Err(_) => Err(SchedulerError::Model),
        }
    }
}

/// An entry that has never been reviewed is due at every instant.
pub proof fn lemma_unseen_always_due(now: i64)
    ensures
        is_due_spec(None, now),
{
}

/// Right after a review at `reviewed`, the entry is not due while the
/// interval's whole-second count has not elapsed, and due again exactly
/// once it has.
pub proof fn lemma_due_after_advance(
    c: NextCandidates,
    outcome: Difficulty,
    reviewed: i64,
    now: i64,
)
    ensures
        now - reviewed < interval_secs_spec(chosen_candidate(c, outcome).interval)
            ==> !is_due_spec(Some(state_from(chosen_candidate(c, outcome), reviewed)), now),
        now - reviewed >= interval_secs_spec(chosen_candidate(c, outcome).interval)
            ==> is_due_spec(Some(state_from(chosen_candidate(c, outcome), reviewed)), now),
{
}

/// A review of a card never seen before, with outcome Again, leaves a full
/// memory state: last reviewed at the review instant, with the interval the
/// model's Again candidate carries.
pub proof fn lemma_advance_fresh_again(c: NextCandidates, now: i64)
    ensures
        state_from(chosen_candidate(c, Difficulty::Again), now).last_reviewed == now,
        state_from(chosen_candidate(c, Difficulty::Again), now).interval == c.again.interval,
{
}

} // verus!
