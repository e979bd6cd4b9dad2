//! The session controller: owns the live card set and the ledger for one
//! run, picks due cards, records outcomes, and marks cards ignored. All file
//! work — loading the inputs and persisting the ledger after each mutation —
//! belongs to the caller.

use vstd::prelude::*;
use crate::deck::{CardItem, Deck};
use crate::learning::{
    fsrs_new, now_utc_seconds, is_due_spec, parses_as_float, Difficulty, SchedulerError,
};
use crate::lock::{find_by_id, has_id, ids_unique, item_id, CardItemIdentify, LockItem};

verus! {

/// Relies on rand::random_range: a uniformly random index below the bound
/// (the range is never empty). The value is random, so nothing more is
/// promised of it.
#[verifier::external_body]
fn random_index(bound: usize) -> (r: usize)
    requires
        bound > 0,
    ensures
        r < bound,
{
    rand::random_range(0..bound)
}

/// One running session: the deck's metadata, the prediction model, the
/// current card set, and the ledger, exclusively owned for the run.
pub struct RunningCore {
    deck: Deck,
    fsrs: fsrs::FSRS,
    cards: Vec<CardItem>,
    lock_file: Vec<LockItem>,
}

impl RunningCore {
    /// The ledger this session holds.
    pub closed spec fn ledger(&self) -> Seq<LockItem> {
        self.lock_file@
    }

    /// The card set this session holds.
    pub closed spec fn cards_view(&self) -> Seq<CardItem> {
        self.cards@
    }

    /// The deck metadata this session holds.
    pub closed spec fn deck_spec(&self) -> Deck {
        self.deck
    }

    /// The session invariant: the ledger is unique by identity.
    pub open spec fn wf(&self) -> bool {
        ids_unique(self.ledger())
    }

    /// Starts a session over a reconciled ledger: builds the prediction
    /// model, which always succeeds from its default parameters, and takes
    /// ownership of the deck, cards and ledger.
    pub fn new(deck: Deck, cards: Vec<CardItem>, lock_file: Vec<LockItem>) -> (r: Result<
        RunningCore,
        SchedulerError,
    >)
        requires
            ids_unique(lock_file@),
        ensures
            r is Ok,
            match r {
                Ok(core) => core.wf() && core.ledger() == lock_file@ && core.cards_view() == cards@
                    && core.deck_spec() == deck,
                Err(e) => e == SchedulerError::Model,
            },
    {
        match fsrs_new() {
            Ok(f) => Ok(RunningCore { deck, fsrs: f, cards, lock_file }),
            Err(_) => {
                // the model's default construction cannot fail
                proof {
                    assert(false);
                }
                Err(SchedulerError::Model)
            },
        }
    }

    /// The deck metadata, read back.
    pub fn deck(&self) -> (r: &Deck)
        ensures
            *r == self.deck_spec(),
    {
        &self.deck
    }

    /// The ledger as a plain list, in its persisted order, for the caller
    /// to write out.
    pub fn items_snapshot(&self) -> (r: Vec<LockItem>)
        ensures
            r@ == self.ledger(),
    {
        let mut out: Vec<LockItem> = Vec::new();
        let mut i: usize = 0;
        while i < self.lock_file.len()
            invariant
                i <= self.lock_file@.len(),
                out@.len() == i,
                forall|j: int| 0 <= j < i ==> out@[j] == self.lock_file@[j],
            decreases self.lock_file@.len() - i,
        {
            out.push(self.lock_file[i].clone());
            i += 1;
        }
        proof {
            assert(out@ =~= self.ledger());
        }
        out
    }

    /// The card carrying this identity, if the current set has one.
    pub fn card_for(&self, id: CardItemIdentify) -> (r: Option<&CardItem>)
        ensures
            match r {
                Some(c) => self.cards_view().contains(*c) && c.id_spec() == id,
                None => !crate::lock::card_has_id(self.cards_view(), id),
            },
    {
        let mut i: usize = 0;
        while i < self.cards.len()
            invariant
                i <= self.cards@.len(),
                forall|j: int| 0 <= j < i ==> (#[trigger] self.cards@[j]).id_spec() != id,
            decreases self.cards@.len() - i,
        {
            let cid = self.cards[i].get_id();
            if cid.0 == id.0 && cid.1 == id.1 {
                proof {
                    assert(self.cards_view().contains(self.cards_view()[i as int]));
                }
                return Some(&self.cards[i]);
            }
            i += 1;
        }
        None
    }

    /// The positions of the entries that are due at `now` and not ignored,
    /// in ledger order: exactly those, each once.
    pub fn due_indices(&self, now: i64) -> (r: Vec<usize>)
        ensures
            forall|t: int|
                0 <= t < r@.len() ==> (#[trigger] r@[t]) < self.ledger().len() && is_due_spec(
                    self.ledger()[r@[t] as int].state,
                    now,
                ) && !self.ledger()[r@[t] as int].ignored,
            forall|i: int|
                0 <= i < self.ledger().len() && is_due_spec(
                    (#[trigger] self.ledger()[i]).state,
                    now,
                ) && !self.ledger()[i].ignored ==> r@.contains(i as usize),
            forall|t1: int, t2: int| 0 <= t1 < t2 < r@.len() ==> r@[t1] < r@[t2],
    {
        let mut out: Vec<usize> = Vec::new();
        let mut i: usize = 0;
        while i < self.lock_file.len()
            invariant
                i <= self.lock_file@.len(),
                forall|t: int|
                    0 <= t < out@.len() ==> (#[trigger] out@[t]) < i && is_due_spec(
                        self.ledger()[out@[t] as int].state,
                        now,
                    ) && !self.ledger()[out@[t] as int].ignored,
                forall|k: int|
                    0 <= k < i && is_due_spec((#[trigger] self.ledger()[k]).state, now)
                        && !self.ledger()[k].ignored ==> out@.contains(k as usize),
                forall|t1: int, t2: int| 0 <= t1 < t2 < out@.len() ==> out@[t1] < out@[t2],
            decreases self.lock_file@.len() - i,
        {
            let item = &self.lock_file[i];
            if !item.ignored && item.is_due_at(now) {
                let ghost prev = out@;
                out.push(i);
                proof {
                    assert forall|k: int|
                        0 <= k < i + 1 && is_due_spec((#[trigger] self.ledger()[k]).state, now)
                            && !self.ledger()[k].ignored implies out@.contains(k as usize) by {
                        if k < i {
                            let t = choose|t: int| 0 <= t < prev.len() && prev[t] == k as usize;
                            assert(out@[t] == k as usize);
                        } else {
                            assert(out@[out@.len() - 1] == i);
                        }
                    }
                }
            }
            i += 1;
        }
        out
    }

    /// Picks one entry among those due at `now` and not ignored — the
    /// `pick`-th of them in ledger order, `pick` taken modulo their count —
    /// and None exactly when no entry is due and unignored at `now`.
    pub fn pick_due_at(&self, now: i64, pick: usize) -> (r: Option<LockItem>)
        ensures
            match r {
                Some(item) => self.ledger().contains(item) && !item.ignored && is_due_spec(
                    item.state,
                    now,
                ),
                None => forall|i: int|
                    0 <= i < self.ledger().len() ==> !(is_due_spec(
                        (#[trigger] self.ledger()[i]).state,
                        now,
                    ) && !self.ledger()[i].ignored),
            },
    {
        let due = self.due_indices(now);
        if due.len() == 0 {
            None
        } else {
            let k = due[pick % due.len()];
            let item = self.lock_file[k].clone();
            proof {
                assert(self.ledger().contains(self.ledger()[k as int]));
            }
            Some(item)
        }
    }

    /// One uniformly random entry among those due at the current instant
    /// and not ignored; None when nothing is due. An entry never reviewed
    /// and not ignored is due at every instant, so while one exists the
    /// answer is never None.
    pub fn random_on_time(&self) -> (r: Option<LockItem>)
        ensures
            (match r {
                Some(item) => self.ledger().contains(item) && !item.ignored,
                None => true,
            }),
            (exists|i: int|
                0 <= i < self.ledger().len() && (#[trigger] self.ledger()[i]).state is None
                    && !self.ledger()[i].ignored) ==> r is Some,
    {
        let now = now_utc_seconds();
        let due = self.due_indices(now);
        if due.len() == 0 {
            proof {
                if exists|i: int|
                    0 <= i < self.ledger().len() && (#[trigger] self.ledger()[i]).state is None
                        && !self.ledger()[i].ignored {
                    let i = choose|i: int|
                        0 <= i < self.ledger().len() && (#[trigger] self.ledger()[i]).state is None
                            && !self.ledger()[i].ignored;
                    assert(is_due_spec(self.ledger()[i].state, now));
                    assert(due@.contains(i as usize));
                }
            }
            None
        } else {
            let t = random_index(due.len());
            let k = due[t];
            let item = self.lock_file[k].clone();
            proof {
                assert(self.ledger().contains(self.ledger()[k as int]));
            }
            Some(item)
        }
    }

    /// Advances the entry carrying this identity by one review, under the
    /// deck's target retention, and leaves every other entry untouched. On
    /// a model failure the ledger is left exactly as it was; for an entry
    /// never reviewed the model refuses nothing but an unparsable
    /// retention, so success is owed whenever the deck's retention parses.
    /// The caller persists the ledger afterwards.
    pub fn next_state(&mut self, id: CardItemIdentify, difficulty: Difficulty) -> (r: Result<
        (),
        SchedulerError,
    >)
        requires
            old(self).wf(),
            has_id(old(self).ledger(), id),
        ensures
            final(self).wf(),
            final(self).deck_spec() == old(self).deck_spec(),
            final(self).cards_view() == old(self).cards_view(),
            final(self).ledger().len() == old(self).ledger().len(),
            r is Err ==> final(self).ledger() == old(self).ledger(),
            (exists|k: int|
                0 <= k < old(self).ledger().len() && item_id(#[trigger] old(self).ledger()[k])
                    == id && old(self).ledger()[k].state is None) && parses_as_float(
                old(self).deck_spec().retention_spec(),
            ) ==> r is Ok,
            r is Ok ==> exists|k: int|
                {
                    &&& 0 <= k < old(self).ledger().len()
                    &&& item_id(#[trigger] old(self).ledger()[k]) == id
                    &&& final(self).ledger()[k].name == old(self).ledger()[k].name
                    &&& final(self).ledger()[k].content == old(self).ledger()[k].content
                    &&& final(self).ledger()[k].ignored == old(self).ledger()[k].ignored
                    &&& final(self).ledger()[k].state is Some
                    &&& forall|j: int|
                        0 <= j < old(self).ledger().len() && j != k ==> final(self).ledger()[j]
                            == old(self).ledger()[j]
                },
    {
        let retention = self.deck.retention();
        match find_by_id(&self.lock_file, id) {
            Some(k) => {
                let mut item = self.lock_file[k].clone();
                match item.next_state(&self.fsrs, retention.as_str(), difficulty) {
                    Ok(()) => {
                        self.lock_file[k] = item;
                        proof {
                            assert forall|i: int, j: int|
                                0 <= i < j < self.ledger().len() implies item_id(
                                #[trigger] self.ledger()[i],
                            ) != item_id(#[trigger] self.ledger()[j]) by {
                                assert(item_id(self.ledger()[k as int]) == item_id(
                                    old(self).ledger()[k as int],
                                ));
                            }
                        }
                        Ok(())
                    },
                    Err(e) => {
                        proof {
                            // a refusal cannot reach an entry never reviewed
                            // while the deck's retention parses
                            if (exists|k0: int|
                                0 <= k0 < old(self).ledger().len() && item_id(
                                    #[trigger] old(self).ledger()[k0],
                                ) == id && old(self).ledger()[k0].state is None)
                                && parses_as_float(old(self).deck_spec().retention_spec()) {
                                let k0 = choose|k0: int|
                                    0 <= k0 < old(self).ledger().len() && item_id(
                                        #[trigger] old(self).ledger()[k0],
                                    ) == id && old(self).ledger()[k0].state is None;
                                assert(k0 == k as int);
                                assert(false);
                            }
                        }
                        Err(e)
                    },
                }
            },
            None => {
                // the ledger holds the identity, so the search cannot miss
                proof {
                    assert(false);
                }
                Err(SchedulerError::Model)
            },
        }
    }

    /// Marks the entry carrying this identity as permanently excluded from
    /// selection, leaving its memory state and every other entry untouched.
    /// The caller persists the ledger afterwards.
    pub fn set_ignored(&mut self, id: CardItemIdentify)
        requires
            old(self).wf(),
            has_id(old(self).ledger(), id),
        ensures
            final(self).wf(),
            final(self).deck_spec() == old(self).deck_spec(),
            final(self).cards_view() == old(self).cards_view(),
            final(self).ledger().len() == old(self).ledger().len(),
            exists|k: int|
                {
                    &&& 0 <= k < old(self).ledger().len()
                    &&& item_id(#[trigger] old(self).ledger()[k]) == id
                    &&& final(self).ledger()[k] == (LockItem {
                        ignored: true,
                        ..old(self).ledger()[k]
                    })
                    &&& forall|j: int|
                        0 <= j < old(self).ledger().len() && j != k ==> final(self).ledger()[j]
                            == old(self).ledger()[j]
                },
    {
        match find_by_id(&self.lock_file, id) {
            Some(k) => {
                let mut item = self.lock_file[k].clone();
                item.set_ignored(true);
                self.lock_file[k] = item;
                proof {
                    assert forall|i: int, j: int|
                        0 <= i < j < self.ledger().len() implies item_id(
                        #[trigger] self.ledger()[i],
                    ) != item_id(#[trigger] self.ledger()[j]) by {
                        assert(item_id(self.ledger()[k as int]) == item_id(
                            old(self).ledger()[k as int],
                        ));
                    }
                }
            },
            None => {
                // the ledger holds the identity, so the search cannot miss
                proof {
                    assert(false);
                }
            },
        }
    }
}

/// Whether a ledger list is unique by identity: the session invariant, for
/// callers to test before starting a session.
pub fn check_ids_unique(items: &Vec<LockItem>) -> (r: bool)
    ensures
        r == ids_unique(items@),
{
    let mut i: usize = 0;
    while i < items.len()
        invariant
            i <= items@.len(),
            forall|a: int, b: int|
                0 <= a < b < i ==> item_id(#[trigger] items@[a]) != item_id(#[trigger] items@[b]),
        decreases items@.len() - i,
    {
        let mut j: usize = 0;
        while j < i
            invariant
                j <= i < items@.len(),
                forall|b: int| 0 <= b < j ==> item_id(#[trigger] items@[b]) != item_id(items@[i as int]),
            decreases i - j,
        {
            if items[j].name == items[i].name && items[j].content == items[i].content {
                return false;
            }
            j += 1;
        }
        i += 1;
    }
    true
}

} // verus!
