//! The staking core: bond and unbond on the ledger, the governance bounds on
//! the validator count, the outbound event log, and the session callbacks
//! that an external session driver invokes.
//!
//! Every operation is atomic: a refused operation returns its error and
//! leaves every part of the state exactly as it was.

use vstd::prelude::*;

use crate::ledger::{
    contains_key, count_key, find_key, key_amount, lemma_count_key_push, lemma_count_key_zero,
    lemma_key_amount_at, lemma_remove_key_absent, lemma_remove_key_at, lemma_remove_key_push,
    lemma_unique_count_one, lemma_unique_keys_push, lemma_unique_keys_remove, remove_key,
    unique_keys, BondEntry,
};
use crate::selection::{lemma_selection_bounded_and_ranked, ranked_selection, select_validators};

verus! {

/// Why an operation was refused. No failed operation changes any state.
#[derive(Clone, Copy, Debug, PartialEq, Eq, Structural)]
pub enum Error {
    /// Unbond was attempted for an account with no ledger entry.
    NotStash,
    /// Bond was attempted for an account that already has a ledger entry.
    AlreadyBonded,
    /// The requested bond amount lies below the minimum balance: dust.
    InsufficientBond,
    /// The host's account-reference bookkeeping refused the account.
    BadState,
    /// A bounds update would leave `minimum < 1` or `minimum > maximum`.
    InvalidNumberOfValidators,
    /// A vote was cast by an account whose vote already stands; reserved,
    /// as the voting mechanism itself is.
    AlreadyVoted,
}

/// The outcome class of a dispatched operation.
#[derive(Clone, Copy, Debug, PartialEq, Eq, Structural)]
pub enum DispatchError {
    /// The caller lacked the origin the operation demands.
    BadOrigin,
    /// The operation itself refused, for the reason given.
    Module(Error),
}

/// Who dispatched an operation: the privileged administrative origin, or an
/// ordinary signed account.
#[derive(Clone, Copy, Debug, PartialEq, Eq, Structural)]
pub enum Origin {
    /// The administrative (governance) origin.
    Root,
    /// A transaction signed by the given account.
    Signed(u64),
}

/// An outbound notification, appended to an ordered log that observers read.
#[derive(Clone, Copy, Debug, PartialEq, Eq, Structural)]
pub enum Event {
    /// An account has bonded this amount.
    Bonded(u64, u128),
    /// An account has unbonded.
    Unbonded(u64),
}

/// Genesis configuration: the starting bounds on the validator count.
#[derive(Clone, Copy, Debug, PartialEq, Eq, Structural)]
pub struct Config {
    /// Fewest bonded accounts a selection proceeds with; at least one.
    pub minimum_validator_count: u32,
    /// Most accounts a selection returns; at least the minimum.
    pub maximum_validator_count: u32,
}

impl Config {
    /// The bounds a configuration must respect from the start.
    pub open spec fn wf(&self) -> bool {
        1 <= self.minimum_validator_count <= self.maximum_validator_count
    }
}

/// The amount a bond actually locks: the requested value, clamped to the
/// stash's free balance so that no more than the account holds is locked.
pub open spec fn clamped(value: u128, free_balance: u128) -> u128 {
    if value < free_balance {
        value
    } else {
        free_balance
    }
}

/// Exactly when `bond` succeeds, and which refusal it reports otherwise.
pub open spec fn bond_outcome(
    entries: Seq<BondEntry>,
    origin: Origin,
    value: u128,
    minimum_balance: u128,
    consumer_ok: bool,
) -> Result<(), DispatchError> {
    match origin {
        Origin::Root => Err(DispatchError::BadOrigin),
        Origin::Signed(stash) => if contains_key(entries, stash) {
            Err(DispatchError::Module(Error::AlreadyBonded))
        } else if value < minimum_balance {
            Err(DispatchError::Module(Error::InsufficientBond))
        } else if !consumer_ok {
            Err(DispatchError::Module(Error::BadState))
        } else {
            Ok(())
        },
    }
}

/// Exactly when `unbond` succeeds, and which refusal it reports otherwise.
pub open spec fn unbond_outcome(entries: Seq<BondEntry>, origin: Origin) -> Result<
    (),
    DispatchError,
> {
    match origin {
        Origin::Root => Err(DispatchError::BadOrigin),
        Origin::Signed(stash) => if !contains_key(entries, stash) {
            Err(DispatchError::Module(Error::NotStash))
        } else {
            Ok(())
        },
    }
}

/// Exactly when the minimum bound may change: only the administrative origin,
/// never to zero, never above the standing maximum.
pub open spec fn set_minimum_outcome(origin: Origin, value: u32, maximum: u32) -> Result<
    (),
    DispatchError,
> {
    match origin {
        Origin::Signed(_) => Err(DispatchError::BadOrigin),
        Origin::Root => if value == 0 || value > maximum {
            Err(DispatchError::Module(Error::InvalidNumberOfValidators))
        } else {
            Ok(())
        },
    }
}

/// Exactly when the maximum bound may change: only the administrative origin,
/// never below the standing minimum.
pub open spec fn set_maximum_outcome(origin: Origin, value: u32, minimum: u32) -> Result<
    (),
    DispatchError,
> {
    match origin {
        Origin::Signed(_) => Err(DispatchError::BadOrigin),
        Origin::Root => if value < minimum {
            Err(DispatchError::Module(Error::InvalidNumberOfValidators))
        } else {
            Ok(())
        },
    }
}

/// What `vote` answers: the origin check alone; the voting mechanism itself
/// is a reserved extension point with no defined effect on selection.
pub open spec fn vote_outcome(origin: Origin) -> Result<(), DispatchError> {
    match origin {
        Origin::Root => Err(DispatchError::BadOrigin),
        Origin::Signed(_) => Ok(()),
    }
}

/// The staking core: the account-to-stake ledger, the governance bounds, and
/// the outbound event log.
pub struct Pallet {
    /// The bonding ledger, in insertion order, at most one entry per stash.
    pub bonded: Vec<BondEntry>,
    /// Fewest bonded accounts a selection proceeds with; at least one.
    pub min_validator_count: u32,
    /// Most accounts a selection returns; at least the minimum.
    pub max_validator_count: u32,
    /// The ordered, append-only outbound event log.
    pub events: Vec<Event>,
}

impl Pallet {
    /// The invariants every operation preserves: one entry per stash, and
    /// bounds with `1 <= minimum <= maximum`.
    pub open spec fn wf(&self) -> bool {
        &&& unique_keys(self.bonded@)
        &&& 1 <= self.min_validator_count
        &&& self.min_validator_count <= self.max_validator_count
    }

    /// Both validator-count bounds agree between two states.
    pub open spec fn same_bounds(&self, other: &Pallet) -> bool {
        self.min_validator_count == other.min_validator_count && self.max_validator_count
            == other.max_validator_count
    }

    /// A fresh core: empty ledger, empty event log, the configured bounds.
    pub fn new(config: Config) -> (r: Pallet)
        requires
            config.wf(),
        ensures
            r.wf(),
            r.bonded@ == Seq::<BondEntry>::empty(),
            r.events@ == Seq::<Event>::empty(),
            r.min_validator_count == config.minimum_validator_count,
            r.max_validator_count == config.maximum_validator_count,
    {
        Pallet {
            bonded: Vec::new(),
            min_validator_count: config.minimum_validator_count,
            max_validator_count: config.maximum_validator_count,
            events: Vec::new(),
        }
    }

    /// Locks stake for a signed stash. A stash with a standing entry, a
    /// request below `minimum_balance` (dust), and a stash whose
    /// account-reference increment the host refused are turned away, in that
    /// order of precedence and with nothing changed. Otherwise the requested
    /// value, clamped to `free_balance`, is recorded as the stash's single
    /// entry — the recorded amount is the one whose currency lock the caller
    /// must request — and `Bonded` is noted in the event log.
    pub fn bond(
        &mut self,
        origin: Origin,
        value: u128,
        free_balance: u128,
        minimum_balance: u128,
        consumer_ok: bool,
    ) -> (r: Result<(), DispatchError>)
        requires
            old(self).wf(),
        ensures
            final(self).wf(),
            final(self).same_bounds(old(self)),
            r == bond_outcome(old(self).bonded@, origin, value, minimum_balance, consumer_ok),
            match (r, origin) {
                (Ok(()), Origin::Signed(stash)) => {
                    &&& final(self).bonded@ == old(self).bonded@.push(
                        (stash, clamped(value, free_balance)),
                    )
                    &&& final(self).events@ == old(self).events@.push(
                        Event::Bonded(stash, clamped(value, free_balance)),
                    )
                    &&& contains_key(final(self).bonded@, stash)
                    &&& count_key(final(self).bonded@, stash) == 1
                },
                _ => {
                    &&& final(self).bonded@ == old(self).bonded@
                    &&& final(self).events@ == old(self).events@
                },
            },
    {
        match origin {
            Origin::Root => Err(DispatchError::BadOrigin),
            Origin::Signed(stash) => {
                let found = find_key(&self.bonded, stash);
                if found.is_some() {
                    return Err(DispatchError::Module(Error::AlreadyBonded));
                }
                if value < minimum_balance {
                    return Err(DispatchError::Module(Error::InsufficientBond));
                }
                if !consumer_ok {
                    return Err(DispatchError::Module(Error::BadState));
                }
                let locked: u128 = if value < free_balance {
                    value
                } else {
                    free_balance
                };
                proof {
                    lemma_unique_keys_push(self.bonded@, stash, locked);
                    lemma_count_key_zero(self.bonded@, stash);
                    lemma_count_key_push(self.bonded@, stash, locked);
                }
                self.bonded.push((stash, locked));
                self.events.push(Event::Bonded(stash, locked));
                Ok(())
            },
        }
    }

    /// Releases a signed stash's bond: its single ledger entry is removed —
    /// the caller must ask the currency host to drop the matching lock — and
    /// `Unbonded` is noted. A stash with no entry is turned away with
    /// `NotStash` and nothing changed. A removed stash may bond again at
    /// once.
    pub fn unbond(&mut self, origin: Origin) -> (r: Result<(), DispatchError>)
        requires
            old(self).wf(),
        ensures
            final(self).wf(),
            final(self).same_bounds(old(self)),
            r == unbond_outcome(old(self).bonded@, origin),
            match (r, origin) {
                (Ok(()), Origin::Signed(stash)) => {
                    &&& final(self).bonded@ == remove_key(old(self).bonded@, stash)
                    &&& !contains_key(final(self).bonded@, stash)
                    &&& final(self).events@ == old(self).events@.push(Event::Unbonded(stash))
                },
                _ => {
                    &&& final(self).bonded@ == old(self).bonded@
                    &&& final(self).events@ == old(self).events@
                },
            },
    {
        match origin {
            Origin::Root => Err(DispatchError::BadOrigin),
            Origin::Signed(stash) => {
                let found = find_key(&self.bonded, stash);
                match found {
                    None => Err(DispatchError::Module(Error::NotStash)),
                    Some(i) => {
                        proof {
                            lemma_remove_key_at(self.bonded@, stash, i as int);
                            lemma_unique_keys_remove(self.bonded@, i as int);
                            lemma_remove_key_absent(self.bonded@, stash, i as int);
                        }
                        self.bonded.remove(i);
                        self.events.push(Event::Unbonded(stash));
                        Ok(())
                    },
                }
            },
        }
    }

    /// Raises or lowers the minimum validator count. Only the administrative
    /// origin may call; zero and any value above the standing maximum are
    /// refused with `InvalidNumberOfValidators`. On refusal neither bound
    /// changes.
    pub fn set_minimum_validator_count(&mut self, origin: Origin, value: u32) -> (r: Result<
        (),
        DispatchError,
    >)
        requires
            old(self).wf(),
        ensures
            final(self).wf(),
            r == set_minimum_outcome(origin, value, old(self).max_validator_count),
            r.is_ok() ==> final(self).min_validator_count == value,
            r.is_err() ==> final(self).min_validator_count == old(self).min_validator_count,
            final(self).max_validator_count == old(self).max_validator_count,
            final(self).bonded@ == old(self).bonded@,
            final(self).events@ == old(self).events@,
    {
        match origin {
            Origin::Signed(_) => Err(DispatchError::BadOrigin),
            Origin::Root => {
                if value == 0 || value > self.max_validator_count {
                    Err(DispatchError::Module(Error::InvalidNumberOfValidators))
                } else {
                    self.min_validator_count = value;
                    Ok(())
                }
            },
        }
    }

    /// Raises or lowers the maximum validator count. Only the administrative
    /// origin may call; any value below the standing minimum is refused with
    /// `InvalidNumberOfValidators`. On refusal neither bound changes.
    pub fn set_maximum_validator_count(&mut self, origin: Origin, value: u32) -> (r: Result<
        (),
        DispatchError,
    >)
        requires
            old(self).wf(),
        ensures
            final(self).wf(),
            r == set_maximum_outcome(origin, value, old(self).min_validator_count),
            r.is_ok() ==> final(self).max_validator_count == value,
            r.is_err() ==> final(self).max_validator_count == old(self).max_validator_count,
            final(self).min_validator_count == old(self).min_validator_count,
            final(self).bonded@ == old(self).bonded@,
            final(self).events@ == old(self).events@,
    {
        match origin {
            Origin::Signed(_) => Err(DispatchError::BadOrigin),
            Origin::Root => {
                if value < self.min_validator_count {
                    Err(DispatchError::Module(Error::InvalidNumberOfValidators))
                } else {
                    self.max_validator_count = value;
                    Ok(())
                }
            },
        }
    }

    /// The delegated-voting entry point. It stands in the interface, checks
    /// the origin, and records nothing: the vote's weight in selection is a
    /// reserved extension point with no defined semantics, so no state is
    /// kept for it.
    #[allow(unused_variables)]
    pub fn vote(&mut self, origin: Origin, target: u64) -> (r: Result<(), DispatchError>)
        requires
            old(self).wf(),
        ensures
            final(self).wf(),
            *final(self) == *old(self),
            r == vote_outcome(origin),
    {
        match origin {
            Origin::Root => Err(DispatchError::BadOrigin),
            Origin::Signed(_) => Ok(()),
        }
    }

    /// A one-shot snapshot of the ledger as `(stash, amount)` pairs, in the
    /// ledger's insertion order; the selector reads it.
    pub fn bonds_snapshot(&self) -> (r: Vec<BondEntry>)
        ensures
            r@ == self.bonded@,
    {
        let mut snapshot: Vec<BondEntry> = Vec::new();
        proof {
            assert(self.bonded@.take(0) =~= Seq::<BondEntry>::empty());
        }
        let mut i: usize = 0;
        while i < self.bonded.len()
            invariant
                i <= self.bonded@.len(),
                snapshot@ == self.bonded@.take(i as int),
            decreases self.bonded@.len() - i,
        {
            let e = self.bonded[i];
            proof {
                assert(self.bonded@.take(i as int + 1) =~= self.bonded@.take(i as int).push(
                    self.bonded@[i as int],
                ));
            }
            snapshot.push(e);
            i += 1;
        }
        proof {
            assert(self.bonded@.take(self.bonded@.len() as int) =~= self.bonded@);
        }
        snapshot
    }

    /// Plans the validator set for session `new_index`: ranks the current
    /// snapshot by descending stake and keeps at most the configured
    /// maximum; declines whenever fewer accounts are bonded than the
    /// configured minimum — in particular over an empty ledger.
    #[allow(unused_variables)]
    pub fn new_session(&self, new_index: u32) -> (r: Option<Vec<u64>>)
        requires
            self.wf(),
        ensures
            match r {
                None => self.bonded@.len() < self.min_validator_count as int,
                Some(w) => self.bonded@.len() >= self.min_validator_count as int && w@
                    == ranked_selection(self.bonded@, self.max_validator_count as int),
            },
            self.bonded@.len() == 0 ==> r is None,
            r matches Some(w) ==> w@.len() <= self.max_validator_count as int,
    {
        proof {
            lemma_selection_bounded_and_ranked(self.bonded@, self.max_validator_count as int);
        }
        let snapshot = self.bonds_snapshot();
        select_validators(&snapshot, self.min_validator_count, self.max_validator_count)
    }

    /// Planning ahead of any session — the genesis round — is unsupported
    /// and always declines, whatever the ledger holds; reserved for future
    /// use.
    #[allow(unused_variables)]
    pub fn new_session_genesis(&self, new_index: u32) -> (r: Option<Vec<u64>>)
        ensures
            r is None,
    {
        None
    }

    /// Observational notification that session `start_index` begins; it
    /// never fails and changes nothing.
    #[allow(unused_variables)]
    pub fn start_session(&self, start_index: u32) {
    }

    /// Observational notification that session `end_index` ended; it never
    /// fails and changes nothing.
    #[allow(unused_variables)]
    pub fn end_session(&self, end_index: u32) {
    }

    /// The amount bonded for `stash`, when an entry stands.
    pub fn bonded(&self, stash: u64) -> (r: Option<u128>)
        ensures
            match r {
                Some(amount) => contains_key(self.bonded@, stash) && amount == key_amount(
                    self.bonded@,
                    stash,
                ),
                None => !contains_key(self.bonded@, stash),
            },
    {
        let found = find_key(&self.bonded, stash);
        match found {
            None => None,
            Some(i) => {
                proof {
                    lemma_key_amount_at(self.bonded@, stash, i as int);
                }
                Some(self.bonded[i].1)
            },
        }
    }

    /// Fewest bonded accounts a selection proceeds with.
    pub fn minimum_validator_count(&self) -> (r: u32)
        ensures
            r == self.min_validator_count,
    {
        self.min_validator_count
    }

    /// Most accounts a selection returns.
    pub fn maximum_validator_count(&self) -> (r: u32)
        ensures
            r == self.max_validator_count,
    {
        self.max_validator_count
    }

    /// The outbound event log, oldest first.
    pub fn events(&self) -> (r: &Vec<Event>)
        ensures
            r@ == self.events@,
    {
        &self.events
    }
}

/// After a successful bond records `(stash, amount)` in a well-formed ledger
/// that held no entry for the stash, the ledger holds exactly one entry for
/// it, and every further bond the stash signs — whatever amount, threshold
/// or host answer — is refused with `AlreadyBonded` until an unbond removes
/// the entry.
pub proof fn lemma_bond_excludes_rebond(entries: Seq<BondEntry>, stash: u64, amount: u128)
    requires
        unique_keys(entries),
        !contains_key(entries, stash),
    ensures
        unique_keys(entries.push((stash, amount))),
        count_key(entries.push((stash, amount)), stash) == 1,
        forall|value: u128, minimum_balance: u128, consumer_ok: bool|
            bond_outcome(
                entries.push((stash, amount)),
                Origin::Signed(stash),
                value,
                minimum_balance,
                consumer_ok,
            ) == Err::<(), DispatchError>(DispatchError::Module(Error::AlreadyBonded)),
{
    lemma_count_key_zero(entries, stash);
    lemma_count_key_push(entries, stash, amount);
    lemma_unique_keys_push(entries, stash, amount);
}

/// Unbonding a freshly bonded stash restores the ledger exactly as it stood,
/// so a fresh bond of any amount at or above the threshold succeeds again at
/// once.
pub proof fn lemma_unbond_reverses_bond(entries: Seq<BondEntry>, stash: u64, amount: u128)
    requires
        !contains_key(entries, stash),
    ensures
        remove_key(entries.push((stash, amount)), stash) == entries,
        forall|value: u128, minimum_balance: u128|
            value >= minimum_balance ==> bond_outcome(
                entries,
                Origin::Signed(stash),
                value,
                minimum_balance,
                true,
            ) == Ok::<(), DispatchError>(()),
{
    lemma_remove_key_push(entries, stash, amount);
}

/// With unique keys, any stash the ledger contains has exactly one entry:
/// a successful bond is the only way an entry appears, and it appears once.
pub proof fn lemma_bonded_stash_has_one_entry(entries: Seq<BondEntry>, stash: u64)
    requires
        unique_keys(entries),
        contains_key(entries, stash),
    ensures
        count_key(entries, stash) == 1,
{
    lemma_unique_count_one(entries, stash);
}

} // verus!
