//! The bonding ledger's model: a finite sequence of `(stash, amount)` entries
//! in insertion order, with at most one entry per stash account.

use vstd::prelude::*;

verus! {

/// One ledger entry: the stash account and the amount locked for it.
pub type BondEntry = (u64, u128);

/// No stash account owns more than one entry.
pub open spec fn unique_keys(s: Seq<BondEntry>) -> bool {
    forall|i: int, j: int| 0 <= i < j < s.len() ==> s[i].0 != s[j].0
}

/// The ledger holds an entry for `stash`.
pub open spec fn contains_key(s: Seq<BondEntry>, stash: u64) -> bool {
    exists|i: int| 0 <= i < s.len() && s[i].0 == stash
}

/// How many entries the ledger holds for `stash`.
pub open spec fn count_key(s: Seq<BondEntry>, stash: u64) -> nat
    decreases s.len(),
{
    if s.len() == 0 {
        0
    } else {
        (if s[0].0 == stash {
            1nat
        } else {
            0nat
        }) + count_key(s.drop_first(), stash)
    }
}

/// The amount locked for `stash`; meaningful only when the ledger contains it.
pub open spec fn key_amount(s: Seq<BondEntry>, stash: u64) -> u128
    decreases s.len(),
{
    if s.len() == 0 {
        0
    } else if s[0].0 == stash {
        s[0].1
    } else {
        key_amount(s.drop_first(), stash)
    }
}

/// The ledger with its first entry for `stash` removed; unchanged when absent.
pub open spec fn remove_key(s: Seq<BondEntry>, stash: u64) -> Seq<BondEntry>
    decreases s.len(),
{
    if s.len() == 0 {
        s
    } else if s[0].0 == stash {
        s.drop_first()
    } else {
        seq![s[0]] + remove_key(s.drop_first(), stash)
    }
}

proof fn lemma_contains_drop_first(s: Seq<BondEntry>, stash: u64)
    requires
        s.len() > 0,
    ensures
        contains_key(s, stash) <==> (s[0].0 == stash || contains_key(s.drop_first(), stash)),
{
    if contains_key(s, stash) {
        let i = choose|i: int| 0 <= i < s.len() && s[i].0 == stash;
        if i > 0 {
            assert(s.drop_first()[i - 1].0 == stash);
        }
    }
    if contains_key(s.drop_first(), stash) {
        let i = choose|i: int| 0 <= i < s.drop_first().len() && s.drop_first()[i].0 == stash;
        assert(s[i + 1].0 == stash);
    }
}

proof fn lemma_push_drop_first(s: Seq<BondEntry>, e: BondEntry)
    requires
        s.len() > 0,
    ensures
        s.push(e).drop_first() == s.drop_first().push(e),
{
    assert(s.push(e).drop_first() =~= s.drop_first().push(e));
}

/// A stash the ledger does not contain has no entries at all.
pub proof fn lemma_count_key_zero(s: Seq<BondEntry>, stash: u64)
    requires
        !contains_key(s, stash),
    ensures
        count_key(s, stash) == 0,
    decreases s.len(),
{
    if s.len() > 0 {
        lemma_contains_drop_first(s, stash);
        lemma_count_key_zero(s.drop_first(), stash);
    }
}

/// Pushing an entry for `stash` adds exactly one entry for it.
pub proof fn lemma_count_key_push(s: Seq<BondEntry>, stash: u64, amount: u128)
    ensures
        count_key(s.push((stash, amount)), stash) == count_key(s, stash) + 1,
    decreases s.len(),
{
    let t = s.push((stash, amount));
    assert(count_key(t, stash) == (if t[0].0 == stash {
        1nat
    } else {
        0nat
    }) + count_key(t.drop_first(), stash));
    if s.len() == 0 {
        assert(t[0] == (stash, amount));
        assert(t.drop_first() =~= Seq::<BondEntry>::empty());
        assert(count_key(t.drop_first(), stash) == 0);
    } else {
        assert(t[0] == s[0]);
        lemma_push_drop_first(s, (stash, amount));
        lemma_count_key_push(s.drop_first(), stash, amount);
        assert(count_key(s, stash) == (if s[0].0 == stash {
            1nat
        } else {
            0nat
        }) + count_key(s.drop_first(), stash));
    }
}

/// Recording a fresh stash keeps the keys unique, and the ledger then
/// contains the stash.
pub proof fn lemma_unique_keys_push(s: Seq<BondEntry>, stash: u64, amount: u128)
    requires
        unique_keys(s),
        !contains_key(s, stash),
    ensures
        unique_keys(s.push((stash, amount))),
        contains_key(s.push((stash, amount)), stash),
{
    let t = s.push((stash, amount));
    assert forall|i: int, j: int| 0 <= i < j < t.len() implies t[i].0 != t[j].0 by {
        if j == s.len() {
            assert(t[i] == s[i]);
            if s[i].0 == stash {
                assert(contains_key(s, stash));
            }
        } else {
            assert(t[i] == s[i] && t[j] == s[j]);
        }
    }
    assert(t[s.len() as int].0 == stash);
}

/// Removing the entry found at the first index for `stash` is exactly what
/// `remove_key` describes.
pub proof fn lemma_remove_key_at(s: Seq<BondEntry>, stash: u64, i: int)
    requires
        0 <= i < s.len(),
        s[i].0 == stash,
        forall|k: int| 0 <= k < i ==> s[k].0 != stash,
    ensures
        remove_key(s, stash) == s.remove(i),
    decreases s.len(),
{
    if i == 0 {
        assert(s.drop_first() =~= s.remove(0));
    } else {
        assert forall|k: int| 0 <= k < i - 1 implies s.drop_first()[k].0 != stash by {
            assert(s.drop_first()[k] == s[k + 1]);
        }
        assert(s.drop_first()[i - 1].0 == stash);
        lemma_remove_key_at(s.drop_first(), stash, i - 1);
        assert(seq![s[0]] + s.drop_first().remove(i - 1) =~= s.remove(i));
    }
}

/// The amount recorded for `stash` is the one at its entry's index.
pub proof fn lemma_key_amount_at(s: Seq<BondEntry>, stash: u64, i: int)
    requires
        0 <= i < s.len(),
        s[i].0 == stash,
        forall|k: int| 0 <= k < i ==> s[k].0 != stash,
    ensures
        key_amount(s, stash) == s[i].1,
    decreases s.len(),
{
    if i > 0 {
        assert forall|k: int| 0 <= k < i - 1 implies s.drop_first()[k].0 != stash by {
            assert(s.drop_first()[k] == s[k + 1]);
        }
        assert(s.drop_first()[i - 1].0 == stash);
        lemma_key_amount_at(s.drop_first(), stash, i - 1);
    }
}

/// Removing an entry keeps the remaining keys unique.
pub proof fn lemma_unique_keys_remove(s: Seq<BondEntry>, i: int)
    requires
        unique_keys(s),
        0 <= i < s.len(),
    ensures
        unique_keys(s.remove(i)),
{
    let t = s.remove(i);
    assert forall|p: int, q: int| 0 <= p < q < t.len() implies t[p].0 != t[q].0 by {
        let p0: int = if p < i { p } else { p + 1 };
        let q0: int = if q < i { q } else { q + 1 };
        assert(t[p] == s[p0] && t[q] == s[q0]);
    }
}

/// With unique keys, removing the entry for `stash` leaves no entry for it.
pub proof fn lemma_remove_key_absent(s: Seq<BondEntry>, stash: u64, i: int)
    requires
        unique_keys(s),
        0 <= i < s.len(),
        s[i].0 == stash,
    ensures
        !contains_key(s.remove(i), stash),
{
    let t = s.remove(i);
    if contains_key(t, stash) {
        let j = choose|j: int| 0 <= j < t.len() && t[j].0 == stash;
        let j0: int = if j < i { j } else { j + 1 };
        assert(t[j] == s[j0]);
        assert(s[j0].0 == s[i].0);
        assert(false);
    }
}

/// Removing a freshly recorded entry restores the ledger exactly: an unbond
/// undoes the bond that preceded it.
pub proof fn lemma_remove_key_push(s: Seq<BondEntry>, stash: u64, amount: u128)
    requires
        !contains_key(s, stash),
    ensures
        remove_key(s.push((stash, amount)), stash) == s,
    decreases s.len(),
{
    let t = s.push((stash, amount));
    if s.len() == 0 {
        assert(t[0] == (stash, amount));
        assert(t.drop_first() =~= s);
    } else {
        assert(t[0] == s[0]);
        if s[0].0 == stash {
            assert(contains_key(s, stash));
        }
        lemma_push_drop_first(s, (stash, amount));
        lemma_contains_drop_first(s, stash);
        lemma_remove_key_push(s.drop_first(), stash, amount);
        assert(seq![s[0]] + s.drop_first() =~= s);
    }
}

/// With unique keys, a contained stash has exactly one ledger entry.
pub proof fn lemma_unique_count_one(s: Seq<BondEntry>, stash: u64)
    requires
        unique_keys(s),
        contains_key(s, stash),
    ensures
        count_key(s, stash) == 1,
    decreases s.len(),
{
    lemma_contains_drop_first(s, stash);
    if s[0].0 == stash {
        assert forall|k: int| 0 <= k < s.drop_first().len() implies s.drop_first()[k].0 != stash by {
            assert(s.drop_first()[k] == s[k + 1]);
        }
        if contains_key(s.drop_first(), stash) {
            let j = choose|j: int|
                0 <= j < s.drop_first().len() && s.drop_first()[j].0 == stash;
            assert(false);
        }
        lemma_count_key_zero(s.drop_first(), stash);
    } else {
        assert forall|p: int, q: int|
            0 <= p < q < s.drop_first().len() implies s.drop_first()[p].0
            != s.drop_first()[q].0 by {
            assert(s.drop_first()[p] == s[p + 1] && s.drop_first()[q] == s[q + 1]);
        }
        lemma_unique_count_one(s.drop_first(), stash);
    }
}

/// Finds the index of the entry for `stash`, scanning from the front.
pub fn find_key(entries: &Vec<BondEntry>, stash: u64) -> (r: Option<usize>)
    ensures
        match r {
            Some(i) => i < entries@.len() && entries@[i as int].0 == stash && (forall|k: int|
                0 <= k < i ==> entries@[k].0 != stash),
            None => !contains_key(entries@, stash),
        },
{
    let mut i: usize = 0;
    while i < entries.len()
        invariant
            i <= entries@.len(),
            forall|k: int| 0 <= k < i ==> entries@[k].0 != stash,
        decreases entries@.len() - i,
    {
        if entries[i].0 == stash {
            return Some(i);
        }
        i += 1;
    }
    None
}

} // verus!
