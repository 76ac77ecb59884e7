//! The validator selector: ranks a snapshot of the bonding ledger by stake,
//! highest first, and keeps at most the configured number of accounts.
//!
//! The ranking order is pinned exactly by `sort_desc`: a stable insertion
//! sort, so entries of equal stake keep the snapshot's (insertion) order.

use vstd::prelude::*;

use crate::ledger::{unique_keys, BondEntry};

verus! {

/// Stakes never grow from one entry to the next: highest stake first.
pub open spec fn sorted_desc(s: Seq<BondEntry>) -> bool {
    forall|i: int, j: int| 0 <= i < j < s.len() ==> s[i].1 >= s[j].1
}

/// The position at which a stake of `amount` is slotted in: after every
/// entry holding at least `amount`, before the first holding less.
pub open spec fn desc_pos(s: Seq<BondEntry>, amount: u128) -> int
    decreases s.len(),
{
    if s.len() == 0 {
        0
    } else if s[0].1 >= amount {
        1 + desc_pos(s.drop_first(), amount)
    } else {
        0
    }
}

/// Slots `e` into `s` at its descending-stake position.
pub open spec fn insert_desc(s: Seq<BondEntry>, e: BondEntry) -> Seq<BondEntry> {
    s.insert(desc_pos(s, e.1), e)
}

/// The stable descending-stake sort: each entry, taken in snapshot order, is
/// slotted after every earlier entry of at least its stake.
pub open spec fn sort_desc(s: Seq<BondEntry>) -> Seq<BondEntry>
    decreases s.len(),
{
    if s.len() == 0 {
        s
    } else {
        insert_desc(sort_desc(s.drop_last()), s.last())
    }
}

/// The account identifiers of the entries, in order.
pub open spec fn accounts_of(s: Seq<BondEntry>) -> Seq<u64> {
    Seq::new(s.len(), |i: int| s[i].0)
}

/// The number of accounts a selection retains: the whole snapshot, capped at
/// `maximum_count`.
pub open spec fn capped_len(len: int, maximum_count: int) -> int {
    if len <= maximum_count {
        len
    } else {
        maximum_count
    }
}

/// What one selection round returns when it does not decline: the ranked
/// snapshot, truncated to `maximum_count` entries, projected to accounts.
pub open spec fn ranked_selection(entries: Seq<BondEntry>, maximum_count: int) -> Seq<u64> {
    accounts_of(sort_desc(entries).take(capped_len(entries.len() as int, maximum_count)))
}

proof fn lemma_desc_pos_bounds(s: Seq<BondEntry>, amount: u128)
    ensures
        0 <= desc_pos(s, amount) <= s.len(),
        forall|k: int| 0 <= k < desc_pos(s, amount) ==> s[k].1 >= amount,
        desc_pos(s, amount) < s.len() ==> s[desc_pos(s, amount)].1 < amount,
    decreases s.len(),
{
    if s.len() > 0 && s[0].1 >= amount {
        lemma_desc_pos_bounds(s.drop_first(), amount);
        let p = desc_pos(s, amount);
        assert forall|k: int| 0 <= k < p implies s[k].1 >= amount by {
            if k > 0 {
                assert(s.drop_first()[k - 1] == s[k]);
            }
        }
        if p < s.len() {
            assert(s.drop_first()[p - 1] == s[p]);
        }
    }
}

proof fn lemma_desc_pos_of_scan(s: Seq<BondEntry>, amount: u128, j: int)
    requires
        0 <= j <= s.len(),
        forall|k: int| 0 <= k < j ==> s[k].1 >= amount,
        j < s.len() ==> s[j].1 < amount,
    ensures
        desc_pos(s, amount) == j,
    decreases s.len(),
{
    if s.len() > 0 {
        if s[0].1 >= amount {
            assert(j >= 1);
            assert forall|k: int| 0 <= k < j - 1 implies s.drop_first()[k].1 >= amount by {
                assert(s.drop_first()[k] == s[k + 1]);
            }
            if j - 1 < s.drop_first().len() {
                assert(s.drop_first()[j - 1] == s[j]);
            }
            lemma_desc_pos_of_scan(s.drop_first(), amount, j - 1);
        } else {
            assert(j == 0);
        }
    }
}

proof fn lemma_insert_desc_sorted(s: Seq<BondEntry>, e: BondEntry)
    requires
        sorted_desc(s),
    ensures
        sorted_desc(insert_desc(s, e)),
{
    lemma_desc_pos_bounds(s, e.1);
    let pos = desc_pos(s, e.1);
    let t = s.insert(pos, e);
    s.insert_ensures(pos, e);
    assert forall|i: int, j: int| 0 <= i < j < t.len() implies t[i].1 >= t[j].1 by {
        if i < pos {
            assert(t[i] == s[i]);
        } else if i == pos {
            assert(t[i] == e);
        } else {
            assert(t[i] == s[i - 1]);
        }
        if j < pos {
            assert(t[j] == s[j]);
        } else if j == pos {
            assert(t[j] == e);
        } else {
            assert(t[j] == s[j - 1]);
        }
    }
}

/// The sort neither adds nor loses an entry: its result has the snapshot's
/// length.
pub proof fn lemma_sort_desc_len(s: Seq<BondEntry>)
    ensures
        sort_desc(s).len() == s.len(),
    decreases s.len(),
{
    if s.len() > 0 {
        lemma_sort_desc_len(s.drop_last());
        let t = sort_desc(s.drop_last());
        lemma_desc_pos_bounds(t, s.last().1);
        t.insert_ensures(desc_pos(t, s.last().1), s.last());
    }
}

/// The sort ranks by stake: its result is in descending-stake order.
pub proof fn lemma_sort_desc_sorted(s: Seq<BondEntry>)
    ensures
        sorted_desc(sort_desc(s)),
    decreases s.len(),
{
    if s.len() > 0 {
        lemma_sort_desc_sorted(s.drop_last());
        lemma_insert_desc_sorted(sort_desc(s.drop_last()), s.last());
    }
}

/// The sort is a permutation: the ranked entries are exactly the snapshot's
/// entries, account and stake alike.
pub proof fn lemma_sort_desc_permutes(s: Seq<BondEntry>)
    ensures
        sort_desc(s).to_multiset() == s.to_multiset(),
    decreases s.len(),
{
    broadcast use vstd::seq_lib::group_to_multiset_ensures;

    if s.len() > 0 {
        lemma_sort_desc_permutes(s.drop_last());
        lemma_sort_desc_len(s.drop_last());
        let t = sort_desc(s.drop_last());
        lemma_desc_pos_bounds(t, s.last().1);
        vstd::seq_lib::to_multiset_insert(t, desc_pos(t, s.last().1), s.last());
        assert(s =~= s.drop_last().push(s.last()));
        assert(s.drop_last().push(s.last()).to_multiset() =~= s.drop_last().to_multiset().insert(
            s.last(),
        ));
    }
}

/// Sorting an already ranked snapshot changes nothing; in particular a run of
/// equal stakes keeps its insertion order, which pins the tie-break.
pub proof fn lemma_sort_desc_of_sorted(s: Seq<BondEntry>)
    requires
        sorted_desc(s),
    ensures
        sort_desc(s) == s,
    decreases s.len(),
{
    if s.len() > 0 {
        let d = s.drop_last();
        assert forall|p: int, q: int| 0 <= p < q < d.len() implies d[p].1 >= d[q].1 by {
            assert(d[p] == s[p] && d[q] == s[q]);
        }
        lemma_sort_desc_of_sorted(d);
        assert forall|k: int| 0 <= k < d.len() implies d[k].1 >= s.last().1 by {
            assert(d[k] == s[k]);
            assert(s[k].1 >= s[s.len() - 1].1);
        }
        lemma_desc_pos_of_scan(d, s.last().1, d.len() as int);
        assert(d.insert(d.len() as int, s.last()) =~= s);
    }
}

proof fn lemma_sort_desc_contains(s: Seq<BondEntry>, e: BondEntry)
    requires
        s.contains(e),
    ensures
        sort_desc(s).contains(e),
{
    broadcast use vstd::seq_lib::group_to_multiset_ensures;

    lemma_sort_desc_permutes(s);
    assert(s.to_multiset().count(e) > 0);
    assert(sort_desc(s).to_multiset().count(e) > 0);
}

/// The sort is stable: of two entries holding equal stake, the one bonded
/// earlier keeps the earlier rank. Stated for snapshots with unique keys,
/// where every entry is distinct.
pub proof fn lemma_sort_desc_stable(s: Seq<BondEntry>, i: int, j: int)
    requires
        unique_keys(s),
        0 <= i < j < s.len(),
        s[i].1 == s[j].1,
    ensures
        exists|p: int, q: int|
            0 <= p < q < sort_desc(s).len() && sort_desc(s)[p] == s[i] && sort_desc(s)[q] == s[j],
    decreases s.len(),
{
    lemma_sort_desc_len(s);
    let d = s.drop_last();
    let t = sort_desc(d);
    let last = s.last();
    let pos = desc_pos(t, last.1);
    lemma_sort_desc_len(d);
    lemma_sort_desc_sorted(d);
    lemma_desc_pos_bounds(t, last.1);
    t.insert_ensures(pos, last);
    assert(sort_desc(s) == t.insert(pos, last));
    if j == s.len() - 1 {
        assert(d[i] == s[i]);
        assert(d.contains(s[i]));
        lemma_sort_desc_contains(d, s[i]);
        let p = choose|p: int| 0 <= p < t.len() && t[p] == s[i];
        if p >= pos {
            assert(t[pos].1 < last.1);
            assert(t[pos].1 >= t[p].1);
            assert(false);
        }
        assert(sort_desc(s)[p] == t[p]);
        assert(sort_desc(s)[pos] == last);
        assert(0 <= p < pos < sort_desc(s).len() && sort_desc(s)[p] == s[i] && sort_desc(s)[pos]
            == s[j]);
    } else {
        assert forall|p: int, q: int| 0 <= p < q < d.len() implies d[p].0 != d[q].0 by {
            assert(d[p] == s[p] && d[q] == s[q]);
        }
        assert(d[i] == s[i] && d[j] == s[j]);
        lemma_sort_desc_stable(d, i, j);
        let (p, q) = choose|p: int, q: int|
            0 <= p < q < t.len() && t[p] == s[i] && t[q] == s[j];
        let p2: int = if p < pos {
            p
        } else {
            p + 1
        };
        let q2: int = if q < pos {
            q
        } else {
            q + 1
        };
        if p >= pos {
            assert(sort_desc(s)[p + 1] == t[p]);
        }
        if q >= pos {
            assert(sort_desc(s)[q + 1] == t[q]);
        }
        assert(0 <= p2 < q2 < sort_desc(s).len() && sort_desc(s)[p2] == s[i] && sort_desc(s)[q2]
            == s[j]);
    }
}

/// A selection never lists more than `maximum_count` accounts; it lists them
/// ranked, the account of each selected entry in descending-stake order.
pub proof fn lemma_selection_bounded_and_ranked(entries: Seq<BondEntry>, maximum_count: int)
    requires
        0 <= maximum_count,
    ensures
        ranked_selection(entries, maximum_count).len() == capped_len(
            entries.len() as int,
            maximum_count,
        ),
        ranked_selection(entries, maximum_count).len() <= maximum_count,
        forall|i: int|
            0 <= i < ranked_selection(entries, maximum_count).len()
                ==> ranked_selection(entries, maximum_count)[i] == sort_desc(entries)[i].0,
        forall|i: int, j: int|
            0 <= i < j < ranked_selection(entries, maximum_count).len() ==> sort_desc(entries)[i].1
                >= sort_desc(entries)[j].1,
{
    lemma_sort_desc_len(entries);
    lemma_sort_desc_sorted(entries);
}

/// Stable insertion sort by stake, highest first: each entry is placed after
/// every entry already holding at least its stake, so equal stakes keep the
/// snapshot's order.
pub fn sort_by_stake_desc(entries: &Vec<BondEntry>) -> (r: Vec<BondEntry>)
    ensures
        r@ == sort_desc(entries@),
{
    let mut r: Vec<BondEntry> = Vec::new();
    proof {
        assert(entries@.take(0) =~= Seq::<BondEntry>::empty());
    }
    let mut i: usize = 0;
    while i < entries.len()
        invariant
            i <= entries@.len(),
            r@ == sort_desc(entries@.take(i as int)),
        decreases entries@.len() - i,
    {
        let e = entries[i];
        let mut j: usize = 0;
        while j < r.len() && r[j].1 >= e.1
            invariant
                j <= r@.len(),
                forall|k: int| 0 <= k < j ==> r@[k].1 >= e.1,
            decreases r@.len() - j,
        {
            j += 1;
        }
        proof {
            lemma_desc_pos_of_scan(r@, e.1, j as int);
            assert(entries@.take(i as int + 1).drop_last() =~= entries@.take(i as int));
            assert(entries@.take(i as int + 1).last() == entries@[i as int]);
        }
        r.insert(j, e);
        i += 1;
    }
    proof {
        assert(entries@.take(entries@.len() as int) =~= entries@);
    }
    r
}

/// One selection round over a ledger snapshot: declines when fewer accounts
/// are bonded than `minimum_count`; otherwise returns at most `maximum_count`
/// accounts ranked by descending stake.
pub fn select_validators(entries: &Vec<BondEntry>, minimum_count: u32, maximum_count: u32) -> (r:
    Option<Vec<u64>>)
    ensures
        match r {
            None => entries@.len() < minimum_count as int,
            Some(w) => entries@.len() >= minimum_count as int && w@ == ranked_selection(
                entries@,
                maximum_count as int,
            ),
        },
{
    if entries.len() < minimum_count as usize {
        return None;
    }
    let sorted = sort_by_stake_desc(entries);
    proof {
        lemma_sort_desc_len(entries@);
    }
    let mut winners: Vec<u64> = Vec::new();
    proof {
        assert(accounts_of(sorted@.take(0)) =~= winners@);
    }
    let mut i: usize = 0;
    while i < sorted.len() && i < maximum_count as usize
        invariant
            sorted@ == sort_desc(entries@),
            sorted@.len() == entries@.len(),
            i <= sorted@.len(),
            i <= maximum_count as int,
            winners@ == accounts_of(sorted@.take(i as int)),
        decreases sorted@.len() - i,
    {
        proof {
            assert(accounts_of(sorted@.take(i as int + 1)) =~= accounts_of(
                sorted@.take(i as int),
            ).push(sorted@[i as int].0));
        }
        let account = sorted[i].0;
        winners.push(account);
        i += 1;
    }
    proof {
        assert(i as int == capped_len(entries@.len() as int, maximum_count as int));
    }
    Some(winners)
}

} // verus!
