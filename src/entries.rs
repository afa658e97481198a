//! Association lists from keys to token amounts, the storage behind the
//! ledger's balances and allowances. A key that has no entry holds zero.
use vstd::prelude::*;

verus! {

/// No key appears in two entries.
pub open spec fn keys_unique<K>(s: Seq<(K, u128)>) -> bool {
    forall|i: int, j: int|
        0 <= i < s.len() && 0 <= j < s.len() && i != j ==> #[trigger] s[i].0 != #[trigger] s[j].0
}

/// Some entry has key `k`.
pub open spec fn has_key<K>(s: Seq<(K, u128)>, k: K) -> bool {
    exists|i: int| 0 <= i < s.len() && #[trigger] s[i].0 == k
}

/// The amount stored under `k`, or zero where there is no entry.
pub open spec fn amount_of<K>(s: Seq<(K, u128)>, k: K) -> nat {
    if has_key(s, k) {
        s[choose|i: int| 0 <= i < s.len() && #[trigger] s[i].0 == k].1 as nat
    } else {
        0
    }
}

/// The keys of the entries, in order.
pub open spec fn keys<K>(s: Seq<(K, u128)>) -> Seq<K> {
    s.map_values(|e: (K, u128)| e.0)
}

/// The sum of all stored amounts.
pub open spec fn sum_amounts<K>(s: Seq<(K, u128)>) -> int
    decreases s.len(),
{
    if s.len() == 0 {
        0
    } else {
        sum_amounts(s.drop_last()) + s.last().1
    }
}

/// The entry at `i` gives the amount stored under its key.
pub proof fn lemma_amount_at<K>(s: Seq<(K, u128)>, i: int)
    requires
        keys_unique(s),
        0 <= i < s.len(),
    ensures
        has_key(s, s[i].0),
        amount_of(s, s[i].0) == s[i].1,
{
    let k = s[i].0;
    assert(s[i].0 == k);
    let j = choose|j: int| 0 <= j < s.len() && #[trigger] s[j].0 == k;
    assert(j == i);
}

/// Overwriting the amount of one entry keeps the keys and changes the amount
/// of that key alone.
pub proof fn lemma_update<K>(s: Seq<(K, u128)>, i: int, v: u128)
    requires
        keys_unique(s),
        0 <= i < s.len(),
    ensures
        keys_unique(s.update(i, (s[i].0, v))),
        keys(s.update(i, (s[i].0, v))) == keys(s),
        forall|k: K| has_key(s.update(i, (s[i].0, v)), k) == has_key(s, k),
        forall|k: K|
            #[trigger] amount_of(s.update(i, (s[i].0, v)), k) == if k == s[i].0 {
                v as nat
            } else {
                amount_of(s, k)
            },
        sum_amounts(s.update(i, (s[i].0, v))) == sum_amounts(s) - s[i].1 + v,
{
    let t = s.update(i, (s[i].0, v));
    assert(keys(t) =~= keys(s));
    assert forall|k: K| has_key(t, k) == has_key(s, k) by {
        if has_key(s, k) {
            let j = choose|j: int| 0 <= j < s.len() && #[trigger] s[j].0 == k;
            assert(t[j].0 == k);
        }
        if has_key(t, k) {
            let j = choose|j: int| 0 <= j < t.len() && #[trigger] t[j].0 == k;
            assert(s[j].0 == k);
        }
    }
    assert forall|k: K|
        #[trigger] amount_of(t, k) == if k == s[i].0 {
            v as nat
        } else {
            amount_of(s, k)
        } by {
        if k == s[i].0 {
            lemma_amount_at(t, i);
        } else if has_key(s, k) {
            let j = choose|j: int| 0 <= j < s.len() && #[trigger] s[j].0 == k;
            lemma_amount_at(s, j);
            lemma_amount_at(t, j);
        }
    }
    lemma_sum_update(s, i, v);
}

proof fn lemma_sum_update<K>(s: Seq<(K, u128)>, i: int, v: u128)
    requires
        0 <= i < s.len(),
    ensures
        sum_amounts(s.update(i, (s[i].0, v))) == sum_amounts(s) - s[i].1 + v,
    decreases s.len(),
{
    let t = s.update(i, (s[i].0, v));
    if i == s.len() - 1 {
        assert(t.drop_last() =~= s.drop_last());
    } else {
        assert(t.drop_last() =~= s.drop_last().update(i, (s[i].0, v)));
        lemma_sum_update(s.drop_last(), i, v);
    }
}

/// Appending an entry for a new key stores its amount and leaves every other
/// key as it was.
pub proof fn lemma_push<K>(s: Seq<(K, u128)>, k: K, v: u128)
    requires
        keys_unique(s),
        !has_key(s, k),
    ensures
        keys_unique(s.push((k, v))),
        keys(s.push((k, v))) == keys(s).push(k),
        forall|x: K| has_key(s.push((k, v)), x) == (has_key(s, x) || x == k),
        forall|x: K|
            #[trigger] amount_of(s.push((k, v)), x) == if x == k {
                v as nat
            } else {
                amount_of(s, x)
            },
        sum_amounts(s.push((k, v))) == sum_amounts(s) + v,
{
    let t = s.push((k, v));
    assert(t.drop_last() =~= s);
    assert(keys(t) =~= keys(s).push(k));
    assert forall|i: int, j: int|
        0 <= i < t.len() && 0 <= j < t.len() && i != j implies #[trigger] t[i].0
        != #[trigger] t[j].0 by {
        if i < s.len() && j < s.len() {
            assert(s[i].0 != s[j].0);
        } else if i < s.len() {
            assert(s[i].0 == t[i].0);
        } else {
            assert(s[j].0 == t[j].0);
        }
    }
    assert forall|x: K| has_key(t, x) == (has_key(s, x) || x == k) by {
        if has_key(s, x) {
            let j = choose|j: int| 0 <= j < s.len() && #[trigger] s[j].0 == x;
            assert(t[j].0 == x);
        }
        if x == k {
            assert(t[s.len() as int].0 == k);
        }
        if has_key(t, x) && x != k {
            let j = choose|j: int| 0 <= j < t.len() && #[trigger] t[j].0 == x;
            assert(s[j].0 == x);
        }
    }
    assert forall|x: K|
        #[trigger] amount_of(t, x) == if x == k {
            v as nat
        } else {
            amount_of(s, x)
        } by {
        if x == k {
            lemma_amount_at(t, s.len() as int);
        } else if has_key(s, x) {
            let j = choose|j: int| 0 <= j < s.len() && #[trigger] s[j].0 == x;
            lemma_amount_at(s, j);
            lemma_amount_at(t, j);
        }
    }
}

/// No single entry holds more than the sum of all of them.
pub proof fn lemma_entry_le_sum<K>(s: Seq<(K, u128)>, i: int)
    requires
        0 <= i < s.len(),
    ensures
        s[i].1 <= sum_amounts(s),
    decreases s.len(),
{
    lemma_sum_nonneg(s.drop_last());
    if i < s.len() - 1 {
        lemma_entry_le_sum(s.drop_last(), i);
    }
}

/// A sum of amounts is never negative.
pub proof fn lemma_sum_nonneg<K>(s: Seq<(K, u128)>)
    ensures
        sum_amounts(s) >= 0,
    decreases s.len(),
{
    if s.len() > 0 {
        lemma_sum_nonneg(s.drop_last());
    }
}

/// The sum of the amounts stored under each key of `ks`, a key counted as
/// often as it occurs.
pub open spec fn sum_at<K>(s: Seq<(K, u128)>, ks: Seq<K>) -> int
    decreases ks.len(),
{
    if ks.len() == 0 {
        0
    } else {
        sum_at(s, ks.drop_last()) + amount_of(s, ks.last())
    }
}

proof fn lemma_sum_at_agree<K>(s: Seq<(K, u128)>, t: Seq<(K, u128)>, ks: Seq<K>)
    requires
        forall|i: int| 0 <= i < ks.len() ==> amount_of(s, #[trigger] ks[i]) == amount_of(t, ks[i]),
    ensures
        sum_at(s, ks) == sum_at(t, ks),
    decreases ks.len(),
{
    if ks.len() > 0 {
        let p = ks.drop_last();
        assert forall|i: int| 0 <= i < p.len() implies amount_of(s, #[trigger] p[i]) == amount_of(t, p[i]) by {
            assert(p[i] == ks[i]);
        }
        lemma_sum_at_agree(s, t, p);
        assert(amount_of(s, ks[ks.len() - 1]) == amount_of(t, ks[ks.len() - 1]));
    }
}

/// With unique keys, the keys list each key once, a key outside them holds
/// zero, and summing the amount of each key gives the sum of all entries.
pub proof fn lemma_sum_over_keys<K>(s: Seq<(K, u128)>)
    requires
        keys_unique(s),
    ensures
        keys(s).no_duplicates(),
        forall|k: K| !keys(s).contains(k) ==> amount_of(s, k) == 0,
        sum_at(s, keys(s)) == sum_amounts(s),
    decreases s.len(),
{
    assert forall|i: int, j: int| 0 <= i < keys(s).len() && 0 <= j < keys(s).len() && i != j implies keys(s)[i]
        != keys(s)[j] by {
        assert(s[i].0 != s[j].0);
    }
    assert forall|k: K| !keys(s).contains(k) implies amount_of(s, k) == 0 by {
        if has_key(s, k) {
            let i = choose|i: int| 0 <= i < s.len() && #[trigger] s[i].0 == k;
            assert(keys(s)[i] == k);
        }
    }
    if s.len() > 0 {
        let p = s.drop_last();
        let e = s.last();
        assert forall|i: int, j: int|
            0 <= i < p.len() && 0 <= j < p.len() && i != j implies #[trigger] p[i].0 != #[trigger] p[j].0 by {
            assert(s[i].0 != s[j].0);
        }
        assert(!has_key(p, e.0)) by {
            if has_key(p, e.0) {
                let i = choose|i: int| 0 <= i < p.len() && #[trigger] p[i].0 == e.0;
                assert(s[i].0 != s[s.len() - 1].0);
            }
        }
        assert(p.push(e) =~= s);
        lemma_push(p, e.0, e.1);
        lemma_sum_over_keys(p);
        assert(keys(s).drop_last() =~= keys(p));
        assert forall|i: int| 0 <= i < keys(p).len() implies amount_of(s, #[trigger] keys(p)[i]) == amount_of(
            p,
            keys(p)[i],
        ) by {
            assert(p[i].0 != e.0);
        }
        lemma_sum_at_agree(s, p, keys(p));
    }
}

} // verus!
