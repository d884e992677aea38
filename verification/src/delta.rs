//! The delta computer: given the previous and the current player list, the
//! players whose identity key appears in either list, each represented by its
//! most current form, with the current list taking precedence.

use vstd::prelude::*;

use crate::model::{player_key, Player};

verus! {

/// True when some element of `s` has identity key `k`.
pub open spec fn key_in(s: Seq<Player>, k: Option<u16>) -> bool {
    exists|i: int| 0 <= i < s.len() && player_key(s[i]) == k
}

/// Keeps the first occurrence of each identity key, in order of first
/// appearance.
pub open spec fn dedup_by_key(s: Seq<Player>) -> Seq<Player>
    decreases s.len(),
{
    if s.len() == 0 {
        Seq::empty()
    } else {
        let init = dedup_by_key(s.drop_last());
        if key_in(s.drop_last(), player_key(s.last())) {
            init
        } else {
            init.push(s.last())
        }
    }
}

proof fn lemma_key_in_snoc(s: Seq<Player>, k: Option<u16>)
    requires
        s.len() > 0,
    ensures
        key_in(s, k) == (key_in(s.drop_last(), k) || player_key(s.last()) == k),
{
    if key_in(s, k) {
        let i = choose|i: int| 0 <= i < s.len() && player_key(s[i]) == k;
        if i < s.len() - 1 {
            assert(s.drop_last()[i] == s[i]);
        }
    }
    if key_in(s.drop_last(), k) {
        let i = choose|i: int| 0 <= i < s.drop_last().len() && player_key(s.drop_last()[i]) == k;
        assert(s[i] == s.drop_last()[i]);
    }
    if player_key(s.last()) == k {
        assert(player_key(s[s.len() - 1]) == k);
    }
}

/// A sequence and its key-deduplication hold exactly the same identity keys.
pub proof fn lemma_dedup_same_keys(s: Seq<Player>)
    ensures
        forall|k: Option<u16>| key_in(dedup_by_key(s), k) == key_in(s, k),
    decreases s.len(),
{
    if s.len() > 0 {
        lemma_dedup_same_keys(s.drop_last());
        assert forall|k: Option<u16>| key_in(dedup_by_key(s), k) == key_in(s, k) by {
            lemma_key_in_snoc(s, k);
            let init = dedup_by_key(s.drop_last());
            if !key_in(s.drop_last(), player_key(s.last())) {
                lemma_key_in_snoc(init.push(s.last()), k);
                assert(init.push(s.last()).drop_last() =~= init);
            }
        }
    }
}

/// No two elements of a key-deduplication share an identity key.
pub proof fn lemma_dedup_unique_keys(s: Seq<Player>)
    ensures
        forall|i: int, j: int|
            0 <= i < j < dedup_by_key(s).len() ==> player_key(dedup_by_key(s)[i]) != player_key(
                dedup_by_key(s)[j],
            ),
    decreases s.len(),
{
    if s.len() > 0 {
        lemma_dedup_unique_keys(s.drop_last());
        lemma_dedup_same_keys(s.drop_last());
        let init = dedup_by_key(s.drop_last());
        if !key_in(s.drop_last(), player_key(s.last())) {
            assert forall|i: int, j: int|
                0 <= i < j < dedup_by_key(s).len() implies player_key(dedup_by_key(s)[i])
                != player_key(dedup_by_key(s)[j]) by {
                if j == dedup_by_key(s).len() - 1 {
                    assert(key_in(init, player_key(init[i])));
                }
            }
        }
    }
}

proof fn lemma_key_in_concat(a: Seq<Player>, b: Seq<Player>, k: Option<u16>)
    ensures
        key_in(a + b, k) == (key_in(a, k) || key_in(b, k)),
{
    if key_in(a + b, k) {
        let i = choose|i: int| 0 <= i < (a + b).len() && player_key((a + b)[i]) == k;
        if i < a.len() {
            assert(a[i] == (a + b)[i]);
        } else {
            assert(b[i - a.len()] == (a + b)[i]);
        }
    }
    if key_in(a, k) {
        let i = choose|i: int| 0 <= i < a.len() && player_key(a[i]) == k;
        assert((a + b)[i] == a[i]);
    }
    if key_in(b, k) {
        let i = choose|i: int| 0 <= i < b.len() && player_key(b[i]) == k;
        assert((a + b)[a.len() + i] == b[i]);
    }
}

/// Delta completeness: the delta of a `(prev, next)` player-list pair holds
/// every identity key present in `next` and every identity key present in
/// `prev` (in particular those absent from `next`), no other key, and no key
/// twice.
pub proof fn lemma_delta_completeness(prev: Seq<Player>, next: Seq<Player>)
    ensures
        forall|k: Option<u16>|
            key_in(dedup_by_key(next + prev), k) == (key_in(next, k) || key_in(prev, k)),
        forall|i: int, j: int|
            0 <= i < j < dedup_by_key(next + prev).len() ==> player_key(
                dedup_by_key(next + prev)[i],
            ) != player_key(dedup_by_key(next + prev)[j]),
{
    lemma_dedup_same_keys(next + prev);
    lemma_dedup_unique_keys(next + prev);
    assert forall|k: Option<u16>|
        key_in(dedup_by_key(next + prev), k) == (key_in(next, k) || key_in(prev, k)) by {
        lemma_key_in_concat(next, prev, k);
    }
}

/// Whether two identity keys are the same key.
pub fn same_key(a: Option<u16>, b: Option<u16>) -> (r: bool)
    ensures
        r == (a == b),
{
    match (a, b) {
        (None, None) => true,
        (Some(x), Some(y)) => x == y,
        _ => false,
    }
}

/// Whether some player in `v` has identity key `k`.
pub fn contains_key(v: &Vec<Player>, k: Option<u16>) -> (r: bool)
    ensures
        r == key_in(v@, k),
{
    let mut i: usize = 0;
    while i < v.len()
        invariant
            i <= v@.len(),
            forall|j: int| 0 <= j < i ==> player_key(v@[j]) != k,
        decreases v@.len() - i,
    {
        if same_key(v[i].user_id, k) {
            assert(player_key(v@[i as int]) == k);
            return true;
        }
        i += 1;
    }
    false
}

/// The delta of a `(prev, next)` player-list pair: all players who exist in
/// either list, deduplicated by identity key, with the `next` value taking
/// precedence when a key appears in both, in order of first appearance.
pub fn delta(prev: &Vec<Player>, next: &Vec<Player>) -> (r: Vec<Player>)
    ensures
        r@ == dedup_by_key(next@ + prev@),
{
    let ghost all = next@ + prev@;
    let mut r: Vec<Player> = Vec::new();
    let mut i: usize = 0;
    while i < next.len()
        invariant
            i <= next@.len(),
            all == next@ + prev@,
            r@ == dedup_by_key(all.take(i as int)),
        decreases next@.len() - i,
    {
        let ghost taken = all.take(i as int + 1);
        proof {
            assert(taken.drop_last() =~= all.take(i as int));
            assert(taken.last() == next@[i as int]);
            lemma_dedup_same_keys(all.take(i as int));
        }
        let present = contains_key(&r, next[i].user_id);
        if !present {
            r.push(next[i]);
        }
        i += 1;
    }
    let mut j: usize = 0;
    while j < prev.len()
        invariant
            j <= prev@.len(),
            all == next@ + prev@,
            r@ == dedup_by_key(all.take(next@.len() + j as int)),
        decreases prev@.len() - j,
    {
        let ghost n = next@.len() + j as int;
        let ghost taken = all.take(n + 1);
        proof {
            assert(taken.drop_last() =~= all.take(n));
            assert(taken.last() == prev@[j as int]);
            lemma_dedup_same_keys(all.take(n));
        }
        let present = contains_key(&r, prev[j].user_id);
        if !present {
            r.push(prev[j]);
        }
        j += 1;
    }
    proof {
        assert(all.take(all.len() as int) =~= all);
    }
    r
}

} // verus!
