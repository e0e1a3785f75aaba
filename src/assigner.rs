use vstd::prelude::*;
use crate::roster::disjoint;
use crate::validator::contains_id;

verus! {

/// Taking an element out of `s` and putting `e` at the end keeps every
/// other element and brings in nothing else.
proof fn lemma_swap_out(s: Seq<i32>, x: int, e: i32)
    requires
        0 <= x < s.len(),
    ensures
        s.remove(x).push(e).len() == s.len(),
        forall|j: int| 0 <= j < s.len() && j != x ==> s.remove(x).push(e).contains(#[trigger] s[j]),
        forall|y: i32| #[trigger] s.remove(x).push(e).contains(y) ==> s.contains(y) || y == e,
{
    let t = s.remove(x).push(e);
    assert forall|j: int| 0 <= j < s.len() && j != x implies t.contains(#[trigger] s[j]) by {
        if j < x {
            assert(t[j] == s[j]);
        } else {
            assert(t[j - 1] == s[j]);
        }
    }
    assert forall|y: i32| #[trigger] t.contains(y) implies s.contains(y) || y == e by {
        let k = choose|k: int| 0 <= k < t.len() && t[k] == y;
        if k < x {
            assert(s[k] == y);
        } else if k < s.len() - 1 {
            assert(s[k + 1] == y);
        }
    }
}

/// How many times `x` occurs in `s`.
pub open spec fn tally(s: Seq<i32>, x: i32) -> nat {
    s.to_multiset().count(x)
}

/// Removes `n` employees from the end of `pool`; the last one comes first.
pub fn take_from_end(pool: &mut Vec<i32>, n: usize) -> (group: Vec<i32>)
    requires
        n <= old(pool).len(),
    ensures
        final(pool)@ == old(pool)@.subrange(0, old(pool)@.len() - n),
        group@.len() == n,
        forall|i: int| 0 <= i < n ==> #[trigger] group@[i] == old(pool)@[old(pool)@.len() - 1 - i],
        old(pool)@.to_multiset() == final(pool)@.to_multiset().add(group@.to_multiset()),
{
    broadcast use vstd::seq_lib::group_to_multiset_ensures, vstd::multiset::group_multiset_axioms;
    let ghost start = pool@;
    let mut group: Vec<i32> = Vec::new();
    let mut i: usize = 0;
    while i < n
        invariant
            n <= start.len(),
            i <= n,
            pool@ == start.subrange(0, start.len() - i),
            group@.len() == i,
            forall|j: int| 0 <= j < i ==> #[trigger] group@[j] == start[start.len() - 1 - j],
            start.to_multiset() == pool@.to_multiset().add(group@.to_multiset()),
        decreases n - i,
    {
        let ghost before = pool@;
        let ghost group_before = group@;
        match pool.pop() {
            Some(e) => {
                group.push(e);
                assert(before =~= pool@.push(e));
                proof {
                    pool@.to_multiset_ensures();
                    group_before.to_multiset_ensures();
                }
                assert(pool@.push(e).to_multiset() =~= pool@.to_multiset().insert(e));
                assert(group_before.push(e).to_multiset() =~= group_before.to_multiset().insert(e));
                assert(group@ == group_before.push(e));
                assert(pool@.to_multiset().add(group@.to_multiset()) =~= before.to_multiset().add(
                    group_before.to_multiset(),
                ));
            },
            None => {},
        }
        i = i + 1;
        assert(pool@ =~= start.subrange(0, start.len() - i));
    }
    group
}

/// The position of the last employee of `pool` who is not in `recent`, or
/// -1 when there is none.
pub open spec fn last_rested_index(pool: Seq<i32>, recent: Seq<i32>) -> int
    decreases pool.len(),
{
    if pool.len() == 0 {
        -1
    } else if !recent.contains(pool.last()) {
        pool.len() - 1
    } else {
        last_rested_index(pool.drop_last(), recent)
    }
}

/// The Morning group that the rest rule leaves of a one-member group
/// `member`, with `pool` the employees not yet drawn that day.
pub open spec fn rested_morning(member: i32, pool: Seq<i32>, recent: Seq<i32>) -> Seq<i32> {
    if !recent.contains(member) {
        seq![member]
    } else if last_rested_index(pool, recent) >= 0 {
        seq![pool[last_rested_index(pool, recent)]]
    } else {
        Seq::empty()
    }
}

/// The employees not yet drawn after the rest rule has been applied to a
/// one-member Morning group `member`: a swapped-in employee leaves the pool
/// and `member` goes to its end.
pub open spec fn pool_after_rest(member: i32, pool: Seq<i32>, recent: Seq<i32>) -> Seq<i32> {
    if !recent.contains(member) {
        pool
    } else if last_rested_index(pool, recent) >= 0 {
        pool.remove(last_rested_index(pool, recent)).push(member)
    } else {
        pool
    }
}

/// The last rested position is the one after which everyone is in `recent`.
proof fn lemma_last_rested_index(pool: Seq<i32>, recent: Seq<i32>, x: int)
    requires
        -1 <= x < pool.len(),
        x >= 0 ==> !recent.contains(pool[x]),
        forall|j: int| x < j < pool.len() ==> recent.contains(#[trigger] pool[j]),
    ensures
        last_rested_index(pool, recent) == x,
    decreases pool.len(),
{
    if pool.len() > 0 && x < pool.len() - 1 {
        assert(recent.contains(pool[pool.len() - 1]));
        let p = pool.drop_last();
        assert forall|j: int| x < j < p.len() implies recent.contains(#[trigger] p[j]) by {
            assert(p[j] == pool[j]);
        }
        if x >= 0 {
            assert(p[x] == pool[x]);
        }
        lemma_last_rested_index(p, recent, x);
    }
}

/// The position of the last employee of `pool` who is not in `recent`.
pub fn last_rested(pool: &Vec<i32>, recent: &Vec<i32>) -> (r: Option<usize>)
    ensures
        r matches Some(x) ==> x == last_rested_index(pool@, recent@),
        r is None <==> last_rested_index(pool@, recent@) < 0,
        r matches Some(x) ==> x < pool.len() && !recent@.contains(pool@[x as int]) && forall|j: int|
            x < j < pool.len() ==> recent@.contains(#[trigger] pool@[j]),
        r.is_none() ==> forall|j: int| 0 <= j < pool.len() ==> recent@.contains(#[trigger] pool@[j]),
        r matches Some(x) ==> x < pool.len() && !recent@.contains(pool@[x as int]) && forall|j: int|
            x < j < pool.len() ==> recent@.contains(#[trigger] pool@[j]),
        r.is_none() ==> forall|j: int| 0 <= j < pool.len() ==> recent@.contains(#[trigger] pool@[j]),
{
    let mut k: usize = pool.len();
    while k > 0
        invariant
            k <= pool.len(),
            forall|j: int| k <= j < pool.len() ==> recent@.contains(#[trigger] pool@[j]),
        decreases k,
    {
        if !contains_id(recent, pool[k - 1]) {
            proof {
                lemma_last_rested_index(pool@, recent@, k - 1);
            }
            return Some(k - 1);
        }
        k = k - 1;
    }
    proof {
        lemma_last_rested_index(pool@, recent@, -1);
    }
    None
}

/// Keeps everyone who worked last night off this morning's group.
///
/// Each member of `morning` who is in `recent` leaves the group. In their
/// place comes the last employee of `remaining` who is not in `recent`, and
/// the one who left goes to the end of `remaining`; when `remaining` holds no
/// such employee, the place stays empty. Members who stay keep their order
/// and come first; replacements follow in the order they were drawn. For a
/// one-member group this is [`rested_morning`] and [`pool_after_rest`].
pub fn enforce_rest(morning: &Vec<i32>, remaining: &mut Vec<i32>, recent: &Vec<i32>) -> (r: Vec<
    i32,
>)
    ensures
        disjoint(r@, recent@),
        r@.len() <= morning@.len(),
        final(remaining)@.len() == old(remaining)@.len(),
        forall|y: i32| #[trigger] r@.contains(y) ==> morning@.contains(y) || old(remaining)@.contains(y),
        forall|y: i32| #[trigger]
            final(remaining)@.contains(y) ==> old(remaining)@.contains(y) || morning@.contains(y),
        forall|y: i32| #[trigger] morning@.contains(y) && !recent@.contains(y) ==> r@.contains(y),
        forall|y: i32|
            #[trigger] old(remaining)@.contains(y) && !recent@.contains(y) ==> r@.contains(y)
                || final(remaining)@.contains(y),
        r@.len() == morning@.len() || forall|y: i32| #[trigger]
            final(remaining)@.contains(y) ==> recent@.contains(y),
        disjoint(morning@, recent@) ==> r@ == morning@ && final(remaining)@ == old(remaining)@,
        forall|x: i32|
            #[trigger] tally(r@, x) + tally(final(remaining)@, x) <= tally(morning@, x) + tally(
                old(remaining)@,
                x,
            ),
        morning@.len() == 1 ==> r@ == rested_morning(morning@[0], old(remaining)@, recent@)
            && final(remaining)@ == pool_after_rest(morning@[0], old(remaining)@, recent@),
{
    let ghost rem0 = remaining@;
    let mut kept: Vec<i32> = Vec::new();
    let mut swapped: Vec<i32> = Vec::new();
    let mut i: usize = 0;
    proof {
        broadcast use vstd::multiset::group_multiset_axioms;
        assert(morning@.subrange(0, morning@.len() as int) =~= morning@);
        kept@.to_multiset_ensures();
        swapped@.to_multiset_ensures();
    }
    while i < morning.len()
        invariant
            i <= morning.len(),
            remaining@.len() == rem0.len(),
            kept@.len() + swapped@.len() <= i,
            forall|y: i32| #[trigger] kept@.contains(y) ==> !recent@.contains(y) && morning@.contains(y),
            forall|y: i32| #[trigger] swapped@.contains(y) ==> !recent@.contains(y) && (morning@.contains(y) || rem0.contains(y)),
            forall|y: i32| #[trigger] remaining@.contains(y) ==> rem0.contains(y) || morning@.contains(y),
            forall|j: int| 0 <= j < i && !recent@.contains(#[trigger] morning@[j]) ==> kept@.contains(morning@[j]),
            forall|y: i32| #[trigger] rem0.contains(y) && !recent@.contains(y) ==> swapped@.contains(y) || remaining@.contains(y),
            kept@.len() + swapped@.len() == i || forall|y: i32| #[trigger] remaining@.contains(y) ==> recent@.contains(y),
            disjoint(morning@.subrange(0, i as int), recent@) ==> kept@ == morning@.subrange(0, i as int) && swapped@.len() == 0 && remaining@ == rem0,
            forall|x: i32|
                #[trigger] tally(morning@.subrange(i as int, morning@.len() as int), x) + tally(kept@, x)
                    + tally(swapped@, x) + tally(remaining@, x) <= tally(morning@, x) + tally(rem0, x),
            morning@.len() == 1 && i == 1 ==> kept@ + swapped@ == rested_morning(morning@[0], rem0, recent@)
                && remaining@ == pool_after_rest(morning@[0], rem0, recent@),
        decreases morning.len() - i,
    {
        let e = morning[i];
        let ghost pre = remaining@;
        let ghost kept_pre = kept@;
        let ghost swapped_pre = swapped@;
        let ghost sub = morning@.subrange(i as int, morning@.len() as int);
        let ghost sub_next = morning@.subrange(i + 1, morning@.len() as int);
        proof {
            sub.to_multiset_ensures();
            kept_pre.to_multiset_ensures();
            swapped_pre.to_multiset_ensures();
            pre.to_multiset_ensures();
            assert(sub.remove(0) =~= sub_next);
            assert(sub[0] == e);
            assert(sub_next.to_multiset() =~= sub.to_multiset().remove(e));
        }
        if contains_id(recent, e) {
            assert(!disjoint(morning@.subrange(0, i as int + 1), recent@)) by {
                assert(morning@.subrange(0, i as int + 1)[i as int] == e);
            }
            match last_rested(remaining, recent) {
                Some(x) => {
                    proof {
                        lemma_swap_out(pre, x as int, e);
                    }
                    let p = remaining.remove(x);
                    remaining.push(e);
                    swapped.push(p);
                    proof {
                        if morning@.len() == 1 {
                            assert(i == 0);
                            assert(kept_pre.len() == 0 && swapped_pre.len() == 0);
                            assert(kept@ + swapped@ =~= seq![p]);
                        }
                        pre.remove(x as int).to_multiset_ensures();
                        assert(pre.remove(x as int).to_multiset() =~= pre.to_multiset().remove(p));
                        assert(remaining@.to_multiset() =~= pre.to_multiset().remove(p).insert(e));
                        assert(swapped@.to_multiset() =~= swapped_pre.to_multiset().insert(p));
                        assert(pre.to_multiset().count(p) > 0) by {
                            assert(pre[x as int] == p);
                        }
                        assert forall|y: i32|
                            #[trigger] tally(sub_next, y) + tally(kept@, y) + tally(swapped@, y) + tally(remaining@, y)
                                <= tally(morning@, y) + tally(rem0, y) by {
                            assert(tally(sub, y) + tally(kept_pre, y) + tally(swapped_pre, y) + tally(pre, y)
                                <= tally(morning@, y) + tally(rem0, y));
                        }
                    }
                    assert forall|y: i32| #[trigger] swapped@.contains(y) implies !recent@.contains(y) && (morning@.contains(y) || rem0.contains(y)) by {
                        if y == p {
                            assert(pre[x as int] == p);
                            assert(pre.contains(p));
                        } else {
                            assert(swapped_pre.contains(y)) by {
                                let k = choose|k: int| 0 <= k < swapped@.len() && swapped@[k] == y;
                                assert(swapped_pre[k] == y);
                            }
                        }
                    }
                    assert forall|y: i32| #[trigger] rem0.contains(y) && !recent@.contains(y) implies swapped@.contains(y) || remaining@.contains(y) by {
                        if !swapped_pre.contains(y) {
                            let k = choose|k: int| 0 <= k < pre.len() && pre[k] == y;
                            if k == x {
                                assert(swapped@[swapped@.len() - 1] == y);
                            }
                        } else {
                            let k = choose|k: int| 0 <= k < swapped_pre.len() && swapped_pre[k] == y;
                            assert(swapped@[k] == y);
                        }
                    }
                },
                None => {
                    assert(kept@ + swapped@ =~= kept_pre + swapped_pre);
                    assert forall|y: i32| #[trigger] remaining@.contains(y) implies recent@.contains(y) by {
                        let k = choose|k: int| 0 <= k < remaining@.len() && remaining@[k] == y;
                    }
                    assert forall|y: i32|
                        #[trigger] tally(sub_next, y) + tally(kept@, y) + tally(swapped@, y) + tally(remaining@, y)
                            <= tally(morning@, y) + tally(rem0, y) by {
                        assert(tally(sub, y) + tally(kept_pre, y) + tally(swapped_pre, y) + tally(pre, y)
                            <= tally(morning@, y) + tally(rem0, y));
                    }
                },
            }
        } else {
            kept.push(e);
            proof {
                if morning@.len() == 1 {
                    assert(kept_pre.len() == 0 && swapped_pre.len() == 0);
                    assert(kept@ + swapped@ =~= seq![e]);
                }
                assert(kept@.to_multiset() =~= kept_pre.to_multiset().insert(e));
                assert forall|y: i32|
                    #[trigger] tally(sub_next, y) + tally(kept@, y) + tally(swapped@, y) + tally(remaining@, y)
                        <= tally(morning@, y) + tally(rem0, y) by {
                    assert(tally(sub, y) + tally(kept_pre, y) + tally(swapped_pre, y) + tally(pre, y)
                        <= tally(morning@, y) + tally(rem0, y));
                }
            }
            assert forall|y: i32| #[trigger] kept@.contains(y) implies !recent@.contains(y) && morning@.contains(y) by {
                if y != e {
                    let k = choose|k: int| 0 <= k < kept@.len() && kept@[k] == y;
                    assert(kept_pre[k] == y);
                    assert(kept_pre.contains(y));
                } else {
                    assert(morning@[i as int] == e);
                }
            }
            assert forall|j: int| 0 <= j < i + 1 && !recent@.contains(#[trigger] morning@[j]) implies kept@.contains(morning@[j]) by {
                if j < i {
                    let k = choose|k: int| 0 <= k < kept_pre.len() && kept_pre[k] == morning@[j];
                    assert(kept@[k] == morning@[j]);
                } else {
                    assert(kept@[kept@.len() - 1] == e);
                }
            }
            proof {
                if disjoint(morning@.subrange(0, i as int + 1), recent@) {
                    assert(disjoint(morning@.subrange(0, i as int), recent@)) by {
                        assert forall|j: int| 0 <= j < i implies !recent@.contains(#[trigger] morning@.subrange(0, i as int)[j]) by {
                            assert(morning@.subrange(0, i as int + 1)[j] == morning@[j]);
                        }
                    }
                    assert(kept@ =~= morning@.subrange(0, i as int + 1));
                }
            }
        }
        i = i + 1;
    }
    let ghost k0 = kept@;
    let mut r = kept;
    let mut t: usize = 0;
    while t < swapped.len()
        invariant
            t <= swapped.len(),
            r@ == k0 + swapped@.subrange(0, t as int),
        decreases swapped.len() - t,
    {
        r.push(swapped[t]);
        t = t + 1;
        assert(r@ =~= k0 + swapped@.subrange(0, t as int));
    }
    assert(swapped@.subrange(0, swapped@.len() as int) =~= swapped@);
    assert forall|y: i32| #[trigger] r@.contains(y) implies !recent@.contains(y) && (morning@.contains(y) || rem0.contains(y)) by {
        let k = choose|k: int| 0 <= k < r@.len() && r@[k] == y;
        if k < k0.len() {
            assert(k0[k] == y);
            assert(k0.contains(y));
        } else {
            assert(swapped@[k - k0.len()] == y);
            assert(swapped@.contains(y));
        }
    }
    assert forall|y: i32| #[trigger] k0.contains(y) implies r@.contains(y) by {
        let k = choose|k: int| 0 <= k < k0.len() && k0[k] == y;
        assert(r@[k] == y);
    }
    assert forall|y: i32| #[trigger] swapped@.contains(y) implies r@.contains(y) by {
        let k = choose|k: int| 0 <= k < swapped@.len() && swapped@[k] == y;
        assert(r@[k0.len() + k] == y);
    }
    assert forall|y: i32| #[trigger] morning@.contains(y) && !recent@.contains(y) implies r@.contains(y) by {
        let k = choose|k: int| 0 <= k < morning@.len() && morning@[k] == y;
        assert(k0.contains(morning@[k]));
    }
    assert(disjoint(r@, recent@)) by {
        assert forall|i: int| 0 <= i < r@.len() implies !recent@.contains(#[trigger] r@[i]) by {
            assert(r@.contains(r@[i]));
        }
    }
    assert(morning@.subrange(0, morning@.len() as int) =~= morning@);
    proof {
        vstd::seq_lib::lemma_multiset_commutative(k0, swapped@);
        let tail = morning@.subrange(morning@.len() as int, morning@.len() as int);
        assert(tail =~= Seq::<i32>::empty());
        assert forall|x: i32|
            #[trigger] tally(r@, x) + tally(remaining@, x) <= tally(morning@, x) + tally(rem0, x) by {
            assert(tally(tail, x) + tally(k0, x) + tally(swapped@, x) + tally(remaining@, x) <= tally(
                morning@,
                x,
            ) + tally(rem0, x));
        }
    }
    r
}

} // verus!
