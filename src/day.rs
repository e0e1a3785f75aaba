use vstd::prelude::*;
use rand::rngs::StdRng;
use crate::assigner::{enforce_rest, pool_after_rest, rested_morning, take_from_end, tally};
use crate::random::shuffle_ids;
use crate::roster::{day_layout, day_members, disjoint, drawn_from, ShiftDetail};
use crate::shift::ShiftKind;

verus! {

/// A copy of a list of employee identifiers.
pub fn copy_ids(ids: &Vec<i32>) -> (r: Vec<i32>)
    ensures
        r@ == ids@,
{
    let mut r: Vec<i32> = Vec::new();
    let mut i: usize = 0;
    while i < ids.len()
        invariant
            i <= ids.len(),
            r@ == ids@.subrange(0, i as int),
        decreases ids.len() - i,
    {
        r.push(ids[i]);
        i = i + 1;
        assert(r@ =~= ids@.subrange(0, i as int));
    }
    assert(ids@.subrange(0, ids@.len() as int) =~= ids@);
    r
}

/// Splits an already shuffled pool into one day's shift groups.
///
/// Groups are taken off the end of `order`: Morning first, then, after the
/// rest rule has been applied to Morning against `recent` (last night's
/// group), Afternoon, Night and Office, read from the end of the pool as it
/// stands after the rest rule. When the last employee of `order` did not
/// work last night, the groups are exactly the last employees of `order`,
/// read from the end. Nobody is assigned more often than `order`
/// holds them, so a pool without repeats gives everyone at most one shift.
pub fn split_day(order: &Vec<i32>, office: usize, recent: &Vec<i32>) -> (day: Vec<ShiftDetail>)
    requires
        order.len() >= office + 3,
    ensures
        day_layout(day@, office as int),
        drawn_from(day@, order@),
        disjoint(day@[0].value@, recent@),
        (exists|y: i32| order@.contains(y) && !recent@.contains(y)) ==> day@[0].value.len() == 1,
        !recent@.contains(order@.last()) ==> {
            let n = order.len() as int;
            &&& day@[0].value@ == seq![order@[n - 1]]
            &&& day@[1].value@ == seq![order@[n - 2]]
            &&& day@[2].value@ == seq![order@[n - 3]]
            &&& office > 0 ==> forall|i: int|
                0 <= i < office ==> #[trigger] day@[3].value@[i] == order@[n - 4 - i]
        },
        ({
            let n = order.len() as int;
            let undrawn = order@.subrange(0, n - 1);
            let after = pool_after_rest(order@[n - 1], undrawn, recent@);
            &&& day@[0].value@ == rested_morning(order@[n - 1], undrawn, recent@)
            &&& after.len() == n - 1
            &&& day@[1].value@ == seq![after[n - 2]]
            &&& day@[2].value@ == seq![after[n - 3]]
            &&& office > 0 ==> forall|i: int|
                0 <= i < office ==> #[trigger] day@[3].value@[i] == after[n - 4 - i]
        }),
        forall|x: i32| #[trigger] tally(day_members(day@), x) <= tally(order@, x),
        order@.no_duplicates() ==> day_members(day@).no_duplicates(),
{
    let ghost o = order@;
    let ghost n = o.len() as int;
    let mut rest = copy_ids(order);
    let drawn = take_from_end(&mut rest, 1);
    let ghost rest0 = rest@;
    let morning = enforce_rest(&drawn, &mut rest, recent);
    let ghost rest1 = rest@;
    let afternoon = take_from_end(&mut rest, 1);
    let night = take_from_end(&mut rest, 1);
    let ghost rest2 = rest@;
    let mut day: Vec<ShiftDetail> = Vec::new();
    proof {
        assert(drawn@[0] == o[n - 1]);
        assert forall|y: i32| #[trigger] rest0.contains(y) implies o.contains(y) by {
            let k = choose|k: int| 0 <= k < rest0.len() && rest0[k] == y;
            assert(o[k] == y);
        }
        assert forall|y: i32| #[trigger] drawn@.contains(y) implies o.contains(y) by {
            assert(o[n - 1] == drawn@[0]);
        }
        assert forall|y: i32| #[trigger] rest1.contains(y) implies o.contains(y) by {}
        assert(afternoon@[0] == rest1[rest1.len() - 1]);
        assert(night@[0] == rest1[rest1.len() - 2]);
        assert(afternoon@ =~= seq![rest1[rest1.len() - 1]]);
        assert(night@ =~= seq![rest1[rest1.len() - 2]]);
        assert(rest1.contains(rest1[rest1.len() - 1]));
        assert(rest1.contains(rest1[rest1.len() - 2]));
        if exists|y: i32| o.contains(y) && !recent@.contains(y) {
            let y = choose|y: i32| o.contains(y) && !recent@.contains(y);
            let k = choose|k: int| 0 <= k < o.len() && o[k] == y;
            if k == n - 1 {
                assert(drawn@.contains(y));
            } else {
                assert(rest0[k] == y);
                assert(rest0.contains(y));
                if morning@.len() == 0 {
                    assert(!rest1.contains(y));
                    assert(morning@.contains(y));
                }
            }
        }
        if !recent@.contains(o.last()) {
            assert(disjoint(drawn@, recent@));
            assert(morning@ =~= seq![o[n - 1]]);
        }
    }
    let ghost m = morning@;
    let ghost a = afternoon@;
    let ghost nt = night@;
    day.push(ShiftDetail { key: ShiftKind::Morning, value: morning });
    proof {
        assert(day@.drop_last() =~= Seq::<ShiftDetail>::empty());
        assert(day_members(Seq::<ShiftDetail>::empty()) =~= Seq::<i32>::empty());
        assert(day_members(day@) =~= m);
    }
    let ghost one = day@;
    day.push(ShiftDetail { key: ShiftKind::Afternoon, value: afternoon });
    proof {
        assert(day@.drop_last() =~= one);
        assert(day_members(day@) =~= m + a);
    }
    let ghost two = day@;
    day.push(ShiftDetail { key: ShiftKind::Night, value: night });
    proof {
        assert(day@.drop_last() =~= two);
        assert(day_members(day@) =~= m + a + nt);
        vstd::seq_lib::lemma_multiset_commutative(m, a);
        vstd::seq_lib::lemma_multiset_commutative(m + a, nt);
        assert forall|x: i32| #[trigger] tally(day_members(day@), x) + tally(rest2, x) <= tally(o, x) by {
            assert(tally(m, x) + tally(rest1, x) <= tally(drawn@, x) + tally(rest0, x));
            assert(tally(day_members(day@), x) == tally(m, x) + tally(a, x) + tally(nt, x));
        }
    }
    let ghost three = day@;
    if office > 0 {
        let office_group = take_from_end(&mut rest, office);
        proof {
            let off = office_group@;
            assert(day@.push(ShiftDetail { key: ShiftKind::Office, value: office_group }).drop_last() =~= three);
            vstd::seq_lib::lemma_multiset_commutative(day_members(three), off);
            assert forall|x: i32| #[trigger] tally(day_members(three) + off, x) <= tally(o, x) by {
                assert(tally(day_members(three), x) + tally(rest2, x) <= tally(o, x));
            }
        }
        proof {
            assert forall|y: i32| #[trigger] office_group@.contains(y) implies o.contains(y) by {
                let k = choose|k: int| 0 <= k < office_group@.len() && office_group@[k] == y;
                assert(rest2[rest2.len() - 1 - k] == y);
                assert(rest1[rest2.len() - 1 - k] == y);
                assert(rest1.contains(y));
            }
        }
        day.push(ShiftDetail { key: ShiftKind::Office, value: office_group });
        proof {
            assert(day@.drop_last() =~= three);
        }
    }
    proof {
        assert forall|x: i32| #[trigger] tally(day_members(day@), x) <= tally(o, x) by {
            if office > 0 {
                assert(day_members(day@) == day_members(three) + day@[3].value@);
                assert(tally(day_members(three) + day@[3].value@, x) <= tally(o, x));
            } else {
                assert(tally(day_members(three), x) + tally(rest2, x) <= tally(o, x));
            }
        }
        if o.no_duplicates() {
            o.lemma_multiset_has_no_duplicates();
            let mem = day_members(day@);
            assert forall|x: i32| mem.to_multiset().contains(x) implies mem.to_multiset().count(x) == 1 by {
                assert(tally(mem, x) <= tally(o, x));
                assert(o.to_multiset().count(x) > 0);
            }
            mem.lemma_multiset_has_no_duplicates_conv();
        }
        assert forall|s: int, y: i32|
            0 <= s < day@.len() && #[trigger] day@[s].value@.contains(y) implies o.contains(y) by {
            if s == 0 {
                assert(morning@.contains(y));
            } else if s == 1 {
                assert(afternoon@.contains(y));
            } else if s == 2 {
                assert(night@.contains(y));
            }
        }
    }
    day
}

/// Draws one day's shift groups from `pool`: shuffles a copy of it with
/// `rng`, then splits it as [`split_day`] does. Nobody is assigned more
/// often than the pool holds them.
pub fn assign_day(pool: &Vec<i32>, office: usize, recent: &Vec<i32>, rng: &mut StdRng) -> (day: Vec<
    ShiftDetail,
>)
    requires
        pool.len() >= office + 3,
    ensures
        day_layout(day@, office as int),
        drawn_from(day@, pool@),
        disjoint(day@[0].value@, recent@),
        (exists|y: i32| pool@.contains(y) && !recent@.contains(y)) ==> day@[0].value.len() == 1,
        forall|x: i32| #[trigger] tally(day_members(day@), x) <= tally(pool@, x),
        pool@.no_duplicates() ==> day_members(day@).no_duplicates(),
{
    let mut order = copy_ids(pool);
    shuffle_ids(&mut order, rng);
    proof {
        order@.to_multiset_ensures();
        pool@.to_multiset_ensures();
        assert forall|y: i32| order@.contains(y) <==> pool@.contains(y) by {
            assert(order@.to_multiset().count(y) == pool@.to_multiset().count(y));
        }
    }
    let day = split_day(&order, office, recent);
    proof {
        assert(order@.len() == pool@.len());
        if pool@.no_duplicates() {
            pool@.lemma_multiset_has_no_duplicates();
            let mem = day_members(day@);
            assert forall|x: i32| mem.to_multiset().contains(x) implies mem.to_multiset().count(x) == 1 by {
                assert(tally(mem, x) <= tally(order@, x));
                assert(pool@.to_multiset().count(x) > 0);
            }
            mem.lemma_multiset_has_no_duplicates_conv();
        }
    }
    day
}

} // verus!
