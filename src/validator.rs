use vstd::prelude::*;
use crate::shift::ShiftKind;
use crate::roster::{
    disjoint, group_of, lemma_group_of_skip, rest_ok, valid_roster, DayDetail,
    ShiftDetail,
};

verus! {

/// Whether `x` is one of `ids`.
pub fn contains_id(ids: &Vec<i32>, x: i32) -> (r: bool)
    ensures
        r == ids@.contains(x),
{
    let mut i: usize = 0;
    while i < ids.len()
        invariant
            i <= ids.len(),
            forall|j: int| 0 <= j < i ==> ids@[j] != x,
        decreases ids.len() - i,
    {
        if ids[i] == x {
            return true;
        }
        i = i + 1;
    }
    false
}

/// Whether no member of `a` is in `b`.
pub fn disjoint_ids(a: &Vec<i32>, b: &Vec<i32>) -> (r: bool)
    ensures
        r == disjoint(a@, b@),
{
    let mut i: usize = 0;
    while i < a.len()
        invariant
            i <= a.len(),
            forall|j: int| 0 <= j < i ==> !b@.contains(#[trigger] a@[j]),
        decreases a.len() - i,
    {
        if contains_id(b, a[i]) {
            return false;
        }
        i = i + 1;
    }
    true
}

/// The position of the first group of kind `k`, if any.
pub fn find_group(shifts: &Vec<ShiftDetail>, k: ShiftKind) -> (r: Option<usize>)
    ensures
        r matches Some(i) ==> i < shifts.len() && shifts@[i as int].key == k && group_of(
            shifts@,
            k,
        ) == shifts@[i as int].value@,
        r.is_none() ==> group_of(shifts@, k) == Seq::<i32>::empty(),
{
    let mut i: usize = 0;
    while i < shifts.len()
        invariant
            i <= shifts.len(),
            forall|j: int| 0 <= j < i ==> (#[trigger] shifts@[j]).key != k,
        decreases shifts.len() - i,
    {
        if shifts[i].key == k {
            proof {
                lemma_group_of_skip(shifts@, k, i as int);
                let rest = shifts@.subrange(i as int, shifts.len() as int);
                assert(rest[0] == shifts@[i as int]);
            }
            return Some(i);
        }
        i = i + 1;
    }
    proof {
        lemma_group_of_skip(shifts@, k, i as int);
    }
    None
}

/// Whether the Morning group of `today` avoids the Night group of `yesterday`.
fn rested(yesterday: &DayDetail, today: &DayDetail) -> (r: bool)
    ensures
        r == disjoint(
            group_of(today.value@, ShiftKind::Morning),
            group_of(yesterday.value@, ShiftKind::Night),
        ),
{
    match find_group(&today.value, ShiftKind::Morning) {
        None => true,
        Some(m) => match find_group(&yesterday.value, ShiftKind::Night) {
            None => {
                let ghost morning = today.value@[m as int].value@;
                assert forall|i: int| 0 <= i < morning.len() implies !Seq::<i32>::empty().contains(
                    #[trigger] morning[i],
                ) by {}
                true
            },
            Some(n) => disjoint_ids(&today.value[m].value, &yesterday.value[n].value),
        },
    }
}

/// Checks a whole month: the rest rule between consecutive days, and that
/// no shift group on any day is empty.
pub fn verify_valid_schedule(input: &Vec<DayDetail>) -> (r: bool)
    ensures
        r == valid_roster(input@),
{
    let mut d: usize = 1;
    while d < input.len()
        invariant
            1 <= d <= input.len() || input.len() == 0,
            forall|e: int|
                1 <= e < d && e < input.len() ==> disjoint(
                    group_of((#[trigger] input@[e]).value@, ShiftKind::Morning),
                    group_of(input@[e - 1].value@, ShiftKind::Night),
                ),
        decreases input.len() - d,
    {
        if !rested(&input[d - 1], &input[d]) {
            return false;
        }
        d = d + 1;
    }
    let mut d: usize = 0;
    while d < input.len()
        invariant
            d <= input.len(),
            rest_ok(input@),
            forall|e: int, s: int|
                0 <= e < d && 0 <= s < input@[e].value.len() ==> (
                #[trigger] input@[e].value@[s]).value.len() > 0,
        decreases input.len() - d,
    {
        let shifts = &input[d].value;
        let mut s: usize = 0;
        while s < shifts.len()
            invariant
                d < input.len(),
                shifts == &input@[d as int].value,
                s <= shifts.len(),
                forall|t: int| 0 <= t < s ==> (#[trigger] shifts@[t]).value.len() > 0,
            decreases shifts.len() - s,
        {
            if shifts[s].value.len() == 0 {
                return false;
            }
            s = s + 1;
        }
        d = d + 1;
    }
    true
}

/// Day `d` breaks a rule: its Morning group meets the previous day's Night
/// group, or one of its groups is empty.
pub open spec fn day_faulty(days: Seq<DayDetail>, d: int) -> bool {
    ||| d >= 1 && !disjoint(
        group_of(days[d].value@, ShiftKind::Morning),
        group_of(days[d - 1].value@, ShiftKind::Night),
    )
    ||| exists|s: int| 0 <= s < days[d].value.len() && (#[trigger] days[d].value@[s]).value.len() == 0
}

/// Whether some group of the day is empty.
fn has_empty_group(shifts: &Vec<ShiftDetail>) -> (r: bool)
    ensures
        r == exists|s: int| 0 <= s < shifts.len() && (#[trigger] shifts@[s]).value.len() == 0,
{
    let mut s: usize = 0;
    while s < shifts.len()
        invariant
            s <= shifts.len(),
            forall|t: int| 0 <= t < s ==> (#[trigger] shifts@[t]).value.len() > 0,
        decreases shifts.len() - s,
    {
        if shifts[s].value.len() == 0 {
            return true;
        }
        s = s + 1;
    }
    false
}

/// The position of the first day that breaks the rest rule or leaves a
/// group empty; `None` exactly when the month is valid.
pub fn first_invalid_day(input: &Vec<DayDetail>) -> (r: Option<usize>)
    ensures
        r.is_none() <==> valid_roster(input@),
        r matches Some(d) ==> d < input.len() && day_faulty(input@, d as int) && forall|e: int|
            0 <= e < d ==> !day_faulty(input@, e),
{
    let mut d: usize = 0;
    while d < input.len()
        invariant
            d <= input.len(),
            forall|e: int| 0 <= e < d ==> !day_faulty(input@, e),
        decreases input.len() - d,
    {
        let bad_rest = d >= 1 && !rested(&input[d - 1], &input[d]);
        if bad_rest || has_empty_group(&input[d].value) {
            return Some(d);
        }
        d = d + 1;
    }
    assert forall|e: int, s: int|
        0 <= e < input@.len() && 0 <= s < input@[e].value.len() implies (
        #[trigger] input@[e].value@[s]).value.len() > 0 by {
        assert(!day_faulty(input@, e));
    }
    assert forall|e: int| 1 <= e < input@.len() implies disjoint(
        group_of((#[trigger] input@[e]).value@, ShiftKind::Morning),
        group_of(input@[e - 1].value@, ShiftKind::Night),
    ) by {
        assert(!day_faulty(input@, e));
    }
    None
}

} // verus!
