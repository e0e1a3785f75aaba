use vstd::prelude::*;
use crate::roster::{DayDetail, DayDetailName, ShiftDetail, ShiftDetailName};

verus! {

/// An employee's identifier and display name.
#[derive(Clone, Debug)]
pub struct StaffName {
    pub id: i32,
    pub name: String,
}

/// The display name of `id`: that of its last entry in `staff`, if any.
pub open spec fn name_of(staff: Seq<StaffName>, id: i32) -> Option<Seq<char>>
    decreases staff.len(),
{
    if staff.len() == 0 {
        None
    } else if staff.last().id == id {
        Some(staff.last().name@)
    } else {
        name_of(staff.drop_last(), id)
    }
}

/// `names` gives, one for one, the display names of `ids`.
pub open spec fn group_named(ids: Seq<i32>, names: Seq<String>, staff: Seq<StaffName>) -> bool {
    &&& names.len() == ids.len()
    &&& forall|k: int| 0 <= k < ids.len() ==> name_of(staff, #[trigger] ids[k]) == Some(names[k]@)
}

/// Every employee of `ids` has a display name.
pub open spec fn all_known(ids: Seq<i32>, staff: Seq<StaffName>) -> bool {
    forall|k: int| 0 <= k < ids.len() ==> (name_of(staff, #[trigger] ids[k]) is Some)
}

/// Every employee of the month has a display name.
pub open spec fn roster_known(days: Seq<DayDetail>, staff: Seq<StaffName>) -> bool {
    forall|d: int, s: int|
        0 <= d < days.len() && 0 <= s < days[d].value.len() ==> all_known(
            (#[trigger] days[d].value@[s]).value@,
            staff,
        )
}

/// `named` is the day `shifts` with display names for identifiers.
pub open spec fn day_named(
    shifts: Seq<ShiftDetail>,
    named: Seq<ShiftDetailName>,
    staff: Seq<StaffName>,
) -> bool {
    &&& named.len() == shifts.len()
    &&& forall|s: int|
        0 <= s < shifts.len() ==> (#[trigger] named[s]).key == shifts[s].key && group_named(
            shifts[s].value@,
            named[s].value@,
            staff,
        )
}

/// The display name of `id`, if `staff` lists one.
pub fn lookup_name(staff: &Vec<StaffName>, id: i32) -> (r: Option<String>)
    ensures
        r is None <==> name_of(staff@, id) is None,
        r matches Some(n) ==> name_of(staff@, id) == Some(n@),
{
    let mut found: Option<usize> = None;
    let mut i: usize = 0;
    while i < staff.len()
        invariant
            i <= staff.len(),
            found is None ==> name_of(staff@.subrange(0, i as int), id) is None,
            found matches Some(k) ==> k < i && name_of(staff@.subrange(0, i as int), id) == Some(
                staff@[k as int].name@,
            ),
        decreases staff.len() - i,
    {
        if staff[i].id == id {
            found = Some(i);
        }
        i = i + 1;
        assert(staff@.subrange(0, i as int).drop_last() =~= staff@.subrange(0, i - 1));
    }
    assert(staff@.subrange(0, staff@.len() as int) =~= staff@);
    match found {
        Some(k) => Some(staff[k].name.clone()),
        None => None,
    }
}

/// The display names of `ids`, in order; `None` when one has no name.
pub fn name_group(ids: &Vec<i32>, staff: &Vec<StaffName>) -> (r: Option<Vec<String>>)
    ensures
        r is None <==> !all_known(ids@, staff@),
        r matches Some(names) ==> group_named(ids@, names@, staff@),
{
    let mut names: Vec<String> = Vec::new();
    let mut k: usize = 0;
    while k < ids.len()
        invariant
            k <= ids.len(),
            names@.len() == k,
            forall|j: int| 0 <= j < k ==> name_of(staff@, #[trigger] ids@[j]) == Some(names@[j]@),
        decreases ids.len() - k,
    {
        match lookup_name(staff, ids[k]) {
            Some(n) => names.push(n),
            None => {
                return None;
            },
        }
        k = k + 1;
    }
    Some(names)
}

/// A month with display names in place of identifiers; `None` when some
/// employee of the month has no name in `staff`.
pub fn name_roster(days: &Vec<DayDetail>, staff: &Vec<StaffName>) -> (r: Option<Vec<DayDetailName>>)
    ensures
        r is None <==> !roster_known(days@, staff@),
        r matches Some(named) ==> named@.len() == days@.len() && forall|d: int|
            0 <= d < days@.len() ==> (#[trigger] named@[d]).day == days@[d].day && day_named(
                days@[d].value@,
                named@[d].value@,
                staff@,
            ),
{
    let mut out: Vec<DayDetailName> = Vec::new();
    let mut d: usize = 0;
    while d < days.len()
        invariant
            d <= days.len(),
            out@.len() == d,
            forall|e: int|
                0 <= e < d ==> (#[trigger] out@[e]).day == days@[e].day && day_named(
                    days@[e].value@,
                    out@[e].value@,
                    staff@,
                ),
        decreases days.len() - d,
    {
        let shifts = &days[d].value;
        let mut named: Vec<ShiftDetailName> = Vec::new();
        let mut s: usize = 0;
        while s < shifts.len()
            invariant
                d < days.len(),
                shifts == &days@[d as int].value,
                s <= shifts.len(),
                named@.len() == s,
                forall|t: int|
                    0 <= t < s ==> (#[trigger] named@[t]).key == shifts@[t].key && group_named(
                        shifts@[t].value@,
                        named@[t].value@,
                        staff@,
                    ),
            decreases shifts.len() - s,
        {
            match name_group(&shifts[s].value, staff) {
                Some(names) => named.push(ShiftDetailName { key: shifts[s].key, value: names }),
                None => {
                    assert(!roster_known(days@, staff@)) by {
                        assert(!all_known(days@[d as int].value@[s as int].value@, staff@));
                    }
                    return None;
                },
            }
            s = s + 1;
        }
        let ghost before = out@;
        out.push(DayDetailName { day: days[d].day, value: named });
        assert forall|e: int| 0 <= e < d implies out@[e] == before[e] by {}
        d = d + 1;
    }
    assert(roster_known(days@, staff@)) by {
        assert forall|e: int, s: int|
            0 <= e < days@.len() && 0 <= s < days@[e].value.len() implies all_known(
            (#[trigger] days@[e].value@[s]).value@,
            staff@,
        ) by {
            assert(day_named(days@[e].value@, out@[e].value@, staff@));
            assert(group_named(days@[e].value@[s].value@, out@[e].value@[s].value@, staff@));
        }
    }
    Some(out)
}

} // verus!
