use vstd::prelude::*;
use crate::calendar::month_length;
use crate::generator::{already_stored, full_roster_rows, month_shape, request_error};
use crate::roster::{day_layout, valid_roster, AutoScheduleDTO, DayDetail, ShiftDetail};
use crate::shift::ShiftKind;

verus! {

/// One stored assignment: an employee works one shift on one day.
#[derive(Clone, Copy, Debug, PartialEq, Eq, Structural)]
pub struct ScheduleRow {
    pub employee_id: i32,
    pub day: i32,
    pub shift: ShiftKind,
}

/// The rows of one shift group, in the group's order.
pub open spec fn group_rows(day: i32, k: ShiftKind, ids: Seq<i32>) -> Seq<ScheduleRow> {
    ids.map_values(|id: i32| ScheduleRow { employee_id: id, day: day, shift: k })
}

/// The rows of one day, group after group.
pub open spec fn day_rows(day: i32, shifts: Seq<ShiftDetail>) -> Seq<ScheduleRow>
    decreases shifts.len(),
{
    if shifts.len() == 0 {
        Seq::empty()
    } else {
        day_rows(day, shifts.drop_last()) + group_rows(
            day,
            shifts.last().key,
            shifts.last().value@,
        )
    }
}

/// The rows of a month, day after day.
pub open spec fn roster_rows(days: Seq<DayDetail>) -> Seq<ScheduleRow>
    decreases days.len(),
{
    if days.len() == 0 {
        Seq::empty()
    } else {
        roster_rows(days.drop_last()) + day_rows(days.last().day, days.last().value@)
    }
}

/// Flattens a month into the rows that storage keeps: one per employee,
/// shift and day, in the month's order.
pub fn flatten_roster(days: &Vec<DayDetail>) -> (rows: Vec<ScheduleRow>)
    ensures
        rows@ == roster_rows(days@),
{
    let mut rows: Vec<ScheduleRow> = Vec::new();
    let mut d: usize = 0;
    while d < days.len()
        invariant
            d <= days.len(),
            rows@ == roster_rows(days@.subrange(0, d as int)),
        decreases days.len() - d,
    {
        let day = days[d].day;
        let shifts = &days[d].value;
        let ghost before = rows@;
        let mut s: usize = 0;
        while s < shifts.len()
            invariant
                s <= shifts.len(),
                rows@ == before + day_rows(day, shifts@.subrange(0, s as int)),
            decreases shifts.len() - s,
        {
            let kind = shifts[s].key;
            let ids = &shifts[s].value;
            let ghost mid = rows@;
            let mut i: usize = 0;
            while i < ids.len()
                invariant
                    i <= ids.len(),
                    rows@ == mid + group_rows(day, kind, ids@.subrange(0, i as int)),
                decreases ids.len() - i,
            {
                rows.push(ScheduleRow { employee_id: ids[i], day: day, shift: kind });
                i = i + 1;
                assert(rows@ =~= mid + group_rows(day, kind, ids@.subrange(0, i as int)));
            }
            assert(ids@.subrange(0, ids@.len() as int) =~= ids@);
            s = s + 1;
            assert(shifts@.subrange(0, s as int).drop_last() =~= shifts@.subrange(0, s - 1));
            assert(rows@ =~= before + day_rows(day, shifts@.subrange(0, s as int)));
        }
        assert(shifts@.subrange(0, shifts@.len() as int) =~= shifts@);
        d = d + 1;
        assert(days@.subrange(0, d as int).drop_last() =~= days@.subrange(0, d - 1));
        assert(rows@ =~= roster_rows(days@.subrange(0, d as int)));
    }
    assert(days@.subrange(0, days@.len() as int) =~= days@);
    rows
}

/// A laid-out day whose Morning group is filled has one row per place.
proof fn lemma_day_rows_count(day: i32, s: Seq<ShiftDetail>, h: int)
    requires
        h >= 0,
        day_layout(s, h),
        s[0].value.len() == 1,
    ensures
        day_rows(day, s).len() == 3 + h,
{
    let s3 = s.subrange(0, 3);
    let s2 = s.subrange(0, 2);
    let s1 = s.subrange(0, 1);
    assert(s1.drop_last() =~= Seq::<ShiftDetail>::empty());
    assert(s2.drop_last() =~= s1);
    assert(s3.drop_last() =~= s2);
    assert(day_rows(day, Seq::<ShiftDetail>::empty()).len() == 0);
    assert(s1.last() == s[0]);
    assert(s2.last() == s[1]);
    assert(s3.last() == s[2]);
    assert(day_rows(day, s1).len() == 1);
    assert(day_rows(day, s2).len() == 2);
    assert(day_rows(day, s3).len() == 3);
    if h > 0 {
        assert(s.drop_last() =~= s3);
    } else {
        assert(s =~= s3);
    }
}

/// A month of filled, laid-out days has one row per place and day.
proof fn lemma_roster_rows_count(days: Seq<DayDetail>, h: int)
    requires
        h >= 0,
        forall|d: int|
            0 <= d < days.len() ==> day_layout((#[trigger] days[d]).value@, h)
                && days[d].value@[0].value.len() == 1,
    ensures
        roster_rows(days).len() == days.len() * (3 + h),
    decreases days.len(),
{
    if days.len() > 0 {
        let last = days.len() - 1;
        assert(days[last] == days.last());
        lemma_roster_rows_count(days.drop_last(), h);
        lemma_day_rows_count(days.last().day, days.last().value@, h);
        assert((days.len() - 1) * (3 + h) + (3 + h) == days.len() * (3 + h)) by (nonlinear_arith);
    }
}

/// Storing an accepted month and asking for the same month again is refused
/// as already generated: the stored rows are those of a full roster.
pub proof fn lemma_regeneration_refused(dto: AutoScheduleDTO, days: Seq<DayDetail>)
    requires
        request_error(dto) is None,
        month_shape(days, dto),
        valid_roster(days),
    ensures
        already_stored(dto, roster_rows(days).len() as int),
{
    let h = dto.nums_h as int;
    assert forall|d: int| 0 <= d < days.len() implies day_layout((#[trigger] days[d]).value@, h)
        && days[d].value@[0].value.len() == 1 by {
        assert(days[d].value@[0].value.len() > 0);
    }
    lemma_roster_rows_count(days, h);
    assert(days.len() * (3 + h) > 0) by (nonlinear_arith)
        requires
            days.len() >= 28,
            h >= 0,
    ;
    assert(full_roster_rows(dto) == days.len() * (3 + h)) by (nonlinear_arith)
        requires
            full_roster_rows(dto) == month_length(dto.month as int, dto.year as int) * (h + 3),
            days.len() == month_length(dto.month as int, dto.year as int),
    ;
}

} // verus!
