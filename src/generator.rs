use vstd::prelude::*;
use rand::rngs::StdRng;
use crate::calendar::{days_in_month, month_length, valid_month};
use crate::day::{assign_day, copy_ids};
use crate::random::seeded_rng;
use crate::roster::{
    coverage_ok, day_layout, day_members, disjoint, drawn_from, group_of, lemma_group_of_skip, rest_ok,
    two_distinct, valid_roster, AutoScheduleDTO, DayDetail, RosterError, ShiftDetail,
};
use crate::shift::ShiftKind;
use crate::validator::verify_valid_schedule;

verus! {

/// How many drawn months [`generate_schedule`] tries when the caller has no
/// bound of its own.
pub const DEFAULT_ATTEMPTS: u32 = 200;

/// What is wrong with a request before anything is drawn, if anything.
pub open spec fn request_error(dto: AutoScheduleDTO) -> Option<RosterError> {
    if !valid_month(dto.month as int) {
        Some(RosterError::InvalidMonth)
    } else if dto.nums_h < 0 {
        Some(RosterError::InvalidHeadcount)
    } else if dto.employees.len() < dto.nums_h + 3 {
        Some(RosterError::InsufficientStaffing)
    } else {
        None
    }
}

/// A month drawn for `dto`: one entry per calendar day, numbered from 1,
/// each laid out as [`day_layout`] says and drawn from the request's pool;
/// from a pool without repeats, nobody works two shifts of one day.
pub open spec fn month_shape(days: Seq<DayDetail>, dto: AutoScheduleDTO) -> bool {
    &&& days.len() == month_length(dto.month as int, dto.year as int)
    &&& forall|d: int|
        0 <= d < days.len() ==> {
            &&& (#[trigger] days[d]).day == d + 1
            &&& day_layout(days[d].value@, dto.nums_h as int)
            &&& drawn_from(days[d].value@, dto.employees@)
            &&& dto.employees@.no_duplicates() ==> day_members(days[d].value@).no_duplicates()
        }
}

/// The rows a full roster of the request stores: one per place and day.
pub open spec fn full_roster_rows(dto: AutoScheduleDTO) -> int {
    month_length(dto.month as int, dto.year as int) * (dto.nums_h + 3)
}

/// The idempotence guard: a roster is stored for the month, and its rows
/// number at least those of a full roster of the request, or one per day
/// and employee of the request.
pub open spec fn already_stored(dto: AutoScheduleDTO, existing_rows: int) -> bool {
    &&& existing_rows > 0
    &&& (existing_rows >= month_length(dto.month as int, dto.year as int) * dto.employees.len()
        || existing_rows >= full_roster_rows(dto))
}

/// In a laid-out day the Morning and Night groups are its first and third.
pub proof fn lemma_layout_groups(day: Seq<ShiftDetail>, office: int)
    requires
        day_layout(day, office),
    ensures
        group_of(day, ShiftKind::Morning) == day[0].value@,
        group_of(day, ShiftKind::Night) == day[2].value@,
{
    lemma_group_of_skip(day, ShiftKind::Night, 2);
    let rest = day.subrange(2, day.len() as int);
    assert(rest[0] == day[2]);
}

/// Every day of an accepted month has exactly one employee on each of the
/// Morning, Afternoon and Night shifts and the requested number on Office
/// hours; the Office group is left out when that number is zero.
pub proof fn lemma_accepted_headcounts(dto: AutoScheduleDTO, days: Seq<DayDetail>)
    requires
        month_shape(days, dto),
        valid_roster(days),
    ensures
        forall|d: int|
            0 <= d < days.len() ==> {
                let day = (#[trigger] days[d]).value@;
                &&& day[0].key == ShiftKind::Morning && day[0].value.len() == 1
                &&& day[1].key == ShiftKind::Afternoon && day[1].value.len() == 1
                &&& day[2].key == ShiftKind::Night && day[2].value.len() == 1
                &&& dto.nums_h > 0 ==> day.len() == 4 && day[3].key == ShiftKind::Office
                    && day[3].value.len() == dto.nums_h
                &&& dto.nums_h <= 0 ==> day.len() == 3
            },
{
    assert forall|d: int| 0 <= d < days.len() implies (#[trigger] days[d]).value@[0].value.len()
        == 1 by {
        assert(days[d].value@[0].value.len() > 0);
    }
}

/// From a pool of one employee repeated, the second day's Morning group is
/// empty: its only candidate worked the night before.
proof fn lemma_repeated_pool_unrested(days: Seq<DayDetail>, pool: Seq<i32>, h: int)
    requires
        !two_distinct(pool),
        days.len() >= 2,
        rest_ok(days),
        forall|e: int|
            0 <= e < days.len() ==> day_layout((#[trigger] days[e]).value@, h) && drawn_from(
                days[e].value@,
                pool,
            ),
    ensures
        !coverage_ok(days),
{
    let first = days[0].value@;
    let second = days[1].value@;
    lemma_layout_groups(first, h);
    lemma_layout_groups(second, h);
    assert(first[2].value@.contains(first[2].value@[0]));
    let v = first[2].value@[0];
    assert(pool.contains(v));
    if second[0].value.len() > 0 {
        let w = second[0].value@[0];
        assert(second[0].value@.contains(w));
        assert(pool.contains(w));
        let i = choose|i: int| 0 <= i < pool.len() && pool[i] == v;
        let j = choose|j: int| 0 <= j < pool.len() && pool[j] == w;
        assert(pool[i] == pool[j]);
        assert(disjoint(second[0].value@, first[2].value@));
        assert(first[2].value@ =~= seq![v]);
    }
    assert((days[1].value@[0]).value.len() == 0);
}

/// Draws a whole month for `dto` with `rng`, one day at a time, carrying each
/// day's Night group to the next day's rest rule. The month is not
/// validated: a Morning group may be empty where nobody rested was left.
pub fn create_sample_schedule(dto: &AutoScheduleDTO, rng: &mut StdRng) -> (r: Result<
    Vec<DayDetail>,
    RosterError,
>)
    ensures
        r is Err <==> request_error(*dto) is Some,
        r matches Err(e) ==> request_error(*dto) == Some(e),
        r matches Ok(days) ==> month_shape(days@, *dto) && rest_ok(days@),
        r matches Ok(days) ==> (two_distinct(dto.employees@) <==> coverage_ok(days@)),
{
    let count = match days_in_month(dto.month, dto.year) {
        Some(n) => n,
        None => {
            return Err(RosterError::InvalidMonth);
        },
    };
    if dto.nums_h < 0 {
        return Err(RosterError::InvalidHeadcount);
    }
    let office = dto.nums_h as usize;
    if dto.employees.len() < office + 3 {
        return Err(RosterError::InsufficientStaffing);
    }
    let ghost pool = dto.employees@;
    let ghost h = dto.nums_h as int;
    let mut days: Vec<DayDetail> = Vec::new();
    let mut recent: Vec<i32> = Vec::new();
    let mut d: i32 = 1;
    while d <= count
        invariant
            1 <= d <= count + 1,
            count == month_length(dto.month as int, dto.year as int),
            count <= 31,
            office == h,
            h >= 0,
            pool == dto.employees@,
            pool.len() >= office + 3,
            days@.len() == d - 1,
            d == 1 ==> recent@.len() == 0,
            d > 1 ==> recent@ == days@[d - 2].value@[2].value@,
            forall|e: int|
                0 <= e < days@.len() ==> {
                    &&& (#[trigger] days@[e]).day == e + 1
                    &&& day_layout(days@[e].value@, h)
                    &&& drawn_from(days@[e].value@, pool)
                    &&& pool.no_duplicates() ==> day_members(days@[e].value@).no_duplicates()
                },
            rest_ok(days@),
            two_distinct(pool) ==> coverage_ok(days@),
        decreases count + 1 - d,
    {
        let ghost before = days@;
        let shifts = assign_day(&dto.employees, office, &recent, rng);
        let ghost today = shifts@;
        proof {
            lemma_layout_groups(today, h);
            if d > 1 {
                lemma_layout_groups(before[d - 2].value@, h);
            }
            if two_distinct(pool) {
                let (i, j) = choose|i: int, j: int|
                    0 <= i < pool.len() && 0 <= j < pool.len() && pool[i] != pool[j];
                assert(pool.contains(pool[i]));
                assert(pool.contains(pool[j]));
                if recent@.len() == 0 {
                    assert(!recent@.contains(pool[i]));
                } else if recent@[0] != pool[i] {
                    assert(recent@ =~= seq![recent@[0]]);
                    assert(!recent@.contains(pool[i]));
                } else {
                    assert(recent@ =~= seq![recent@[0]]);
                    assert(!recent@.contains(pool[j]));
                }
            }
        }
        recent = copy_ids(&shifts[2].value);
        days.push(DayDetail { day: d, value: shifts });
        proof {
            assert(days@ == before.push(days@[d - 1]));
            assert forall|e: int|
                1 <= e < days@.len() implies disjoint(
                group_of((#[trigger] days@[e]).value@, ShiftKind::Morning),
                group_of(days@[e - 1].value@, ShiftKind::Night),
            ) by {
                if e < d - 1 {
                    assert(before[e] == days@[e]);
                    assert(before[e - 1] == days@[e - 1]);
                }
            }
            if two_distinct(pool) {
                assert forall|e: int, s: int|
                    0 <= e < days@.len() && 0 <= s < days@[e].value.len() implies (
                    #[trigger] days@[e].value@[s]).value.len() > 0 by {
                    if e < d - 1 {
                        assert(before[e] == days@[e]);
                    }
                }
            }
        }
        d = d + 1;
    }
    proof {
        if !two_distinct(pool) {
            lemma_repeated_pool_unrested(days@, pool, h);
        }
    }
    Ok(days)
}

/// The idempotence guard over concrete values: whether `existing_rows`
/// already stored rows (at least one) reach a full roster of the request, or
/// one per day of the month and employee.
pub fn is_already_generated(existing_rows: u64, dto: &AutoScheduleDTO) -> (r: bool)
    requires
        valid_month(dto.month as int),
    ensures
        r == already_stored(*dto, existing_rows as int),
{
    let count = match days_in_month(dto.month, dto.year) {
        Some(n) => n,
        None => 0,
    };
    let len = dto.employees.len() as u128;
    assert(0 <= count <= 31);
    assert((count as u128) * len <= 31 * 0x1_0000_0000_0000_0000) by (nonlinear_arith)
        requires
            0 <= count <= 31,
            len <= 0x1_0000_0000_0000_0000,
    ;
    let need: u128 = (count as u128) * len;
    assert(-31 * 0x8000_0000 <= (count as i128) * (dto.nums_h as i128 + 3) <= 31 * 0x8000_0003)
        by (nonlinear_arith)
        requires
            0 <= count <= 31,
            -0x8000_0000 <= dto.nums_h < 0x8000_0000,
    ;
    let full: i128 = (count as i128) * (dto.nums_h as i128 + 3);
    existing_rows > 0 && ((existing_rows as u128) >= need || (existing_rows as i128) >= full)
}

/// Generates the roster of a month: checks the request, refuses a month
/// that is already stored (`existing_rows` rows), then draws months with a
/// generator seeded by `seed` until one passes [`verify_valid_schedule`], at
/// most `max_attempts` times.
///
/// A pool with two different employees never needs more than one attempt;
/// a pool of one employee repeated can never satisfy the rest rule.
pub fn generate_schedule(dto: &AutoScheduleDTO, existing_rows: u64, seed: u64, max_attempts: u32) -> (r:
    Result<Vec<DayDetail>, RosterError>)
    ensures
        r == Err::<Vec<DayDetail>, RosterError>(RosterError::InvalidMonth) <==> !valid_month(
            dto.month as int,
        ),
        r == Err::<Vec<DayDetail>, RosterError>(RosterError::InvalidHeadcount) <==> valid_month(
            dto.month as int,
        ) && dto.nums_h < 0,
        r == Err::<Vec<DayDetail>, RosterError>(RosterError::AlreadyGenerated) <==> valid_month(
            dto.month as int,
        ) && dto.nums_h >= 0 && already_stored(*dto, existing_rows as int),
        r == Err::<Vec<DayDetail>, RosterError>(RosterError::InsufficientStaffing) <==> valid_month(
            dto.month as int,
        ) && dto.nums_h >= 0 && !already_stored(*dto, existing_rows as int)
            && dto.employees.len() < dto.nums_h + 3,
        r == Err::<Vec<DayDetail>, RosterError>(RosterError::UnsatisfiableSchedule) <==> request_error(
            *dto,
        ) is None && !already_stored(*dto, existing_rows as int) && (!two_distinct(
            dto.employees@,
        ) || max_attempts == 0),
        r matches Ok(days) ==> month_shape(days@, *dto) && valid_roster(days@),
        request_error(*dto) is None && !already_stored(*dto, existing_rows as int) && two_distinct(
            dto.employees@,
        ) && max_attempts > 0 ==> r is Ok,
{
    if days_in_month(dto.month, dto.year).is_none() {
        return Err(RosterError::InvalidMonth);
    }
    if dto.nums_h < 0 {
        return Err(RosterError::InvalidHeadcount);
    }
    if is_already_generated(existing_rows, dto) {
        return Err(RosterError::AlreadyGenerated);
    }
    if dto.employees.len() < (dto.nums_h as usize) + 3 {
        return Err(RosterError::InsufficientStaffing);
    }
    let mut rng = seeded_rng(seed);
    let mut attempt: u32 = 0;
    while attempt < max_attempts
        invariant
            valid_month(dto.month as int),
            dto.nums_h >= 0,
            !already_stored(*dto, existing_rows as int),
            request_error(*dto) is None,
            attempt <= max_attempts,
            attempt > 0 ==> !two_distinct(dto.employees@),
        decreases max_attempts - attempt,
    {
        match create_sample_schedule(dto, &mut rng) {
            Err(e) => {
                return Err(e);
            },
            Ok(days) => {
                if verify_valid_schedule(&days) {
                    return Ok(days);
                }
            },
        }
        attempt = attempt + 1;
    }
    Err(RosterError::UnsatisfiableSchedule)
}

} // verus!
