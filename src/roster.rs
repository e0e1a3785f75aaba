use vstd::prelude::*;
use crate::shift::ShiftKind;

verus! {

/// The employees assigned to one kind of shift on one day.
#[derive(Clone, Debug)]
pub struct ShiftDetail {
    pub key: ShiftKind,
    pub value: Vec<i32>,
}

/// The employees, by display name, assigned to one kind of shift on one day.
#[derive(Clone, Debug)]
pub struct ShiftDetailName {
    pub key: ShiftKind,
    pub value: Vec<String>,
}

/// One day of a month roster: its day of the month and its shift groups.
#[derive(Clone, Debug)]
pub struct DayDetail {
    pub day: i32,
    pub value: Vec<ShiftDetail>,
}

/// One day of a month roster with employees given by display name.
#[derive(Clone, Debug)]
pub struct DayDetailName {
    pub day: i32,
    pub value: Vec<ShiftDetailName>,
}

/// A request to generate the roster of one month.
#[derive(Clone, Debug)]
pub struct AutoScheduleDTO {
    /// The pool of employee identifiers to draw from.
    pub employees: Vec<i32>,
    pub month: i32,
    pub year: i32,
    /// How many employees work Office hours each day.
    pub nums_h: i32,
}

/// Why a roster could not be produced.
#[derive(Clone, Copy, Debug, PartialEq, Eq, Structural)]
pub enum RosterError {
    /// The month is outside 1..=12.
    InvalidMonth,
    /// The Office headcount is negative.
    InvalidHeadcount,
    /// A roster for the month is already stored.
    AlreadyGenerated,
    /// The pool is smaller than one day's headcount.
    InsufficientStaffing,
    /// No drawn month passed validation within the attempt bound.
    UnsatisfiableSchedule,
}

/// The message a client is shown for each error.
pub open spec fn error_message(e: RosterError) -> Seq<char> {
    match e {
        RosterError::InvalidMonth => "Invalid Month"@,
        RosterError::InvalidHeadcount => "Invalid office headcount"@,
        RosterError::AlreadyGenerated => "Already generated"@,
        RosterError::InsufficientStaffing => "Not enough employees for one day"@,
        RosterError::UnsatisfiableSchedule => "No valid schedule found"@,
    }
}

impl RosterError {
    /// A short message for the client.
    pub fn message(&self) -> (r: &'static str)
        ensures
            r@ == error_message(*self),
    {
        match self {
            RosterError::InvalidMonth => "Invalid Month",
            RosterError::InvalidHeadcount => "Invalid office headcount",
            RosterError::AlreadyGenerated => "Already generated",
            RosterError::InsufficientStaffing => "Not enough employees for one day",
            RosterError::UnsatisfiableSchedule => "No valid schedule found",
        }
    }
}

/// The employees of the first group of kind `k` in a day, or none when the
/// day has no such group.
pub open spec fn group_of(shifts: Seq<ShiftDetail>, k: ShiftKind) -> Seq<i32>
    decreases shifts.len(),
{
    if shifts.len() == 0 {
        Seq::empty()
    } else if shifts[0].key == k {
        shifts[0].value@
    } else {
        group_of(shifts.drop_first(), k)
    }
}

/// No member of `a` is in `b`.
pub open spec fn disjoint(a: Seq<i32>, b: Seq<i32>) -> bool {
    forall|i: int| 0 <= i < a.len() ==> !b.contains(#[trigger] a[i])
}

/// Nobody works the Morning shift the day after working the Night shift.
pub open spec fn rest_ok(days: Seq<DayDetail>) -> bool {
    forall|d: int|
        1 <= d < days.len() ==> disjoint(
            group_of((#[trigger] days[d]).value@, ShiftKind::Morning),
            group_of(days[d - 1].value@, ShiftKind::Night),
        )
}

/// Every shift group present on every day has someone in it.
pub open spec fn coverage_ok(days: Seq<DayDetail>) -> bool {
    forall|d: int, s: int|
        0 <= d < days.len() && 0 <= s < days[d].value.len() ==> (
        #[trigger] days[d].value@[s]).value.len() > 0
}

/// A roster that a month may be accepted with.
pub open spec fn valid_roster(days: Seq<DayDetail>) -> bool {
    rest_ok(days) && coverage_ok(days)
}

/// The shape of one generated day: Morning, Afternoon and Night groups in
/// that order, then an Office group of `office` employees when `office` is
/// positive. Afternoon and Night hold one employee each; Morning holds at
/// most one, none only when nobody rested could take the place.
pub open spec fn day_layout(day: Seq<ShiftDetail>, office: int) -> bool {
    &&& day.len() == if office > 0 { 4int } else { 3int }
    &&& day[0].key == ShiftKind::Morning
    &&& day[1].key == ShiftKind::Afternoon
    &&& day[2].key == ShiftKind::Night
    &&& day[0].value.len() <= 1
    &&& day[1].value.len() == 1
    &&& day[2].value.len() == 1
    &&& office > 0 ==> day[3].key == ShiftKind::Office && day[3].value.len() == office
}

/// Every employee named in the day is one of `pool`.
pub open spec fn drawn_from(day: Seq<ShiftDetail>, pool: Seq<i32>) -> bool {
    forall|s: int, y: i32|
        0 <= s < day.len() && #[trigger] day[s].value@.contains(y) ==> pool.contains(y)
}

/// Everyone a day assigns, group after group.
pub open spec fn day_members(day: Seq<ShiftDetail>) -> Seq<i32>
    decreases day.len(),
{
    if day.len() == 0 {
        Seq::empty()
    } else {
        day_members(day.drop_last()) + day.last().value@
    }
}

/// The pool holds at least two different employees.
pub open spec fn two_distinct(pool: Seq<i32>) -> bool {
    exists|i: int, j: int| 0 <= i < pool.len() && 0 <= j < pool.len() && pool[i] != pool[j]
}

/// Skipping groups of other kinds does not change which group is found.
pub proof fn lemma_group_of_skip(s: Seq<ShiftDetail>, k: ShiftKind, i: int)
    requires
        0 <= i <= s.len(),
        forall|j: int| 0 <= j < i ==> (#[trigger] s[j]).key != k,
    ensures
        group_of(s, k) == group_of(s.subrange(i, s.len() as int), k),
    decreases i,
{
    if i == 0 {
        assert(s.subrange(0, s.len() as int) =~= s);
    } else {
        assert(s[0].key != k);
        lemma_group_of_skip(s.drop_first(), k, i - 1);
        assert(s.drop_first().subrange(i - 1, s.drop_first().len() as int) =~= s.subrange(
            i,
            s.len() as int,
        ));
    }
}

} // verus!
