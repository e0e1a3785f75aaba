use vstd::prelude::*;
use crate::calendar::{days_in_month, month_length, valid_month};
use crate::roster::{DayDetail, RosterError, ShiftDetail};
use crate::shift::{code_of, store_id_of, ShiftKind};

verus! {

/// One row as storage returns it: an employee, a day of the month and the
/// storage identifier of a shift.
#[derive(Clone, Copy, Debug, PartialEq, Eq, Structural)]
pub struct StoredRow {
    pub employee_id: i32,
    pub day: i32,
    pub shift_id: i32,
}

/// A month and year asked for by a client.
#[derive(Clone, Copy, Debug, PartialEq, Eq, Structural)]
pub struct Info {
    pub month: i32,
    pub year: i32,
}

/// The shift kinds of a day in the order a day lists them.
pub open spec fn kind_at(s: int) -> ShiftKind {
    if s == 0 {
        ShiftKind::Morning
    } else if s == 1 {
        ShiftKind::Afternoon
    } else if s == 2 {
        ShiftKind::Night
    } else {
        ShiftKind::Office
    }
}

/// The employees that `rows` put on shift `k` on `day`, in row order.
pub open spec fn ids_on(rows: Seq<StoredRow>, day: int, k: ShiftKind) -> Seq<i32>
    decreases rows.len(),
{
    if rows.len() == 0 {
        Seq::empty()
    } else {
        let prev = ids_on(rows.drop_last(), day, k);
        if rows.last().day == day && rows.last().shift_id == store_id_of(k) {
            prev.push(rows.last().employee_id)
        } else {
            prev
        }
    }
}

/// The employees that `rows` put on shift `k` on `day`, in row order.
pub fn ids_on_day(rows: &Vec<StoredRow>, day: i32, k: ShiftKind) -> (r: Vec<i32>)
    ensures
        r@ == ids_on(rows@, day as int, k),
{
    let id = k.store_id();
    let mut r: Vec<i32> = Vec::new();
    let mut i: usize = 0;
    while i < rows.len()
        invariant
            i <= rows.len(),
            id == store_id_of(k),
            r@ == ids_on(rows@.subrange(0, i as int), day as int, k),
        decreases rows.len() - i,
    {
        if rows[i].day == day && rows[i].shift_id == id {
            r.push(rows[i].employee_id);
        }
        i = i + 1;
        assert(rows@.subrange(0, i as int).drop_last() =~= rows@.subrange(0, i - 1));
    }
    assert(rows@.subrange(0, rows@.len() as int) =~= rows@);
    r
}

/// Rebuilds a stored month: for every day of the month, in order, its
/// Morning, Afternoon, Night and Office groups as `rows` give them. Rows of
/// days outside the month and of unknown shifts are left out.
pub fn group_stored_rows(rows: &Vec<StoredRow>, month: i32, year: i32) -> (r: Result<
    Vec<DayDetail>,
    RosterError,
>)
    ensures
        r is Err <==> !valid_month(month as int),
        r matches Err(e) ==> e == RosterError::InvalidMonth,
        r matches Ok(days) ==> {
            &&& days@.len() == month_length(month as int, year as int)
            &&& forall|d: int|
                0 <= d < days@.len() ==> {
                    &&& (#[trigger] days@[d]).day == d + 1
                    &&& days@[d].value@.len() == 4
                    &&& forall|s: int|
                        0 <= s < 4 ==> (#[trigger] days@[d].value@[s]).key == kind_at(s)
                            && days@[d].value@[s].value@ == ids_on(rows@, d + 1, kind_at(s))
                }
        },
{
    let count = match days_in_month(month, year) {
        Some(n) => n,
        None => {
            return Err(RosterError::InvalidMonth);
        },
    };
    let kinds: [ShiftKind; 4] = [
        ShiftKind::Morning,
        ShiftKind::Afternoon,
        ShiftKind::Night,
        ShiftKind::Office,
    ];
    let mut days: Vec<DayDetail> = Vec::new();
    let mut d: i32 = 1;
    while d <= count
        invariant
            1 <= d <= count + 1,
            count <= 31,
            kinds@ == seq![ShiftKind::Morning, ShiftKind::Afternoon, ShiftKind::Night, ShiftKind::Office],
            days@.len() == d - 1,
            forall|e: int|
                0 <= e < days@.len() ==> {
                    &&& (#[trigger] days@[e]).day == e + 1
                    &&& days@[e].value@.len() == 4
                    &&& forall|s: int|
                        0 <= s < 4 ==> (#[trigger] days@[e].value@[s]).key == kind_at(s)
                            && days@[e].value@[s].value@ == ids_on(rows@, e + 1, kind_at(s))
                },
        decreases count + 1 - d,
    {
        let mut shifts: Vec<ShiftDetail> = Vec::new();
        let mut s: usize = 0;
        while s < 4
            invariant
                s <= 4,
                kinds@ == seq![ShiftKind::Morning, ShiftKind::Afternoon, ShiftKind::Night, ShiftKind::Office],
                shifts@.len() == s,
                forall|t: int|
                    0 <= t < s ==> (#[trigger] shifts@[t]).key == kind_at(t) && shifts@[t].value@
                        == ids_on(rows@, d as int, kind_at(t)),
            decreases 4 - s,
        {
            let k = kinds[s];
            assert(k == kind_at(s as int));
            let ids = ids_on_day(rows, d, k);
            shifts.push(ShiftDetail { key: k, value: ids });
            s = s + 1;
        }
        let ghost before = days@;
        days.push(DayDetail { day: d, value: shifts });
        assert forall|e: int| 0 <= e < days@.len() - 1 implies days@[e] == before[e] by {}
        d = d + 1;
    }
    Ok(days)
}

/// The code shown for a stored shift identifier; `N` for one that names no
/// shift.
pub open spec fn code_of_store_id(id: i32) -> char {
    if id == 4 {
        code_of(ShiftKind::Morning)
    } else if id == 3 {
        code_of(ShiftKind::Afternoon)
    } else if id == 2 {
        code_of(ShiftKind::Night)
    } else if id == 1 {
        code_of(ShiftKind::Office)
    } else {
        'N'
    }
}

/// The code shown for `employee` on `day`: that of the last row for them on
/// that day, or `N` when there is none.
pub open spec fn cell_code(rows: Seq<StoredRow>, day: int, employee: i32) -> char
    decreases rows.len(),
{
    if rows.len() == 0 {
        'N'
    } else if rows.last().day == day && rows.last().employee_id == employee {
        code_of_store_id(rows.last().shift_id)
    } else {
        cell_code(rows.drop_last(), day, employee)
    }
}

/// How many times `c` occurs in `s`.
pub open spec fn count_of(s: Seq<char>, c: char) -> nat
    decreases s.len(),
{
    if s.len() == 0 {
        0
    } else {
        count_of(s.drop_last(), c) + if s.last() == c { 1nat } else { 0nat }
    }
}

/// One employee's line of the monthly export: a code for each day and the
/// totals of each code.
#[derive(Clone, Debug)]
pub struct ExportLine {
    pub employee_id: i32,
    pub cells: Vec<char>,
    pub total_s: u32,
    pub total_c: u32,
    pub total_d: u32,
    pub total_h: u32,
    pub total_n: u32,
    /// Days with any shift.
    pub total: u32,
}

/// The code shown for a stored shift identifier.
pub fn store_id_code(id: i32) -> (r: char)
    ensures
        r == code_of_store_id(id),
{
    match ShiftKind::from_store_id(id) {
        Some(k) => k.code(),
        None => 'N',
    }
}

/// The code shown for `employee` on `day`.
pub fn day_cell(rows: &Vec<StoredRow>, day: i32, employee: i32) -> (r: char)
    ensures
        r == cell_code(rows@, day as int, employee),
{
    let mut r: char = 'N';
    let mut i: usize = 0;
    while i < rows.len()
        invariant
            i <= rows.len(),
            r == cell_code(rows@.subrange(0, i as int), day as int, employee),
        decreases rows.len() - i,
    {
        if rows[i].day == day && rows[i].employee_id == employee {
            r = store_id_code(rows[i].shift_id);
        }
        i = i + 1;
        assert(rows@.subrange(0, i as int).drop_last() =~= rows@.subrange(0, i - 1));
    }
    assert(rows@.subrange(0, rows@.len() as int) =~= rows@);
    r
}

/// The export line of `employee` over days 1..=`day_count`.
pub fn export_line(rows: &Vec<StoredRow>, employee: i32, day_count: i32) -> (line: ExportLine)
    requires
        0 <= day_count <= 31,
    ensures
        line.employee_id == employee,
        line.cells@.len() == day_count,
        forall|d: int|
            0 <= d < day_count ==> #[trigger] line.cells@[d] == cell_code(rows@, d + 1, employee),
        line.total_s == count_of(line.cells@, 'S'),
        line.total_c == count_of(line.cells@, 'C'),
        line.total_d == count_of(line.cells@, 'D'),
        line.total_h == count_of(line.cells@, 'H'),
        line.total_n == count_of(line.cells@, 'N'),
        line.total == line.total_s + line.total_c + line.total_d + line.total_h,
{
    let mut cells: Vec<char> = Vec::new();
    let mut s: u32 = 0;
    let mut c: u32 = 0;
    let mut n: u32 = 0;
    let mut h: u32 = 0;
    let mut none: u32 = 0;
    let mut d: i32 = 1;
    while d <= day_count
        invariant
            1 <= d <= day_count + 1,
            day_count <= 31,
            cells@.len() == d - 1,
            forall|e: int| 0 <= e < d - 1 ==> #[trigger] cells@[e] == cell_code(rows@, e + 1, employee),
            s == count_of(cells@, 'S'),
            c == count_of(cells@, 'C'),
            n == count_of(cells@, 'D'),
            h == count_of(cells@, 'H'),
            none == count_of(cells@, 'N'),
            s <= cells@.len() && c <= cells@.len() && n <= cells@.len() && h <= cells@.len() && none <= cells@.len(),
            s + c + n + h <= cells@.len(),
        decreases day_count + 1 - d,
    {
        let code = day_cell(rows, d, employee);
        let ghost before = cells@;
        cells.push(code);
        assert(cells@.drop_last() =~= before);
        if code == 'S' {
            s = s + 1;
        } else if code == 'C' {
            c = c + 1;
        } else if code == 'D' {
            n = n + 1;
        } else if code == 'H' {
            h = h + 1;
        } else if code == 'N' {
            none = none + 1;
        }
        d = d + 1;
    }
    ExportLine {
        employee_id: employee,
        cells,
        total_s: s,
        total_c: c,
        total_d: n,
        total_h: h,
        total_n: none,
        total: s + c + n + h,
    }
}

/// The export of a stored month: one line per employee, in the given order,
/// over every day of the month.
pub fn export_month(rows: &Vec<StoredRow>, employees: &Vec<i32>, month: i32, year: i32) -> (r: Result<
    Vec<ExportLine>,
    RosterError,
>)
    ensures
        r is Err <==> !valid_month(month as int),
        r matches Err(e) ==> e == RosterError::InvalidMonth,
        r matches Ok(lines) ==> lines@.len() == employees@.len() && forall|i: int|
            0 <= i < lines@.len() ==> {
                let line = #[trigger] lines@[i];
                &&& line.employee_id == employees@[i]
                &&& line.cells@.len() == month_length(month as int, year as int)
                &&& forall|d: int|
                    0 <= d < line.cells@.len() ==> #[trigger] line.cells@[d] == cell_code(
                        rows@,
                        d + 1,
                        employees@[i],
                    )
                &&& line.total_s == count_of(line.cells@, 'S')
                &&& line.total_c == count_of(line.cells@, 'C')
                &&& line.total_d == count_of(line.cells@, 'D')
                &&& line.total_h == count_of(line.cells@, 'H')
                &&& line.total_n == count_of(line.cells@, 'N')
                &&& line.total == line.total_s + line.total_c + line.total_d + line.total_h
            },
{
    let count = match days_in_month(month, year) {
        Some(n) => n,
        None => {
            return Err(RosterError::InvalidMonth);
        },
    };
    let mut lines: Vec<ExportLine> = Vec::new();
    let mut i: usize = 0;
    while i < employees.len()
        invariant
            i <= employees.len(),
            count == month_length(month as int, year as int),
            0 <= count <= 31,
            lines@.len() == i,
            forall|j: int|
                0 <= j < i ==> {
                    let line = #[trigger] lines@[j];
                    &&& line.employee_id == employees@[j]
                    &&& line.cells@.len() == count
                    &&& forall|d: int|
                        0 <= d < line.cells@.len() ==> #[trigger] line.cells@[d] == cell_code(
                            rows@,
                            d + 1,
                            employees@[j],
                        )
                    &&& line.total_s == count_of(line.cells@, 'S')
                    &&& line.total_c == count_of(line.cells@, 'C')
                    &&& line.total_d == count_of(line.cells@, 'D')
                    &&& line.total_h == count_of(line.cells@, 'H')
                    &&& line.total_n == count_of(line.cells@, 'N')
                    &&& line.total == line.total_s + line.total_c + line.total_d + line.total_h
                },
        decreases employees.len() - i,
    {
        let line = export_line(rows, employees[i], count);
        lines.push(line);
        i = i + 1;
    }
    Ok(lines)
}

} // verus!
