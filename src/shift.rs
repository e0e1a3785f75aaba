use vstd::prelude::*;

verus! {

/// The four kinds of shift a day is split into.
#[derive(Clone, Copy, Debug, PartialEq, Eq, Structural)]
pub enum ShiftKind {
    /// 06:00 to 14:00.
    Morning,
    /// 14:00 to 22:00.
    Afternoon,
    /// 22:00 to 06:00 the next day.
    Night,
    /// 08:00 to 18:00.
    Office,
}

/// The single-letter code of each shift kind.
pub open spec fn code_of(k: ShiftKind) -> char {
    match k {
        ShiftKind::Morning => 'S',
        ShiftKind::Afternoon => 'C',
        ShiftKind::Night => 'D',
        ShiftKind::Office => 'H',
    }
}

/// The identifier under which each shift kind is stored.
pub open spec fn store_id_of(k: ShiftKind) -> i32 {
    match k {
        ShiftKind::Morning => 4,
        ShiftKind::Afternoon => 3,
        ShiftKind::Night => 2,
        ShiftKind::Office => 1,
    }
}

impl ShiftKind {
    /// The single-letter code used at the storage and export boundary.
    pub fn code(&self) -> (r: char)
        ensures
            r == code_of(*self),
    {
        match self {
            ShiftKind::Morning => 'S',
            ShiftKind::Afternoon => 'C',
            ShiftKind::Night => 'D',
            ShiftKind::Office => 'H',
        }
    }

    /// Reads a single-letter code back.
    pub fn from_code(c: char) -> (r: Option<ShiftKind>)
        ensures
            r matches Some(k) ==> code_of(k) == c,
            r.is_none() <==> (c != 'S' && c != 'C' && c != 'D' && c != 'H'),
    {
        match c {
            'S' => Some(ShiftKind::Morning),
            'C' => Some(ShiftKind::Afternoon),
            'D' => Some(ShiftKind::Night),
            'H' => Some(ShiftKind::Office),
            _ => None,
        }
    }

    /// The identifier of the shift in storage.
    pub fn store_id(&self) -> (r: i32)
        ensures
            r == store_id_of(*self),
    {
        match self {
            ShiftKind::Morning => 4,
            ShiftKind::Afternoon => 3,
            ShiftKind::Night => 2,
            ShiftKind::Office => 1,
        }
    }

    /// Reads a storage identifier back; `None` for one that names no shift.
    pub fn from_store_id(id: i32) -> (r: Option<ShiftKind>)
        ensures
            r matches Some(k) ==> store_id_of(k) == id,
            r.is_none() <==> !(1 <= id <= 4),
    {
        match id {
            4 => Some(ShiftKind::Morning),
            3 => Some(ShiftKind::Afternoon),
            2 => Some(ShiftKind::Night),
            1 => Some(ShiftKind::Office),
            _ => None,
        }
    }
}

} // verus!
