//! Monthly shift-roster generation and validation.
//!
//! The library draws, for every day of a month, one employee for each of
//! the Morning, Afternoon and Night shifts and a configurable number for
//! Office hours, keeps anyone who worked the previous night off the next
//! morning, and accepts a month only once it passes the roster validator.
//!
//! - `calendar`: month lengths, leap-year aware.
//! - `shift`: the four shift kinds and their codes.
//! - `roster`: roster types and the rules a month must meet.
//! - `validator`: checks a month against those rules.
//! - `assigner`: drawing groups off a pool and the rest rule.
//! - `day`: one day's groups.
//! - `generator`: whole months, and the bounded generate-and-check search.
//! - `names`: months with display names in place of identifiers.
//! - `rows`: the rows storage keeps for a month.
//! - `report`: stored months read back and exported.
//! - `auth`, `response`: token claims, the manager check, response bodies.
pub mod assigner;
pub mod auth;
pub mod calendar;
pub mod day;
pub mod generator;
pub mod names;
mod random;
pub mod report;
pub mod response;
pub mod roster;
pub mod rows;
pub mod shift;
pub mod validator;

pub use assigner::{enforce_rest, last_rested, take_from_end};
pub use auth::{AuthError, IsManager, TokenClaims, TOKEN_LIFETIME_SECS};
pub use calendar::{days_in_month, is_leap_year};
pub use day::{assign_day, copy_ids, split_day};
pub use generator::{
    create_sample_schedule, generate_schedule, is_already_generated, lemma_accepted_headcounts,
    DEFAULT_ATTEMPTS,
};
pub use names::{lookup_name, name_group, name_roster, StaffName};
pub use report::{
    day_cell, export_line, export_month, group_stored_rows, ids_on_day, store_id_code, ExportLine,
    Info, StoredRow,
};
pub use response::{Page, ResponseBody};
pub use roster::{
    AutoScheduleDTO, DayDetail, DayDetailName, RosterError, ShiftDetail, ShiftDetailName,
};
pub use rows::{flatten_roster, lemma_regeneration_refused, ScheduleRow};
pub use shift::ShiftKind;
pub use validator::{contains_id, first_invalid_day, verify_valid_schedule};
