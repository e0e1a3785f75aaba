use rand::rngs::StdRng;
use rand::SeedableRng;
use shift_roster::{
    create_sample_schedule, days_in_month, first_invalid_day, flatten_roster, generate_schedule, is_already_generated,
    is_leap_year, verify_valid_schedule, AutoScheduleDTO, DayDetail, RosterError,
    ShiftDetail, ShiftKind, DEFAULT_ATTEMPTS,
};

fn request(employees: Vec<i32>, month: i32, year: i32, nums_h: i32) -> AutoScheduleDTO {
    AutoScheduleDTO { employees, month, year, nums_h }
}

fn group(day: &DayDetail, kind: ShiftKind) -> Vec<i32> {
    day.value.iter().find(|s| s.key == kind).map(|s| s.value.clone()).unwrap_or_default()
}

fn assert_rested(days: &[DayDetail]) {
    for d in 1..days.len() {
        let night = group(&days[d - 1], ShiftKind::Night);
        for e in group(&days[d], ShiftKind::Morning) {
            assert!(!night.contains(&e), "day {} morning holds {} from the night before", d + 1, e);
        }
    }
}

#[test]
fn it_works() {
    let result = 2 + 2;
    assert_eq!(result, 4);
}

#[test]
fn test_automate_create_schedule() {
    let dto = AutoScheduleDTO { employees: vec![1, 2, 3, 5, 7, 8, 9, 11], month: 1, year: 2024, nums_h: 2 };
    let mut rng = StdRng::seed_from_u64(11);
    let rs = create_sample_schedule(&dto, &mut rng);
    assert!(rs.is_ok())
}

#[test]
fn january_2024_roster_is_full_and_rested() {
    let pool = vec![1, 2, 3, 5, 7, 8, 9, 11];
    let dto = request(pool.clone(), 1, 2024, 2);
    for seed in 0..20u64 {
        let days = generate_schedule(&dto, 0, seed, DEFAULT_ATTEMPTS).unwrap();
        assert_eq!(days.len(), 31);
        for (i, day) in days.iter().enumerate() {
            assert_eq!(day.day, i as i32 + 1);
            let keys: Vec<ShiftKind> = day.value.iter().map(|s| s.key).collect();
            assert_eq!(keys, vec![ShiftKind::Morning, ShiftKind::Afternoon, ShiftKind::Night, ShiftKind::Office]);
            let sizes: Vec<usize> = day.value.iter().map(|s| s.value.len()).collect();
            assert_eq!(sizes, vec![1, 1, 1, 2]);
            let mut seen: Vec<i32> = day.value.iter().flat_map(|s| s.value.clone()).collect();
            assert!(seen.iter().all(|e| pool.contains(e)));
            seen.sort();
            seen.dedup();
            assert_eq!(seen.len(), 5);
        }
        assert_rested(&days);
        assert!(verify_valid_schedule(&days));
    }
}

#[test]
fn february_length_follows_leap_years() {
    assert_eq!(days_in_month(2, 2023), Some(28));
    assert_eq!(days_in_month(2, 2024), Some(29));
    assert_eq!(days_in_month(2, 1900), Some(28));
    assert_eq!(days_in_month(2, 2000), Some(29));
    assert_eq!(days_in_month(4, 2023), Some(30));
    assert_eq!(days_in_month(12, 2023), Some(31));
    assert_eq!(days_in_month(0, 2023), None);
    assert_eq!(days_in_month(13, 2023), None);
    assert!(is_leap_year(2024));
    assert!(!is_leap_year(2100));
    let pool = vec![1, 2, 3, 4, 5];
    let feb_2023 = generate_schedule(&request(pool.clone(), 2, 2023, 1), 0, 3, DEFAULT_ATTEMPTS).unwrap();
    assert_eq!(feb_2023.len(), 28);
    let feb_2024 = generate_schedule(&request(pool, 2, 2024, 1), 0, 3, DEFAULT_ATTEMPTS).unwrap();
    assert_eq!(feb_2024.len(), 29);
    assert_eq!(feb_2024[28].day, 29);
}

#[test]
fn second_generation_is_refused() {
    let dto = request(vec![1, 2, 3, 4, 5], 3, 2024, 2);
    let days = generate_schedule(&dto, 0, 5, DEFAULT_ATTEMPTS).unwrap();
    let rows = flatten_roster(&days);
    assert_eq!(rows.len(), 31 * 5);
    assert!(is_already_generated(rows.len() as u64, &dto));
    assert_eq!(generate_schedule(&dto, rows.len() as u64, 6, DEFAULT_ATTEMPTS).unwrap_err(), RosterError::AlreadyGenerated);
}

#[test]
fn guard_counts_full_rosters_and_staff_rows() {
    let dto = request(vec![1, 2, 3, 5, 7, 8, 9, 11], 1, 2024, 2);
    assert!(!is_already_generated(31 * 5 - 1, &dto));
    assert!(is_already_generated(31 * 5, &dto));
    assert!(is_already_generated(31 * 8, &dto));
    assert_eq!(generate_schedule(&dto, 31 * 8, 1, DEFAULT_ATTEMPTS).unwrap_err(), RosterError::AlreadyGenerated);
    assert_eq!(generate_schedule(&dto, 31 * 5, 1, DEFAULT_ATTEMPTS).unwrap_err(), RosterError::AlreadyGenerated);
    assert!(generate_schedule(&dto, 31 * 5 - 1, 1, DEFAULT_ATTEMPTS).is_ok());
    assert!(!is_already_generated(0, &request(vec![], 1, 2024, 0)));
}

#[test]
fn second_generation_of_january_2024_is_refused() {
    let dto = request(vec![1, 2, 3, 5, 7, 8, 9, 11], 1, 2024, 2);
    let days = generate_schedule(&dto, 0, 17, DEFAULT_ATTEMPTS).unwrap();
    let stored = flatten_roster(&days).len() as u64;
    assert_eq!(stored, 31 * 5);
    assert_eq!(generate_schedule(&dto, stored, 18, DEFAULT_ATTEMPTS).unwrap_err(), RosterError::AlreadyGenerated);
}

#[test]
fn small_pool_is_insufficient() {
    let dto = request(vec![1, 2, 3, 4], 1, 2024, 2);
    assert_eq!(generate_schedule(&dto, 0, 1, DEFAULT_ATTEMPTS).unwrap_err(), RosterError::InsufficientStaffing);
    assert_eq!(generate_schedule(&dto, 0, 1, 0).unwrap_err(), RosterError::InsufficientStaffing);
    let mut rng = StdRng::seed_from_u64(1);
    assert_eq!(create_sample_schedule(&dto, &mut rng).unwrap_err(), RosterError::InsufficientStaffing);
    let empty = request(vec![], 1, 2024, 0);
    assert_eq!(generate_schedule(&empty, 0, 1, DEFAULT_ATTEMPTS).unwrap_err(), RosterError::InsufficientStaffing);
}

#[test]
fn bad_month_and_headcount_are_rejected() {
    let pool = vec![1, 2, 3, 4, 5];
    assert_eq!(generate_schedule(&request(pool.clone(), 13, 2024, 1), 0, 1, 5).unwrap_err(), RosterError::InvalidMonth);
    assert_eq!(generate_schedule(&request(pool.clone(), 0, 2024, 1), 0, 1, 5).unwrap_err(), RosterError::InvalidMonth);
    assert_eq!(generate_schedule(&request(pool.clone(), 5, 2024, -1), 0, 1, 5).unwrap_err(), RosterError::InvalidHeadcount);
    let mut rng = StdRng::seed_from_u64(2);
    assert_eq!(create_sample_schedule(&request(pool, 13, 2024, 1), &mut rng).unwrap_err(), RosterError::InvalidMonth);
    assert_eq!(RosterError::InvalidMonth.message(), "Invalid Month");
}

#[test]
fn one_repeated_employee_is_unsatisfiable() {
    let dto = request(vec![4, 4, 4], 1, 2024, 0);
    assert_eq!(generate_schedule(&dto, 0, 1, 10).unwrap_err(), RosterError::UnsatisfiableSchedule);
    let mut rng = StdRng::seed_from_u64(1);
    let month = create_sample_schedule(&dto, &mut rng).unwrap();
    assert_eq!(month[0].value[0].value, vec![4]);
    assert!(month[1].value[0].value.is_empty());
    assert!(!verify_valid_schedule(&month));
}

#[test]
fn zero_attempts_give_up_at_once() {
    let dto = request(vec![1, 2, 3], 6, 2024, 0);
    assert_eq!(generate_schedule(&dto, 0, 1, 0).unwrap_err(), RosterError::UnsatisfiableSchedule);
}

#[test]
fn no_office_group_without_office_headcount() {
    let dto = request(vec![1, 2, 3], 6, 2024, 0);
    let days = generate_schedule(&dto, 0, 9, DEFAULT_ATTEMPTS).unwrap();
    assert_eq!(days.len(), 30);
    for day in &days {
        let keys: Vec<ShiftKind> = day.value.iter().map(|s| s.key).collect();
        assert_eq!(keys, vec![ShiftKind::Morning, ShiftKind::Afternoon, ShiftKind::Night]);
        assert!(day.value.iter().all(|s| s.value.len() == 1));
    }
    assert_rested(&days);
}

#[test]
fn same_seed_same_month() {
    let dto = request(vec![1, 2, 3, 4, 5, 6], 7, 2025, 1);
    let a = generate_schedule(&dto, 0, 42, DEFAULT_ATTEMPTS).unwrap();
    let b = generate_schedule(&dto, 0, 42, DEFAULT_ATTEMPTS).unwrap();
    assert_eq!(flatten_roster(&a), flatten_roster(&b));
}

fn day(d: i32, groups: Vec<(ShiftKind, Vec<i32>)>) -> DayDetail {
    DayDetail { day: d, value: groups.into_iter().map(|(key, value)| ShiftDetail { key, value }).collect() }
}

#[test]
fn validator_rejects_morning_after_night() {
    let days = vec![
        day(1, vec![(ShiftKind::Morning, vec![1]), (ShiftKind::Afternoon, vec![2]), (ShiftKind::Night, vec![3])]),
        day(2, vec![(ShiftKind::Morning, vec![3]), (ShiftKind::Afternoon, vec![1]), (ShiftKind::Night, vec![2])]),
    ];
    assert!(!verify_valid_schedule(&days));
}

#[test]
fn validator_accepts_rested_full_month() {
    let days = vec![
        day(1, vec![(ShiftKind::Morning, vec![1]), (ShiftKind::Afternoon, vec![2]), (ShiftKind::Night, vec![3])]),
        day(2, vec![(ShiftKind::Morning, vec![2]), (ShiftKind::Afternoon, vec![3]), (ShiftKind::Night, vec![1])]),
    ];
    assert!(verify_valid_schedule(&days));
    assert!(verify_valid_schedule(&vec![]));
}

#[test]
fn validator_rejects_empty_group() {
    let days = vec![
        day(1, vec![(ShiftKind::Morning, vec![1]), (ShiftKind::Afternoon, vec![2]), (ShiftKind::Night, vec![3])]),
        day(2, vec![(ShiftKind::Morning, vec![2]), (ShiftKind::Office, vec![]), (ShiftKind::Night, vec![1])]),
    ];
    assert!(!verify_valid_schedule(&days));
}

#[test]
fn validator_reads_first_group_of_a_kind() {
    let days = vec![
        day(1, vec![(ShiftKind::Night, vec![3]), (ShiftKind::Night, vec![1])]),
        day(2, vec![(ShiftKind::Morning, vec![1]), (ShiftKind::Morning, vec![3])]),
    ];
    assert!(verify_valid_schedule(&days));
    let days = vec![day(1, vec![(ShiftKind::Night, vec![3])]), day(2, vec![(ShiftKind::Afternoon, vec![3])])];
    assert!(verify_valid_schedule(&days));
}

#[test]
fn first_invalid_day_points_at_the_fault() {
    let rested = vec![
        day(1, vec![(ShiftKind::Morning, vec![1]), (ShiftKind::Afternoon, vec![2]), (ShiftKind::Night, vec![3])]),
        day(2, vec![(ShiftKind::Morning, vec![2]), (ShiftKind::Afternoon, vec![3]), (ShiftKind::Night, vec![1])]),
        day(3, vec![(ShiftKind::Morning, vec![1]), (ShiftKind::Afternoon, vec![2]), (ShiftKind::Night, vec![3])]),
        day(4, vec![(ShiftKind::Morning, vec![]), (ShiftKind::Afternoon, vec![2]), (ShiftKind::Night, vec![3])]),
    ];
    assert_eq!(first_invalid_day(&rested[..2].to_vec()), None);
    assert_eq!(first_invalid_day(&rested), Some(2));
    let mut later = rested.clone();
    later[2].value[0].value = vec![2];
    assert_eq!(first_invalid_day(&later), Some(3));
    assert_eq!(first_invalid_day(&vec![]), None);
}
