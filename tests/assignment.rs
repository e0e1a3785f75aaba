use rand::rngs::StdRng;
use rand::SeedableRng;
use shift_roster::{
    assign_day, contains_id, copy_ids, enforce_rest, last_rested, split_day,
    take_from_end, ShiftKind,
};

#[test]
fn take_from_end_reads_backwards() {
    let mut pool = vec![1, 2, 3, 4, 5];
    assert_eq!(take_from_end(&mut pool, 2), vec![5, 4]);
    assert_eq!(pool, vec![1, 2, 3]);
    assert_eq!(take_from_end(&mut pool, 0), Vec::<i32>::new());
    assert_eq!(pool, vec![1, 2, 3]);
}

#[test]
fn last_rested_scans_from_the_end() {
    assert_eq!(last_rested(&vec![1, 2, 3, 4], &vec![4, 3]), Some(1));
    assert_eq!(last_rested(&vec![7, 3], &vec![3]), Some(0));
    assert_eq!(last_rested(&vec![3, 3], &vec![3]), None);
    assert_eq!(last_rested(&vec![], &vec![3]), None);
    assert!(contains_id(&vec![1, 2], 2));
    assert!(!contains_id(&vec![1, 2], 5));
    assert_eq!(copy_ids(&vec![4, 5]), vec![4, 5]);
}

#[test]
fn enforce_rest_swaps_in_a_rested_employee() {
    let mut remaining = vec![1, 2];
    let morning = enforce_rest(&vec![3], &mut remaining, &vec![3]);
    assert_eq!(morning, vec![2]);
    assert_eq!(remaining, vec![1, 3]);
}

#[test]
fn enforce_rest_reaches_the_front_of_the_pool() {
    let mut remaining = vec![1, 3];
    let morning = enforce_rest(&vec![3], &mut remaining, &vec![3]);
    assert_eq!(morning, vec![1]);
    assert_eq!(remaining, vec![3, 3]);
}

#[test]
fn enforce_rest_drops_without_replacement() {
    let mut remaining = vec![5, 6];
    let morning = enforce_rest(&vec![5], &mut remaining, &vec![5, 6]);
    assert!(morning.is_empty());
    assert_eq!(remaining, vec![5, 6]);
}

#[test]
fn enforce_rest_keeps_rested_members_first() {
    let mut remaining = vec![9, 8];
    let morning = enforce_rest(&vec![1, 4, 2], &mut remaining, &vec![4]);
    assert_eq!(morning, vec![1, 2, 8]);
    assert_eq!(remaining, vec![9, 4]);
    let mut untouched = vec![9];
    assert_eq!(enforce_rest(&vec![1], &mut untouched, &vec![]), vec![1]);
    assert_eq!(untouched, vec![9]);
}

#[test]
fn split_day_takes_groups_off_the_end() {
    let day = split_day(&vec![1, 2, 3, 4, 5, 6], 2, &vec![]);
    let groups: Vec<(ShiftKind, Vec<i32>)> = day.into_iter().map(|s| (s.key, s.value)).collect();
    assert_eq!(
        groups,
        vec![
            (ShiftKind::Morning, vec![6]),
            (ShiftKind::Afternoon, vec![5]),
            (ShiftKind::Night, vec![4]),
            (ShiftKind::Office, vec![3, 2]),
        ]
    );
}

#[test]
fn split_day_moves_last_nights_worker_to_afternoon() {
    let day = split_day(&vec![1, 2, 3, 4, 5], 0, &vec![5]);
    let groups: Vec<(ShiftKind, Vec<i32>)> = day.into_iter().map(|s| (s.key, s.value)).collect();
    assert_eq!(
        groups,
        vec![(ShiftKind::Morning, vec![4]), (ShiftKind::Afternoon, vec![5]), (ShiftKind::Night, vec![3])]
    );
}

#[test]
fn assign_day_shuffles_the_pool() {
    let pool: Vec<i32> = (1..=10).collect();
    let mut rng = StdRng::seed_from_u64(2024);
    let mut mornings = Vec::new();
    for _ in 0..20 {
        let day = assign_day(&pool, 2, &vec![], &mut rng);
        assert_eq!(day.len(), 4);
        let mut all: Vec<i32> = day.iter().flat_map(|s| s.value.clone()).collect();
        all.sort();
        all.dedup();
        assert_eq!(all.len(), 5);
        mornings.push(day[0].value[0]);
    }
    assert!(mornings.iter().any(|&m| m != 10));
}

#[test]
fn enforce_rest_takes_the_last_rested_and_requeues_the_member() {
    let mut remaining = vec![7, 2, 9, 4];
    let morning = enforce_rest(&vec![4], &mut remaining, &vec![4, 9]);
    assert_eq!(morning, vec![2]);
    assert_eq!(remaining, vec![7, 9, 4, 4]);
}

#[test]
fn split_day_reads_groups_after_an_empty_morning() {
    let day = split_day(&vec![6, 6, 6, 6], 1, &vec![6]);
    let groups: Vec<(ShiftKind, Vec<i32>)> = day.into_iter().map(|s| (s.key, s.value)).collect();
    assert_eq!(
        groups,
        vec![
            (ShiftKind::Morning, vec![]),
            (ShiftKind::Afternoon, vec![6]),
            (ShiftKind::Night, vec![6]),
            (ShiftKind::Office, vec![6]),
        ]
    );
}
