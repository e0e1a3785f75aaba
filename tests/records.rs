use shift_roster::{
    day_cell, export_line, export_month, flatten_roster, group_stored_rows, ids_on_day,
    store_id_code, lookup_name, name_group, name_roster, AuthError, DayDetail, IsManager, StaffName, Page, ResponseBody, RosterError,
    ScheduleRow, ShiftDetail, ShiftKind, StoredRow, TokenClaims, TOKEN_LIFETIME_SECS,
};

fn row(employee_id: i32, day: i32, shift_id: i32) -> StoredRow {
    StoredRow { employee_id, day, shift_id }
}

#[test]
fn shift_codes_and_store_ids() {
    let kinds = [ShiftKind::Morning, ShiftKind::Afternoon, ShiftKind::Night, ShiftKind::Office];
    let codes: Vec<char> = kinds.iter().map(|k| k.code()).collect();
    assert_eq!(codes, vec!['S', 'C', 'D', 'H']);
    let ids: Vec<i32> = kinds.iter().map(|k| k.store_id()).collect();
    assert_eq!(ids, vec![4, 3, 2, 1]);
    for k in kinds {
        assert_eq!(ShiftKind::from_code(k.code()), Some(k));
        assert_eq!(ShiftKind::from_store_id(k.store_id()), Some(k));
    }
    assert_eq!(ShiftKind::from_code('N'), None);
    assert_eq!(ShiftKind::from_store_id(5), None);
    assert_eq!(store_id_code(2), 'D');
    assert_eq!(store_id_code(0), 'N');
}

#[test]
fn flatten_lists_rows_in_roster_order() {
    let days = vec![
        DayDetail {
            day: 1,
            value: vec![
                ShiftDetail { key: ShiftKind::Morning, value: vec![7] },
                ShiftDetail { key: ShiftKind::Office, value: vec![2, 9] },
            ],
        },
        DayDetail { day: 2, value: vec![ShiftDetail { key: ShiftKind::Night, value: vec![2] }] },
    ];
    assert_eq!(
        flatten_roster(&days),
        vec![
            ScheduleRow { employee_id: 7, day: 1, shift: ShiftKind::Morning },
            ScheduleRow { employee_id: 2, day: 1, shift: ShiftKind::Office },
            ScheduleRow { employee_id: 9, day: 1, shift: ShiftKind::Office },
            ScheduleRow { employee_id: 2, day: 2, shift: ShiftKind::Night },
        ]
    );
    assert!(flatten_roster(&vec![]).is_empty());
}

#[test]
fn stored_rows_group_by_day_and_shift() {
    let rows = vec![row(1, 1, 4), row(2, 1, 3), row(3, 1, 2), row(4, 1, 1), row(5, 1, 1), row(6, 2, 4), row(7, 2, 9), row(8, 40, 4)];
    assert_eq!(ids_on_day(&rows, 1, ShiftKind::Office), vec![4, 5]);
    let days = group_stored_rows(&rows, 2, 2024).unwrap();
    assert_eq!(days.len(), 29);
    assert_eq!(days[0].day, 1);
    let first: Vec<(ShiftKind, Vec<i32>)> = days[0].value.iter().map(|s| (s.key, s.value.clone())).collect();
    assert_eq!(
        first,
        vec![
            (ShiftKind::Morning, vec![1]),
            (ShiftKind::Afternoon, vec![2]),
            (ShiftKind::Night, vec![3]),
            (ShiftKind::Office, vec![4, 5]),
        ]
    );
    assert_eq!(days[1].value[0].value, vec![6]);
    assert!(days[1].value[1..].iter().all(|s| s.value.is_empty()));
    assert_eq!(days[28].day, 29);
    assert!(days[28].value.iter().all(|s| s.value.is_empty()));
    assert_eq!(group_stored_rows(&rows, 2, 2023).unwrap().len(), 28);
    assert_eq!(group_stored_rows(&rows, 14, 2023).unwrap_err(), RosterError::InvalidMonth);
}

#[test]
fn export_line_counts_codes() {
    let rows = vec![row(1, 1, 4), row(1, 2, 2), row(1, 2, 3), row(2, 1, 2), row(1, 3, 7), row(1, 4, 1)];
    assert_eq!(day_cell(&rows, 2, 1), 'C');
    let line = export_line(&rows, 1, 5);
    assert_eq!(line.employee_id, 1);
    assert_eq!(line.cells, vec!['S', 'C', 'N', 'H', 'N']);
    assert_eq!((line.total_s, line.total_c, line.total_d, line.total_h, line.total_n, line.total), (1, 1, 0, 1, 2, 3));
}

#[test]
fn export_month_has_a_line_per_employee() {
    let rows = vec![row(1, 1, 4), row(2, 1, 2), row(2, 30, 2)];
    let lines = export_month(&rows, &vec![2, 1], 4, 2024).unwrap();
    assert_eq!(lines.len(), 2);
    assert_eq!(lines[0].employee_id, 2);
    assert_eq!(lines[0].cells.len(), 30);
    assert_eq!(lines[0].total_d, 2);
    assert_eq!(lines[0].total_n, 28);
    assert_eq!(lines[1].total_s, 1);
    assert_eq!(lines[1].total, 1);
    assert_eq!(export_month(&rows, &vec![1], 0, 2024).unwrap_err(), RosterError::InvalidMonth);
}

#[test]
fn response_and_page_keep_their_fields() {
    let body = ResponseBody::new("ok", 5);
    assert_eq!(body.message, "ok");
    assert_eq!(body.data, 5);
    let page = Page::new("list", vec![1, 2], 3, 2, 10);
    assert_eq!(page.message, "list");
    assert_eq!(page.data, vec![1, 2]);
    assert_eq!((page.page_num, page.page_size, page.total_elements), (3, 2, 10));
}

#[test]
fn claims_expire_after_the_token_lifetime() {
    let claims = TokenClaims::issued(3, "Manager".to_string(), 1_700_000_000).unwrap();
    assert_eq!(claims.sub, 3);
    assert_eq!(claims.iat, 1_700_000_000);
    assert_eq!(claims.exp, 1_700_000_000 + 120_000);
    assert_eq!(TOKEN_LIFETIME_SECS, 120_000);
    assert!(TokenClaims::issued(3, "Employee".to_string(), -1).is_none());
}

#[test]
fn only_managers_pass_the_gate() {
    let gate = IsManager;
    let manager = TokenClaims::issued(1, "Manager".to_string(), 0).unwrap();
    let staff = TokenClaims::issued(2, "Employee".to_string(), 0).unwrap();
    assert_eq!(gate.check(Some(&manager)), Ok(()));
    assert_eq!(gate.check(Some(&staff)), Err(AuthError::NotManager));
    assert_eq!(gate.check(None), Err(AuthError::MissingClaims));
}

fn staff(list: &[(i32, &str)]) -> Vec<StaffName> {
    list.iter().map(|(id, name)| StaffName { id: *id, name: name.to_string() }).collect()
}

#[test]
fn roster_names_replace_identifiers() {
    let days = vec![DayDetail {
        day: 1,
        value: vec![
            ShiftDetail { key: ShiftKind::Morning, value: vec![2] },
            ShiftDetail { key: ShiftKind::Office, value: vec![1, 2] },
        ],
    }];
    let named = name_roster(&days, &staff(&[(1, "An"), (2, "Binh"), (2, "Binh T.")])).unwrap();
    assert_eq!(named.len(), 1);
    assert_eq!(named[0].day, 1);
    assert_eq!(named[0].value[0].key, ShiftKind::Morning);
    assert_eq!(named[0].value[0].value, vec!["Binh T.".to_string()]);
    assert_eq!(named[0].value[1].value, vec!["An".to_string(), "Binh T.".to_string()]);
    assert!(name_roster(&days, &staff(&[(1, "An")])).is_none());
    assert_eq!(lookup_name(&staff(&[(3, "Chi")]), 3), Some("Chi".to_string()));
    assert_eq!(lookup_name(&staff(&[(3, "Chi")]), 4), None);
    assert_eq!(name_group(&vec![3, 3], &staff(&[(3, "Chi")])), Some(vec!["Chi".to_string(), "Chi".to_string()]));
}
