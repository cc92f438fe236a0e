use role_groups::{
    add_group, current_session_status, decimal_text, find_first, has_prefix, has_suffix, parse_i32,
    parse_session_duration, render_arn, select_accounts, select_by_business_unit, select_by_names,
    selection_from_flags, session_status, session_text, Account, ArnDisplay, GroupError, GroupStore,
    Selection, SessionStatus, UpsertOutcome, DEFAULT_SESSION_DURATION,
};

fn account(name: &str, id: &str, role: &str) -> Account {
    Account {
        name: name.to_string(),
        id: id.to_string(),
        arn: format!("arn:aws:iam::{}:role/{}", id, role),
        valid_until: None,
    }
}

fn pool() -> Vec<Account> {
    vec![
        account("sales-eu", "111111111111", "Admin"),
        account("sales-us", "222222222222", "ReadOnly"),
        account("ops-core", "333333333333", "Admin"),
        account("sales-asia", "444444444444", "Admin"),
        account("salesforce", "555555555555", "SuperAdmin"),
    ]
}

fn names_of(accounts: &[Account]) -> Vec<String> {
    accounts.iter().map(|a| a.name.clone()).collect()
}

#[test]
fn business_unit_selection_keeps_prefix_and_role_in_order() {
    let r = select_by_business_unit(pool(), "sales", "Admin");
    assert_eq!(names_of(&r), vec!["sales-eu", "sales-asia"]);
}

#[test]
fn business_unit_selection_requires_role_segment() {
    // "role/SuperAdmin" does not end with "role/Admin".
    let r = select_by_business_unit(pool(), "salesforce", "Admin");
    assert!(r.is_empty());
}

#[test]
fn business_unit_selection_of_empty_pool_is_empty() {
    let r = select_by_business_unit(Vec::new(), "sales", "Admin");
    assert!(r.is_empty());
}

#[test]
fn names_selection_keeps_listed_names_with_role() {
    let names = vec!["ops-core".to_string(), "sales-us".to_string(), "sales-asia".to_string()];
    let r = select_by_names(pool(), names, "Admin");
    assert_eq!(names_of(&r), vec!["ops-core", "sales-asia"]);
}

#[test]
fn names_selection_needs_exact_names() {
    let names = vec!["sales".to_string()];
    let r = select_by_names(pool(), names, "Admin");
    assert!(r.is_empty());
}

#[test]
fn select_accounts_follows_the_selection() {
    let r = select_accounts(&Selection::BusinessUnit("ops".to_string()), pool(), "Admin");
    assert_eq!(names_of(&r), vec!["ops-core"]);
    let r = select_accounts(
        &Selection::AccountNames(vec!["sales-us".to_string()]),
        pool(),
        "ReadOnly",
    );
    assert_eq!(names_of(&r), vec!["sales-us"]);
}

#[test]
fn both_selection_flags_conflict() {
    let r = selection_from_flags(Some("sales".to_string()), Some(vec!["ops-core".to_string()]));
    assert!(matches!(r, Err(GroupError::SelectionConflict)));
}

#[test]
fn neither_selection_flag_conflicts() {
    let r = selection_from_flags(None, None);
    assert!(matches!(r, Err(GroupError::SelectionConflict)));
}

#[test]
fn one_selection_flag_is_accepted() {
    assert!(matches!(
        selection_from_flags(Some("sales".to_string()), None),
        Ok(Selection::BusinessUnit(ref b)) if b == "sales"
    ));
    assert!(matches!(
        selection_from_flags(None, Some(vec!["a".to_string()])),
        Ok(Selection::AccountNames(ref n)) if n.len() == 1
    ));
}

#[test]
fn add_with_conflicting_selection_leaves_store_unchanged() {
    let mut store = GroupStore::new();
    store.upsert_group("g", 7200, vec![account("a", "1", "Admin")]);
    let r = add_group(
        &mut store,
        "h",
        "Admin",
        None,
        Some("sales".to_string()),
        Some(vec!["x".to_string()]),
        Ok(pool()),
    );
    assert!(matches!(r, Err(GroupError::SelectionConflict)));
    let r = add_group(&mut store, "g", "Admin", None, None, None, Ok(pool()));
    assert!(matches!(r, Err(GroupError::SelectionConflict)));
    assert_eq!(store.len(), 1);
    assert!(!store.contains("h"));
    let g = store.get("g").unwrap();
    assert_eq!(g.session_duration, 7200);
    assert_eq!(names_of(&g.accounts), vec!["a"]);
}

#[test]
fn add_with_failed_listing_reports_it_and_leaves_store_unchanged() {
    let mut store = GroupStore::new();
    let r = add_group(
        &mut store,
        "g",
        "Admin",
        None,
        Some("sales".to_string()),
        None,
        Err("MFA token expired".to_string()),
    );
    match r {
        Err(GroupError::List(d)) => assert_eq!(d, "MFA token expired"),
        _ => panic!("expected a listing error"),
    }
    assert_eq!(store.len(), 0);
}

#[test]
fn add_by_business_unit_stores_selected_accounts() {
    let mut store = GroupStore::new();
    let r = add_group(
        &mut store,
        "sales",
        "Admin",
        Some("900"),
        Some("sales".to_string()),
        None,
        Ok(pool()),
    );
    assert_eq!(r.unwrap(), UpsertOutcome::Added);
    let g = store.get("sales").unwrap();
    assert_eq!(g.session_duration, 900);
    assert_eq!(names_of(&g.accounts), vec!["sales-eu", "sales-asia"]);
}

#[test]
fn add_with_no_matching_roles_stores_empty_group() {
    let mut store = GroupStore::new();
    let r = add_group(&mut store, "none", "Nobody", None, Some("sales".to_string()), None, Ok(pool()));
    assert_eq!(r.unwrap(), UpsertOutcome::Added);
    assert!(store.get("none").unwrap().accounts.is_empty());
}

#[test]
fn add_with_unparsable_duration_stores_default() {
    let mut store = GroupStore::new();
    let names = Some(vec!["ops-core".to_string()]);
    add_group(&mut store, "g", "Admin", Some("an hour"), None, names, Ok(pool())).unwrap();
    assert_eq!(store.get("g").unwrap().session_duration, 3600);
}

#[test]
fn add_with_absent_duration_stores_default() {
    let mut store = GroupStore::new();
    add_group(&mut store, "g", "Admin", None, Some("ops".to_string()), None, Ok(pool())).unwrap();
    assert_eq!(store.get("g").unwrap().session_duration, DEFAULT_SESSION_DURATION);
    assert_eq!(DEFAULT_SESSION_DURATION, 3600);
}

#[test]
fn upsert_twice_with_same_arguments_changes_nothing() {
    let mut store = GroupStore::new();
    let first = store.upsert_group("g", 7200, vec![account("a", "1", "Admin")]);
    let second = store.upsert_group("g", 7200, vec![account("a", "1", "Admin")]);
    assert_eq!(first, UpsertOutcome::Added);
    assert_eq!(second, UpsertOutcome::Replaced);
    assert_eq!(store.len(), 1);
    let g = store.get("g").unwrap();
    assert_eq!(g.session_duration, 7200);
    assert_eq!(names_of(&g.accounts), vec!["a"]);
}

#[test]
fn upsert_overwrites_without_merging() {
    let mut store = GroupStore::new();
    store.upsert_group("g", 7200, vec![account("a1", "1", "Admin"), account("a2", "2", "Admin")]);
    store.upsert_group("g", 3600, vec![account("b1", "3", "Admin")]);
    assert_eq!(store.len(), 1);
    let g = store.get("g").unwrap();
    assert_eq!(g.session_duration, 3600);
    assert_eq!(names_of(&g.accounts), vec!["b1"]);
}

#[test]
fn upsert_keeps_other_groups() {
    let mut store = GroupStore::new();
    store.upsert_group("a", 1, Vec::new());
    store.upsert_group("b", 2, Vec::new());
    store.upsert_group("a", 3, Vec::new());
    assert_eq!(store.len(), 2);
    assert_eq!(store.get("a").unwrap().session_duration, 3);
    assert_eq!(store.get("b").unwrap().session_duration, 2);
    let names: Vec<String> = store.entries().iter().map(|e| e.0.clone()).collect();
    assert_eq!(names, vec!["a", "b"]);
}

#[test]
fn delete_missing_group_reports_not_found() {
    let mut store = GroupStore::new();
    store.upsert_group("g", 3600, Vec::new());
    let r = store.delete_group("missing");
    assert!(matches!(r, Err(GroupError::NotFound)));
    assert_eq!(store.len(), 1);
    assert!(store.contains("g"));
}

#[test]
fn delete_existing_group_removes_only_it() {
    let mut store = GroupStore::new();
    store.upsert_group("a", 1, Vec::new());
    store.upsert_group("b", 2, Vec::new());
    store.upsert_group("c", 3, Vec::new());
    assert!(store.delete_group("b").is_ok());
    assert_eq!(store.len(), 2);
    assert!(!store.contains("b"));
    assert_eq!(store.get("a").unwrap().session_duration, 1);
    assert_eq!(store.get("c").unwrap().session_duration, 3);
}

#[test]
fn session_five_minutes_ago() {
    let now: i64 = 1_700_000_000;
    let status = session_status(Some(now - 5 * 60), now);
    assert_eq!(status, SessionStatus::Minutes(5));
    assert!(session_text(status).contains("5 minutes"));
}

#[test]
fn session_absent_reports_no_valid_session() {
    let status = session_status(None, 1_700_000_000);
    assert_eq!(status, SessionStatus::NoSession);
    assert!(session_text(status).contains("no valid session"));
}

#[test]
fn session_ending_in_the_future_is_negative() {
    let now: i64 = 1_700_000_000;
    let status = session_status(Some(now + 5 * 60), now);
    assert_eq!(status, SessionStatus::Minutes(-5));
    assert_eq!(session_text(status), "-5 minutes left");
}

#[test]
fn session_minutes_round_toward_zero() {
    assert_eq!(session_status(Some(0), 119), SessionStatus::Minutes(1));
    assert_eq!(session_status(Some(119), 0), SessionStatus::Minutes(-1));
    assert_eq!(session_status(Some(0), 59), SessionStatus::Minutes(0));
}

#[test]
fn session_extreme_timestamps_do_not_overflow() {
    let status = session_status(Some(i64::MIN), i64::MAX);
    assert_eq!(status, SessionStatus::Minutes(((i64::MAX as i128 - i64::MIN as i128) / 60) as i64));
}

#[test]
fn current_status_uses_the_clock() {
    assert_eq!(current_session_status(None), SessionStatus::NoSession);
    match current_session_status(Some(0)) {
        SessionStatus::Minutes(m) => assert!(m > 27_000_000),
        SessionStatus::NoSession => panic!("a session was given"),
    }
}

#[test]
fn decimal_text_writes_integers() {
    assert_eq!(decimal_text(0), "0");
    assert_eq!(decimal_text(42), "42");
    assert_eq!(decimal_text(-123), "-123");
    assert_eq!(decimal_text(i64::MIN), "-9223372036854775808");
    assert_eq!(decimal_text(i64::MAX), "9223372036854775807");
}

#[test]
fn arn_rendering_round_trip() {
    let arn = "arn:aws:iam::123456789012:role/Admin";
    let d = render_arn(arn, "123456789012");
    match &d {
        ArnDisplay::Highlighted { prefix, id, suffix } => {
            assert_eq!(prefix, "arn:aws:iam::");
            assert_eq!(id, "123456789012");
            assert_eq!(suffix, ":role/Admin");
        }
        ArnDisplay::Plain(_) => panic!("the id occurs in the arn"),
    }
    assert_eq!(d.text(), arn);
}

#[test]
fn arn_rendering_splits_at_first_occurrence() {
    let d = render_arn("a1b1c", "1");
    match &d {
        ArnDisplay::Highlighted { prefix, suffix, .. } => {
            assert_eq!(prefix, "a");
            assert_eq!(suffix, "b1c");
        }
        ArnDisplay::Plain(_) => panic!("the id occurs in the arn"),
    }
    assert_eq!(d.text(), "a1b1c");
}

#[test]
fn arn_without_id_is_shown_plain() {
    let d = render_arn("arn:aws:iam::999:role/Admin", "123");
    match &d {
        ArnDisplay::Plain(s) => assert_eq!(s, "arn:aws:iam::999:role/Admin"),
        ArnDisplay::Highlighted { .. } => panic!("the id does not occur"),
    }
    assert_eq!(d.text(), "arn:aws:iam::999:role/Admin");
}

#[test]
fn parse_i32_reads_signed_decimals() {
    assert_eq!(parse_i32("3600"), Some(3600));
    assert_eq!(parse_i32("+42"), Some(42));
    assert_eq!(parse_i32("-7"), Some(-7));
    assert_eq!(parse_i32("007"), Some(7));
    assert_eq!(parse_i32("2147483647"), Some(i32::MAX));
    assert_eq!(parse_i32("-2147483648"), Some(i32::MIN));
}

#[test]
fn parse_i32_rejects_malformed_and_out_of_range() {
    assert_eq!(parse_i32(""), None);
    assert_eq!(parse_i32("-"), None);
    assert_eq!(parse_i32("+"), None);
    assert_eq!(parse_i32("12a"), None);
    assert_eq!(parse_i32(" 12"), None);
    assert_eq!(parse_i32("2147483648"), None);
    assert_eq!(parse_i32("-2147483649"), None);
    assert_eq!(parse_i32("99999999999999999999"), None);
}

#[test]
fn parse_i32_agrees_with_std() {
    for s in ["0", "-0", "+0", "12", "-12", "1e3", "--1", "+-1", "2147483647", "4294967296"] {
        assert_eq!(parse_i32(s), s.parse::<i32>().ok(), "{}", s);
    }
}

#[test]
fn session_duration_falls_back_to_default() {
    assert_eq!(parse_session_duration(None), 3600);
    assert_eq!(parse_session_duration(Some("abc")), 3600);
    assert_eq!(parse_session_duration(Some("7200")), 7200);
}

#[test]
fn text_helpers() {
    assert!(has_prefix("sales-eu", "sales"));
    assert!(!has_prefix("sale", "sales"));
    assert!(has_suffix("x:role/Admin", "role/Admin"));
    assert!(!has_suffix("x:role/SuperAdmin", "role/Admin"));
    assert_eq!(find_first("abcabc", "ca"), Some(2));
    assert_eq!(find_first("abc", ""), Some(0));
    assert_eq!(find_first("abc", "d"), None);
    assert_eq!(find_first("ab", "abc"), None);
}
