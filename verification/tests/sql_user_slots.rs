use slot_booking::controllers::user_slots::split_accounts;
use slot_booking::sql_clients::data::{clear_query, dump_entries, dump_query, DumpRow};
use slot_booking::sql_clients::user_slots::{
    conflict_query, fetch_query, group_by_account, insert_query, lock_query, SlotRow,
};

fn row(email: &str, start: Option<i64>) -> SlotRow {
    SlotRow { email: email.to_string(), start }
}

#[test]
fn rows_are_sorted_out_by_account() {
    let accounts = vec!["b@example.com".to_string(), "a@example.com".to_string()];
    let rows = vec![
        row("a@example.com", Some(3600)),
        row("b@example.com", Some(0)),
        row("a@example.com", Some(1800)),
        row("c@example.com", Some(7200)),
        row("b@example.com", None),
        row("a@example.com", Some(3600)),
    ];
    let grouped = group_by_account(&accounts, &rows);
    assert_eq!(grouped.len(), 2);
    assert_eq!(grouped[0].account, "b@example.com");
    assert_eq!(grouped[0].slots, vec![0]);
    assert_eq!(grouped[1].account, "a@example.com");
    assert_eq!(grouped[1].slots, vec![3600, 1800, 3600]);
}

#[test]
fn an_account_without_a_row_has_no_slots() {
    let accounts = vec!["a@example.com".to_string(), "a@example.com".to_string()];
    let grouped = group_by_account(&accounts, &[row("A@example.com", Some(5))]);
    assert_eq!(grouped.len(), 2);
    assert!(grouped[0].slots.is_empty());
    assert!(grouped[1].slots.is_empty());
    assert!(group_by_account(&[], &[row("a@example.com", Some(5))]).is_empty());
}

#[test]
fn queries_hold_one_placeholder_for_each_account() {
    assert_eq!(lock_query(2), "SELECT * FROM t_user WHERE email IN (?,?) FOR UPDATE");
    assert_eq!(
        conflict_query(1),
        "SELECT 1 FROM t_user u INNER JOIN t_user_slot us ON u.id = us.user_id WHERE u.email IN (?) and ABS(TIMESTAMPDIFF(MINUTE, ?, us.start)) < 30"
    );
    assert_eq!(
        insert_query(3),
        "INSERT INTO t_user_slot (user_id, start) SELECT id, ? FROM t_user u WHERE u.email IN (?,?,?)"
    );
    assert_eq!(
        fetch_query(2),
        "SELECT u.email, us.start FROM t_user u LEFT JOIN t_user_slot us ON u.id = us.user_id WHERE u.email IN (?,?) and us.start between ? and ? and TIME(us.start) between '10:00:00' and '19:30:00' ORDER BY u.id"
    );
}

#[test]
fn queries_without_parameters() {
    assert_eq!(clear_query(), "DELETE FROM t_user_slot");
    assert!(dump_query().starts_with("SELECT u.email, CONCAT('[', GROUP_CONCAT("));
    assert!(dump_query().ends_with("GROUP BY u.id ORDER BY u.id"));
}

#[test]
fn the_listing_leaves_out_rows_without_text() {
    let rows = vec![
        DumpRow { email: "a".to_string(), starts: Some("[2020/01/01 10:00]".to_string()) },
        DumpRow { email: "b".to_string(), starts: None },
        DumpRow { email: "c".to_string(), starts: Some("[]".to_string()) },
    ];
    assert_eq!(
        dump_entries(rows),
        vec![
            ("a".to_string(), "[2020/01/01 10:00]".to_string()),
            ("c".to_string(), "[]".to_string()),
        ]
    );
    assert_eq!(dump_entries(vec![]), vec![]);
}

#[test]
fn accounts_are_split_at_commas() {
    assert_eq!(split_accounts("a@example.com,b@example.com"), vec!["a@example.com", "b@example.com"]);
    assert_eq!(split_accounts("only"), vec!["only"]);
    assert_eq!(split_accounts(""), vec![""]);
    assert_eq!(split_accounts(","), vec!["", ""]);
    assert_eq!(split_accounts("a,,b,"), vec!["a", "", "b", ""]);
    assert_eq!(split_accounts("é,ü"), vec!["é", "ü"]);
}
