use budget_manager::ledger::{BudgetManager, BudgetRow, TransactionRow, UserRow};

fn budget(id: u64, name: &str, total: i64) -> BudgetRow {
    BudgetRow { id, name: name.to_string(), total_amount: total, remaining_amount: total }
}

fn transaction(id: u64, budget_id: u64, name: &str, amount: i64) -> TransactionRow {
    TransactionRow { id, budget_id, name: name.to_string(), amount }
}

#[test]
fn restore_keeps_rows_and_continues_ids() {
    let mut m = BudgetManager::restore(
        vec![budget(3, "Maison", 100_000), budget(7, "Voyage", 5_000)],
        vec![transaction(2, 3, "loyer", 60_000), transaction(9, 7, "billet", 4_000)],
        vec![UserRow { id: 4, name: "alice".to_string() }],
        0,
        0,
        0,
    )
    .unwrap();
    assert_eq!(m.show_remaining_amount("Maison"), Some(40_000));
    assert_eq!(m.show_remaining_amount("Voyage"), Some(1_000));
    assert_eq!(m.add_budget("Loisirs", 10), Ok(8));
    assert_eq!(m.add_transaction("Maison", "eau".to_string(), 1), Ok(10));
    assert_eq!(m.add_user("alice"), Ok(4));
    assert_eq!(m.add_user("bob"), Ok(5));
    let ts = m.transaction_rows();
    assert_eq!(ts.len(), 3);
    assert_eq!(ts[2].name, "eau");
    assert_eq!(ts[2].budget_id, 3);
    let us = m.user_rows();
    assert_eq!(us.len(), 2);
    assert_eq!(us[1].name, "bob");
}

#[test]
fn restore_of_nothing_starts_at_one() {
    let mut m = BudgetManager::restore(vec![], vec![], vec![], 0, 0, 0).unwrap();
    assert_eq!(m.add_budget("A", 1), Ok(1));
    assert!(m.transaction_rows().is_empty());
    assert!(m.user_rows().is_empty());
}

#[test]
fn restore_refuses_ids_out_of_order() {
    assert!(BudgetManager::restore(vec![budget(2, "A", 1), budget(2, "B", 1)], vec![], vec![], 0, 0, 0).is_none());
    assert!(BudgetManager::restore(
        vec![],
        vec![transaction(5, 1, "x", 1), transaction(4, 1, "y", 1)],
        vec![],
        0,
        0,
        0
    )
    .is_none());
    assert!(BudgetManager::restore(
        vec![],
        vec![],
        vec![UserRow { id: 2, name: "a".to_string() }, UserRow { id: 1, name: "b".to_string() }],
        0,
        0,
        0
    )
    .is_none());
}

#[test]
fn restore_refuses_shared_user_names_and_last_ids() {
    assert!(BudgetManager::restore(
        vec![],
        vec![],
        vec![UserRow { id: 1, name: "a".to_string() }, UserRow { id: 2, name: "a".to_string() }],
        0,
        0,
        0
    )
    .is_none());
    assert!(BudgetManager::restore(vec![budget(u64::MAX, "A", 1)], vec![], vec![], 0, 0, 0).is_none());
}

#[test]
fn restore_never_reuses_a_deleted_budget_id() {
    let mut m = BudgetManager::new();
    let a = m.add_budget("A", 1_000).unwrap();
    let b = m.add_budget("B", 1_000).unwrap();
    m.add_transaction("B", "x".to_string(), 10_000).unwrap();
    assert!(m.remove_budget("B"));
    let mut r = BudgetManager::restore(m.display_budgets(), m.transaction_rows(), m.user_rows(), 0, 0, 0)
        .unwrap();
    let c = r.add_budget("C", 50_000).unwrap();
    assert!(c > b && c > a);
    assert_eq!(r.show_remaining_amount("C"), Some(50_000));
    assert_eq!(
        r.calculate_remaining_amount("C", 50_000).map(|x| x.remaining),
        Ok(50_000)
    );
}

#[test]
fn restore_stays_above_ids_given_before() {
    let mut m = BudgetManager::restore(vec![budget(1, "A", 5)], vec![], vec![], 9, 4, 7).unwrap();
    assert_eq!(m.add_budget("B", 5), Ok(10));
    assert_eq!(m.add_transaction("A", "x".to_string(), 1), Ok(5));
    assert_eq!(m.add_user("u"), Ok(8));
    assert!(BudgetManager::restore(vec![], vec![], vec![], u64::MAX, 0, 0).is_none());
    assert!(BudgetManager::restore(vec![], vec![transaction(1, u64::MAX, "x", 1)], vec![], 0, 0, 0).is_none());
}
