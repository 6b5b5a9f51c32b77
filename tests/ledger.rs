use budget_manager::balance::{low_balance, Balance};
use budget_manager::ledger::{
    BudgetManager, EditOutcome, ImportRecord, LedgerError, RemoveOutcome,
};
use budget_manager::text::is_blank;

fn manager_with(name: &str, total: i64) -> BudgetManager {
    let mut m = BudgetManager::new();
    assert!(m.add_budget(name, total).is_ok());
    m
}

#[test]
fn create_budget_in_range_sets_remaining_to_total() {
    for total in [0i64, 1, 50_000, 99_999_999, 100_000_000] {
        let mut m = BudgetManager::new();
        let id = m.add_budget("Loisirs", total).unwrap();
        let rows = m.display_budgets();
        assert_eq!(rows.len(), 1);
        assert_eq!(rows[0].id, id);
        assert_eq!(rows[0].name, "Loisirs");
        assert_eq!(rows[0].total_amount, total);
        assert_eq!(rows[0].remaining_amount, total);
    }
}

#[test]
fn create_budget_out_of_range_is_refused() {
    for total in [-1i64, -100_000, 100_000_001, i64::MAX, i64::MIN] {
        let mut m = BudgetManager::new();
        assert_eq!(m.add_budget("Loisirs", total), Err(LedgerError::Validation));
        assert!(m.display_budgets().is_empty());
        assert_eq!(m.get_budget_id("Loisirs"), None);
    }
}

#[test]
fn create_budget_with_empty_name_is_refused() {
    let mut m = BudgetManager::new();
    assert_eq!(m.add_budget("", 10_000), Err(LedgerError::Validation));
    assert_eq!(m.add_budget("   ", 10_000), Err(LedgerError::Validation));
    assert_eq!(m.add_budget("\t\n", 10_000), Err(LedgerError::Validation));
    assert!(m.display_budgets().is_empty());
}

#[test]
fn blank_names_are_told_apart() {
    assert!(is_blank(""));
    assert!(is_blank("   "));
    assert!(!is_blank("  Loyer  "));
    assert!(!is_blank("x"));
    assert!(is_blank("\u{3000}\u{a0}\u{2009}"));
    assert!(!is_blank("\u{3000}Loyer\u{85}"));
}

#[test]
fn remaining_is_total_less_transactions() {
    let mut m = manager_with("Maison", 100_000);
    assert_eq!(
        m.calculate_remaining_amount("Maison", 100_000),
        Ok(Balance { remaining: 100_000, low_balance: false })
    );
    m.add_transaction("Maison", "a".to_string(), 10_000).unwrap();
    m.add_transaction("Maison", "b".to_string(), 20_000).unwrap();
    assert_eq!(
        m.calculate_remaining_amount("Maison", 100_000),
        Ok(Balance { remaining: 70_000, low_balance: false })
    );
    assert_eq!(m.show_remaining_amount("Maison"), Some(70_000));
}

#[test]
fn alert_fires_below_a_tenth_only() {
    let mut m = manager_with("Maison", 100_000);
    m.add_transaction("Maison", "gros achat".to_string(), 90_500).unwrap();
    assert_eq!(
        m.calculate_remaining_amount("Maison", 100_000),
        Ok(Balance { remaining: 9_500, low_balance: true })
    );
    let mut m = manager_with("Maison", 100_000);
    m.add_transaction("Maison", "gros achat".to_string(), 90_000).unwrap();
    assert_eq!(
        m.calculate_remaining_amount("Maison", 100_000),
        Ok(Balance { remaining: 10_000, low_balance: false })
    );
}

#[test]
fn low_balance_rule_values() {
    assert!(low_balance(1000, 99));
    assert!(!low_balance(1000, 100));
    assert!(!low_balance(1000, 101));
    assert!(low_balance(1000, -5));
    assert!(!low_balance(0, 0));
    assert!(low_balance(-10, -5));
    assert!(!low_balance(i64::MAX, i128::MAX));
    assert!(low_balance(i64::MIN, i128::MIN));
}

#[test]
fn remaining_of_missing_budget_is_not_found() {
    let m = manager_with("Maison", 100_000);
    assert_eq!(
        m.calculate_remaining_amount("Voyage", 100_000),
        Err(LedgerError::NotFound)
    );
    assert_eq!(m.show_remaining_amount("Voyage"), None);
}

#[test]
fn transaction_against_missing_budget_is_refused() {
    let mut m = BudgetManager::new();
    assert_eq!(
        m.add_transaction("Voyage", "billet".to_string(), 30_000),
        Err(LedgerError::NotFound)
    );
    m.add_budget("Voyage", 50_000).unwrap();
    assert_eq!(
        m.calculate_remaining_amount("Voyage", 50_000),
        Ok(Balance { remaining: 50_000, low_balance: false })
    );
}

#[test]
fn remove_and_edit_report_outcomes() {
    let mut m = manager_with("Maison", 100_000);
    m.add_transaction("Maison", "loyer".to_string(), 60_000).unwrap();
    assert_eq!(m.remove_transaction("Voyage", "loyer"), RemoveOutcome::BudgetNotFound);
    assert_eq!(
        m.edit_transaction("Voyage", "loyer".to_string(), "x".to_string(), 1),
        EditOutcome::BudgetNotFound
    );
    assert_eq!(m.remove_transaction("Maison", "cafe"), RemoveOutcome::NotFound);
    assert_eq!(
        m.edit_transaction("Maison", "cafe".to_string(), "x".to_string(), 1),
        EditOutcome::NotFound
    );
    assert_eq!(m.show_remaining_amount("Maison"), Some(40_000));
    assert_eq!(
        m.edit_transaction("Maison", "loyer".to_string(), "loyer juin".to_string(), 55_000),
        EditOutcome::Updated
    );
    assert_eq!(m.show_remaining_amount("Maison"), Some(45_000));
    assert_eq!(m.remove_transaction("Maison", "loyer"), RemoveOutcome::NotFound);
    assert_eq!(m.remove_transaction("Maison", "loyer juin"), RemoveOutcome::Removed);
    assert_eq!(m.show_remaining_amount("Maison"), Some(100_000));
}

#[test]
fn remove_transaction_takes_every_match() {
    let mut m = manager_with("Maison", 100_000);
    m.add_transaction("Maison", "cafe".to_string(), 300).unwrap();
    m.add_transaction("Maison", "pain".to_string(), 200).unwrap();
    m.add_transaction("Maison", "cafe".to_string(), 300).unwrap();
    assert_eq!(m.remove_transaction("Maison", "cafe"), RemoveOutcome::Removed);
    assert_eq!(m.show_remaining_amount("Maison"), Some(99_800));
}

#[test]
fn listing_twice_gives_the_same_rows() {
    let mut m = manager_with("Maison", 100_000);
    m.add_budget("Voyage", 50_000).unwrap();
    m.add_transaction("Voyage", "billet".to_string(), 30_000).unwrap();
    let first = m.display_budgets();
    let second = m.display_budgets();
    assert_eq!(first.len(), second.len());
    for (a, b) in first.iter().zip(second.iter()) {
        assert_eq!(a.id, b.id);
        assert_eq!(a.name, b.name);
        assert_eq!(a.total_amount, b.total_amount);
        assert_eq!(a.remaining_amount, b.remaining_amount);
    }
    assert_eq!(first[1].remaining_amount, 50_000);
}

#[test]
fn groceries_scenario() {
    let mut m = BudgetManager::new();
    m.add_budget("Groceries", 50_000).unwrap();
    m.add_transaction("Groceries", "Milk".to_string(), 1_000).unwrap();
    m.add_transaction("Groceries", "Bread".to_string(), 500).unwrap();
    assert_eq!(
        m.calculate_remaining_amount("Groceries", 50_000),
        Ok(Balance { remaining: 48_500, low_balance: false })
    );
    m.add_transaction("Groceries", "Rent-overflow".to_string(), 44_000).unwrap();
    assert_eq!(
        m.calculate_remaining_amount("Groceries", 50_000),
        Ok(Balance { remaining: 4_500, low_balance: true })
    );
}

#[test]
fn budget_ids_count_up() {
    let mut m = BudgetManager::new();
    let a = m.add_budget("A", 100).unwrap();
    let b = m.add_budget("B", 100).unwrap();
    assert_eq!(b, a + 1);
    assert_eq!(m.get_budget_id("B"), Some(b));
    assert_eq!(m.get_budget_id("C"), None);
}

#[test]
fn duplicate_names_resolve_to_the_first() {
    let mut m = BudgetManager::new();
    let first = m.add_budget("Double", 1_000).unwrap();
    let _second = m.add_budget("Double", 2_000).unwrap();
    assert_eq!(m.get_budget_id("Double"), Some(first));
    m.add_transaction("Double", "x".to_string(), 100).unwrap();
    assert_eq!(m.show_remaining_amount("Double"), Some(900));
}

#[test]
fn remove_budget_deletes_every_match_and_keeps_transactions() {
    let mut m = BudgetManager::new();
    m.add_budget("Double", 1_000).unwrap();
    m.add_budget("Autre", 3_000).unwrap();
    m.add_budget("Double", 2_000).unwrap();
    assert!(m.remove_budget("Double"));
    let rows = m.display_budgets();
    assert_eq!(rows.len(), 1);
    assert_eq!(rows[0].name, "Autre");
    assert!(!m.remove_budget("Double"));
}

#[test]
fn edit_budget_renames_without_range_check() {
    let mut m = manager_with("Maison", 100_000);
    m.add_transaction("Maison", "loyer".to_string(), 60_000).unwrap();
    assert!(m.edit_budget("Logement".to_string(), "Maison".to_string(), 200_000_000));
    let rows = m.display_budgets();
    assert_eq!(rows[0].name, "Logement");
    assert_eq!(rows[0].total_amount, 200_000_000);
    assert_eq!(rows[0].remaining_amount, 100_000);
    assert_eq!(m.show_remaining_amount("Logement"), Some(199_940_000));
    assert!(!m.edit_budget("X".to_string(), "Maison".to_string(), 1));
}

#[test]
fn negative_amounts_are_refunds() {
    let mut m = manager_with("Maison", 10_000);
    m.add_transaction("Maison", "achat".to_string(), 5_000).unwrap();
    m.add_transaction("Maison", "remboursement".to_string(), -2_000).unwrap();
    assert_eq!(m.show_remaining_amount("Maison"), Some(7_000));
}

#[test]
fn import_skips_records_without_budget() {
    let mut m = manager_with("Maison", 100_000);
    let records = vec![
        ImportRecord { budget_name: "Maison".to_string(), desc: "loyer".to_string(), amount: 50_000 },
        ImportRecord { budget_name: "Voyage".to_string(), desc: "billet".to_string(), amount: 9 },
        ImportRecord { budget_name: "Maison".to_string(), desc: "eau".to_string(), amount: 1_000 },
    ];
    assert_eq!(m.import_transactions(&records), vec![true, false, true]);
    assert_eq!(m.show_remaining_amount("Maison"), Some(49_000));
}

#[test]
fn users_are_registered_once() {
    let mut m = BudgetManager::new();
    assert!(!m.user_exists("alice"));
    let a = m.add_user("alice").unwrap();
    assert!(m.user_exists("alice"));
    assert_eq!(m.add_user("alice"), Ok(a));
    let b = m.add_user("bob").unwrap();
    assert_ne!(a, b);
    assert!(!m.user_exists("carol"));
}
