//! Properties that hold across the ledger's operations.
use vstd::prelude::*;

use crate::balance::Balance;
use crate::ledger::{
    add_budget_result, add_transaction_result, budget_id_of, budget_views, edit_outcome,
    first_named, has_named, has_transaction, is_first_named, remaining_result, remove_outcome,
    spent, spent_fits, spent_of_named, valid_total, with_budget, with_transaction, BudgetRow, BudgetView, EditOutcome, Ledger,
    LedgerError, RemoveOutcome, TransactionView,
};
use crate::text::{blank, is_white, trim_end, trim_start};

verus! {

/// When some budget has a name, a first one has it.
pub proof fn lemma_named_has_first(bs: Seq<BudgetView>, name: Seq<char>)
    requires
        has_named(bs, name),
    ensures
        first_named(bs, name) is Some,
    decreases bs.len(),
{
    let w = choose|w: int| 0 <= w < bs.len() && bs[w].name == name;
    let init = bs.drop_last();
    if has_named(init, name) {
        lemma_named_has_first(init, name);
        let i = choose|i: int| is_first_named(init, name, i);
        assert(is_first_named(init, name, i));
        assert(init[i] == bs[i]);
        assert forall|j: int| 0 <= j < i implies bs[j].name != name by {
            assert(init[j] == bs[j]);
        }
        assert(is_first_named(bs, name, i));
    } else {
        let last = bs.len() - 1;
        assert(bs[last].name == name) by {
            if w < last {
                assert(init[w] == bs[w]);
            }
        }
        assert forall|j: int| 0 <= j < last implies bs[j].name != name by {
            assert(init[j] == bs[j]);
        }
        assert(is_first_named(bs, name, last));
    }
}

/// A name whose first and last characters are not white space is not blank.
pub proof fn lemma_name_not_blank(s: Seq<char>)
    requires
        s.len() > 0,
        !is_white(s[0]),
        !is_white(s.last()),
    ensures
        !blank(s),
{
    assert(trim_start(s) == s);
    assert(trim_end(s) == s);
}

/// A budget with a name that is not blank and a total from nothing to one
/// million is created, while identifiers are left, and its remaining amount
/// starts at its total.
pub proof fn lemma_create_in_range(l: Ledger, name: Seq<char>, total_amount: i64)
    requires
        !blank(name),
        valid_total(total_amount),
        l.next_budget_id < u64::MAX,
    ensures
        add_budget_result(l, name, total_amount) == Ok::<u64, LedgerError>(l.next_budget_id),
        with_budget(l, name, total_amount).budgets.last().remaining_amount == total_amount,
        with_budget(l, name, total_amount).budgets.last().total_amount == total_amount,
{
}

/// A total under nothing or over one million is refused as invalid.
pub proof fn lemma_create_out_of_range(l: Ledger, name: Seq<char>, total_amount: i64)
    requires
        !valid_total(total_amount),
    ensures
        add_budget_result(l, name, total_amount) == Err::<u64, LedgerError>(
            LedgerError::Validation,
        ),
{
}

/// A transaction against a budget name that no budget has is refused as not
/// found.
pub proof fn lemma_transaction_needs_budget(l: Ledger, name: Seq<char>)
    requires
        !has_named(l.budgets, name),
    ensures
        add_transaction_result(l, name) == Err::<u64, LedgerError>(LedgerError::NotFound),
{
}

/// Removing or editing a transaction of a budget name that no budget has
/// reports that the budget was not found.
pub proof fn lemma_missing_budget_reported(l: Ledger, budget_name: Seq<char>, name: Seq<char>)
    requires
        !has_named(l.budgets, budget_name),
    ensures
        remove_outcome(l, budget_name, name) == RemoveOutcome::BudgetNotFound,
        edit_outcome(l, budget_name, name) == EditOutcome::BudgetNotFound,
{
}

/// Removing or editing a transaction name that the budget does not have
/// reports that the transaction was not found.
pub proof fn lemma_missing_transaction_reported(l: Ledger, budget_name: Seq<char>, name: Seq<char>)
    requires
        has_named(l.budgets, budget_name),
        forall|i: int|
            0 <= i < l.transactions.len() && l.transactions[i].name == name
                ==> !(budget_id_of(l.budgets, budget_name) == Some(l.transactions[i].budget_id)),
    ensures
        remove_outcome(l, budget_name, name) == RemoveOutcome::NotFound,
        edit_outcome(l, budget_name, name) == EditOutcome::NotFound,
{
    lemma_named_has_first(l.budgets, budget_name);
    let id = budget_id_of(l.budgets, budget_name)->Some_0;
    assert(!has_transaction(l.transactions, id, name));
}

/// Two listings of the same ledger are the same.
pub proof fn lemma_listing_stable(l: Ledger, first: Vec<BudgetRow>, second: Vec<BudgetRow>)
    requires
        budget_views(first@) == l.budgets,
        budget_views(second@) == l.budgets,
    ensures
        budget_views(first@) == budget_views(second@),
{
}

/// A budget without transactions has spent nothing.
pub proof fn lemma_nothing_spent(ts: Seq<TransactionView>, budget_id: u64)
    requires
        forall|i: int| 0 <= i < ts.len() ==> ts[i].budget_id != budget_id,
    ensures
        spent(ts, budget_id) == 0,
    decreases ts.len(),
{
    if ts.len() > 0 {
        let init = ts.drop_last();
        assert forall|i: int| 0 <= i < init.len() implies init[i].budget_id != budget_id by {
            assert(init[i] == ts[i]);
        }
        lemma_nothing_spent(init, budget_id);
    }
}

/// A new transaction of a budget adds its amount to what the budget spent,
/// and leaves what other budgets spent as it was.
pub proof fn lemma_transaction_spends(
    l: Ledger,
    budget_id: u64,
    name: Seq<char>,
    amount: i64,
    other: u64,
)
    ensures
        spent(with_transaction(l, budget_id, name, amount).transactions, budget_id) == spent(
            l.transactions,
            budget_id,
        ) + amount,
        other != budget_id ==> spent(with_transaction(l, budget_id, name, amount).transactions, other)
            == spent(l.transactions, other),
{
    let ts = with_transaction(l, budget_id, name, amount).transactions;
    assert(ts.drop_last() =~= l.transactions);
}

/// The balance of a budget is its total less what it spent, and the alert
/// is raised exactly when that is under a tenth of the total.
pub proof fn lemma_balance_rule(l: Ledger, budget_name: Seq<char>, total_amount: i64, b: Balance)
    requires
        remaining_result(l, budget_name, total_amount) == Ok::<Balance, LedgerError>(b),
        spent_fits(spent_of_named(l, budget_name)),
    ensures
        b.remaining == total_amount - spent_of_named(l, budget_name),
        b.low_balance <==> 10 * b.remaining < total_amount,
{
}

} // verus!
