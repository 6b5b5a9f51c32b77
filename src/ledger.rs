use vstd::prelude::*;

use crate::balance::{balance_of, low_balance, Balance, MAX_TOTAL_CENTS};
use crate::text::{blank, is_blank};

verus! {

/// A stored budget.
#[derive(Debug, Clone)]
pub struct BudgetRow {
    pub id: u64,
    pub name: String,
    /// The amount allotted, in cents.
    pub total_amount: i64,
    /// The amount left as recorded when the budget was created.
    pub remaining_amount: i64,
}

/// A stored transaction, an expense (or, when negative, a refund).
#[derive(Debug, Clone)]
pub struct TransactionRow {
    pub id: u64,
    pub budget_id: u64,
    pub name: String,
    /// The amount spent, in cents.
    pub amount: i64,
}

/// A transaction to import: the name of its budget, a description and an
/// amount in cents.
#[derive(Debug, Clone)]
pub struct ImportRecord {
    pub budget_name: String,
    pub desc: String,
    pub amount: i64,
}

/// A registered user.
#[derive(Debug, Clone)]
pub struct UserRow {
    pub id: u64,
    pub name: String,
}

/// Why an operation on the ledger failed.
#[derive(Debug, Clone, Copy, PartialEq, Eq, Structural)]
pub enum LedgerError {
    /// A budget name that is blank, or a total out of range.
    Validation,
    /// No budget has the given name.
    NotFound,
    /// The store has no identifier left to give.
    Store,
}

/// What removing a transaction did.
#[derive(Debug, Clone, Copy, PartialEq, Eq, Structural)]
pub enum RemoveOutcome {
    Removed,
    NotFound,
    BudgetNotFound,
}

/// What editing a transaction did.
#[derive(Debug, Clone, Copy, PartialEq, Eq, Structural)]
pub enum EditOutcome {
    Updated,
    NotFound,
    BudgetNotFound,
}

/// A budget as the contracts see it.
pub struct BudgetView {
    pub id: u64,
    pub name: Seq<char>,
    pub total_amount: i64,
    pub remaining_amount: i64,
}

/// A transaction as the contracts see it.
pub struct TransactionView {
    pub id: u64,
    pub budget_id: u64,
    pub name: Seq<char>,
    pub amount: i64,
}

impl View for BudgetRow {
    type V = BudgetView;

    open spec fn view(&self) -> BudgetView {
        BudgetView {
            id: self.id,
            name: self.name@,
            total_amount: self.total_amount,
            remaining_amount: self.remaining_amount,
        }
    }
}

impl View for TransactionRow {
    type V = TransactionView;

    open spec fn view(&self) -> TransactionView {
        TransactionView {
            id: self.id,
            budget_id: self.budget_id,
            name: self.name@,
            amount: self.amount,
        }
    }
}

/// The views of a sequence of budgets.
pub open spec fn budget_views(v: Seq<BudgetRow>) -> Seq<BudgetView> {
    v.map_values(|b: BudgetRow| b@)
}

/// The views of a sequence of transactions.
pub open spec fn transaction_views(v: Seq<TransactionRow>) -> Seq<TransactionView> {
    v.map_values(|t: TransactionRow| t@)
}

/// A user as the contracts see it.
pub struct UserView {
    pub id: u64,
    pub name: Seq<char>,
}

impl View for UserRow {
    type V = UserView;

    open spec fn view(&self) -> UserView {
        UserView { id: self.id, name: self.name@ }
    }
}

/// An import record as the contracts see it.
pub struct ImportView {
    pub budget_name: Seq<char>,
    pub desc: Seq<char>,
    pub amount: i64,
}

impl View for ImportRecord {
    type V = ImportView;

    open spec fn view(&self) -> ImportView {
        ImportView { budget_name: self.budget_name@, desc: self.desc@, amount: self.amount }
    }
}

/// The contents of a ledger.
pub struct Ledger {
    pub budgets: Seq<BudgetView>,
    pub transactions: Seq<TransactionView>,
    pub users: Seq<UserView>,
    pub next_budget_id: u64,
    pub next_transaction_id: u64,
    pub next_user_id: u64,
}

/// `i` is the first budget in `bs` named `name`.
pub open spec fn is_first_named(bs: Seq<BudgetView>, name: Seq<char>, i: int) -> bool {
    &&& 0 <= i < bs.len()
    &&& bs[i].name == name
    &&& forall|j: int| 0 <= j < i ==> bs[j].name != name
}

/// The index of the first budget named `name`, if there is one.
pub open spec fn first_named(bs: Seq<BudgetView>, name: Seq<char>) -> Option<int> {
    if exists|i: int| is_first_named(bs, name, i) {
        Some(choose|i: int| is_first_named(bs, name, i))
    } else {
        None
    }
}

/// The identifier of the first budget named `name`, if there is one.
pub open spec fn budget_id_of(bs: Seq<BudgetView>, name: Seq<char>) -> Option<u64> {
    match first_named(bs, name) {
        Some(i) => Some(bs[i].id),
        None => None,
    }
}

/// Some budget in `bs` is named `name`.
pub open spec fn has_named(bs: Seq<BudgetView>, name: Seq<char>) -> bool {
    exists|i: int| 0 <= i < bs.len() && bs[i].name == name
}

/// The sum of the amounts of the transactions of budget `budget_id`.
pub open spec fn spent(ts: Seq<TransactionView>, budget_id: u64) -> int
    decreases ts.len(),
{
    if ts.len() == 0 {
        0
    } else {
        spent(ts.drop_last(), budget_id) + if ts.last().budget_id == budget_id {
            ts.last().amount as int
        } else {
            0
        }
    }
}

/// A total that a new budget may have: from nothing to one million.
pub open spec fn valid_total(total_amount: i64) -> bool {
    0 <= total_amount <= MAX_TOTAL_CENTS
}

/// Budgets that a deletion by `name` keeps.
pub open spec fn budget_kept(name: Seq<char>) -> spec_fn(BudgetView) -> bool {
    |b: BudgetView| b.name != name
}

/// Transactions that a deletion of `name` in budget `budget_id` keeps.
pub open spec fn transaction_kept(budget_id: u64, name: Seq<char>) -> spec_fn(
    TransactionView,
) -> bool {
    |t: TransactionView| !(t.budget_id == budget_id && t.name == name)
}

/// What creating a budget returns: a blank name or a total out of range is
/// refused, and otherwise the next identifier is given while one is left.
pub open spec fn add_budget_result(l: Ledger, name: Seq<char>, total_amount: i64) -> Result<
    u64,
    LedgerError,
> {
    if blank(name) || !valid_total(total_amount) {
        Err(LedgerError::Validation)
    } else if l.next_budget_id == u64::MAX {
        Err(LedgerError::Store)
    } else {
        Ok(l.next_budget_id)
    }
}

/// `l` with a new budget at the end, whose remaining amount is its total.
pub open spec fn with_budget(l: Ledger, name: Seq<char>, total_amount: i64) -> Ledger {
    Ledger {
        budgets: l.budgets.push(
            BudgetView {
                id: l.next_budget_id,
                name,
                total_amount,
                remaining_amount: total_amount,
            },
        ),
        next_budget_id: (l.next_budget_id + 1) as u64,
        ..l
    }
}

/// `l` without the budgets named `name`.
pub open spec fn without_budget(l: Ledger, name: Seq<char>) -> Ledger {
    Ledger { budgets: l.budgets.filter(budget_kept(name)), ..l }
}

proof fn lemma_has_named_step(bs: Seq<BudgetView>, k: int, name: Seq<char>)
    requires
        0 <= k < bs.len(),
    ensures
        has_named(bs.subrange(0, k + 1), name) == (has_named(bs.subrange(0, k), name)
            || bs[k].name == name),
{
    if has_named(bs.subrange(0, k), name) {
        let w = choose|w: int| 0 <= w < k && #[trigger] bs.subrange(0, k)[w].name == name;
        assert(bs.subrange(0, k + 1)[w] == bs[w]);
    }
    if bs[k].name == name {
        assert(bs.subrange(0, k + 1)[k] == bs[k]);
    }
    if has_named(bs.subrange(0, k + 1), name) && bs[k].name != name {
        let w = choose|w: int| 0 <= w < k + 1 && #[trigger] bs.subrange(0, k + 1)[w].name == name;
        assert(bs.subrange(0, k)[w] == bs[w]);
    }
}

/// A budget after an edit that renames it to `name` and sets its total.
pub open spec fn renamed(b: BudgetView, name: Seq<char>, total_amount: i64) -> BudgetView {
    BudgetView { name, total_amount, ..b }
}

/// `l` with every budget named `old_name` renamed and given a new total.
pub open spec fn with_budget_edited(
    l: Ledger,
    old_name: Seq<char>,
    new_name: Seq<char>,
    total_amount: i64,
) -> Ledger {
    Ledger {
        budgets: l.budgets.map_values(
            |b: BudgetView|
                if b.name == old_name {
                    renamed(b, new_name, total_amount)
                } else {
                    b
                },
        ),
        ..l
    }
}

/// Some transaction of budget `budget_id` is named `name`.
pub open spec fn has_transaction(ts: Seq<TransactionView>, budget_id: u64, name: Seq<char>) -> bool {
    exists|i: int| 0 <= i < ts.len() && ts[i].budget_id == budget_id && ts[i].name == name
}

/// What recording a transaction against the budget named `name` returns.
pub open spec fn add_transaction_result(l: Ledger, name: Seq<char>) -> Result<u64, LedgerError> {
    match budget_id_of(l.budgets, name) {
        None => Err(LedgerError::NotFound),
        Some(_) => if l.next_transaction_id == u64::MAX {
            Err(LedgerError::Store)
        } else {
            Ok(l.next_transaction_id)
        },
    }
}

/// `l` with a new transaction of budget `budget_id` at the end.
pub open spec fn with_transaction(l: Ledger, budget_id: u64, name: Seq<char>, amount: i64) -> Ledger {
    Ledger {
        transactions: l.transactions.push(
            TransactionView { id: l.next_transaction_id, budget_id, name, amount },
        ),
        next_transaction_id: (l.next_transaction_id + 1) as u64,
        ..l
    }
}

/// `l` after recording a transaction against the first budget named
/// `budget_name`, which exists.
pub open spec fn after_add_transaction(
    l: Ledger,
    budget_name: Seq<char>,
    name: Seq<char>,
    amount: i64,
) -> Ledger {
    with_transaction(l, budget_id_of(l.budgets, budget_name)->Some_0, name, amount)
}

/// What removing a transaction reports.
pub open spec fn remove_outcome(l: Ledger, budget_name: Seq<char>, name: Seq<char>) -> RemoveOutcome {
    match budget_id_of(l.budgets, budget_name) {
        None => RemoveOutcome::BudgetNotFound,
        Some(id) => if has_transaction(l.transactions, id, name) {
            RemoveOutcome::Removed
        } else {
            RemoveOutcome::NotFound
        },
    }
}

/// `l` after removing the transactions named `name` of the first budget named
/// `budget_name`; unchanged when there is no such budget.
pub open spec fn after_remove_transaction(l: Ledger, budget_name: Seq<char>, name: Seq<char>) -> Ledger {
    match budget_id_of(l.budgets, budget_name) {
        None => l,
        Some(id) => Ledger { transactions: l.transactions.filter(transaction_kept(id, name)), ..l },
    }
}

/// A transaction after an edit that renames it and sets its amount.
pub open spec fn retold(t: TransactionView, name: Seq<char>, amount: i64) -> TransactionView {
    TransactionView { name, amount, ..t }
}

/// What editing a transaction reports.
pub open spec fn edit_outcome(l: Ledger, budget_name: Seq<char>, name: Seq<char>) -> EditOutcome {
    match budget_id_of(l.budgets, budget_name) {
        None => EditOutcome::BudgetNotFound,
        Some(id) => if has_transaction(l.transactions, id, name) {
            EditOutcome::Updated
        } else {
            EditOutcome::NotFound
        },
    }
}

/// `l` after renaming the transactions named `old_name` of the first budget
/// named `budget_name` and setting their amount.
pub open spec fn after_edit_transaction(
    l: Ledger,
    budget_name: Seq<char>,
    old_name: Seq<char>,
    new_name: Seq<char>,
    amount: i64,
) -> Ledger {
    match budget_id_of(l.budgets, budget_name) {
        None => l,
        Some(id) => Ledger {
            transactions: l.transactions.map_values(
                |t: TransactionView|
                    if t.budget_id == id && t.name == old_name {
                        retold(t, new_name, amount)
                    } else {
                        t
                    },
            ),
            ..l
        },
    }
}

/// The balance of the first budget named `budget_name` against a total given
/// by the caller.
pub open spec fn remaining_result(l: Ledger, budget_name: Seq<char>, total_amount: i64) -> Result<
    Balance,
    LedgerError,
> {
    match budget_id_of(l.budgets, budget_name) {
        None => Err(LedgerError::NotFound),
        Some(id) => Ok(balance_of(total_amount as int, spent(l.transactions, id))),
    }
}

/// What the transactions of the first budget named `budget_name` spent;
/// nothing when there is no such budget.
pub open spec fn spent_of_named(l: Ledger, budget_name: Seq<char>) -> int {
    match budget_id_of(l.budgets, budget_name) {
        Some(id) => spent(l.transactions, id),
        None => 0,
    }
}

/// A sum of transaction amounts as large as a ledger can hold: at most
/// `usize::MAX` amounts of `i64`.
pub open spec fn spent_fits(s: int) -> bool {
    -0x7fff_ffff_ffff_ffff_8000_0000_0000_0000 <= s <= 0x7fff_ffff_ffff_fffe_8000_0000_0000_0001
}

/// What `ts` spent on a budget is bounded by the number of transactions.
pub proof fn lemma_spent_bounds(ts: Seq<TransactionView>, budget_id: u64)
    ensures
        -(ts.len() as int) * 0x8000_0000_0000_0000 <= spent(ts, budget_id) <= (ts.len() as int)
            * 0x7fff_ffff_ffff_ffff,
    decreases ts.len(),
{
    if ts.len() > 0 {
        lemma_spent_bounds(ts.drop_last(), budget_id);
    }
}

/// The stored total of the first budget named `budget_name` minus what its
/// transactions spent.
pub open spec fn stored_remaining(l: Ledger, budget_name: Seq<char>) -> Option<int> {
    match first_named(l.budgets, budget_name) {
        None => None,
        Some(i) => Some(l.budgets[i].total_amount - spent(l.transactions, l.budgets[i].id)),
    }
}

proof fn lemma_has_transaction_step(ts: Seq<TransactionView>, k: int, budget_id: u64, name: Seq<char>)
    requires
        0 <= k < ts.len(),
    ensures
        has_transaction(ts.subrange(0, k + 1), budget_id, name) == (has_transaction(
            ts.subrange(0, k),
            budget_id,
            name,
        ) || (ts[k].budget_id == budget_id && ts[k].name == name)),
{
    let lo = ts.subrange(0, k);
    let hi = ts.subrange(0, k + 1);
    if has_transaction(lo, budget_id, name) {
        let w = choose|w: int|
            0 <= w < k && #[trigger] lo[w].budget_id == budget_id && lo[w].name == name;
        assert(hi[w] == ts[w]);
    }
    if ts[k].budget_id == budget_id && ts[k].name == name {
        assert(hi[k] == ts[k]);
    }
    if has_transaction(hi, budget_id, name) && !(ts[k].budget_id == budget_id && ts[k].name
        == name) {
        let w = choose|w: int|
            0 <= w < k + 1 && #[trigger] hi[w].budget_id == budget_id && hi[w].name == name;
        assert(lo[w] == ts[w]);
    }
}

/// The identifier of the user named `name`, if there is one.
pub open spec fn user_id_of(us: Seq<UserView>, name: Seq<char>) -> Option<u64> {
    if exists|i: int| 0 <= i < us.len() && us[i].name == name {
        Some(us[choose|i: int| 0 <= i < us.len() && us[i].name == name].id)
    } else {
        None
    }
}

/// What registering a user returns: the identifier of the user of that name,
/// a new one while one is left.
pub open spec fn add_user_result(l: Ledger, name: Seq<char>) -> Result<u64, LedgerError> {
    match user_id_of(l.users, name) {
        Some(id) => Ok(id),
        None => if l.next_user_id == u64::MAX {
            Err(LedgerError::Store)
        } else {
            Ok(l.next_user_id)
        },
    }
}

/// `l` after registering a user named `name`, unless one was there.
pub open spec fn after_add_user(l: Ledger, name: Seq<char>) -> Ledger {
    if add_user_result(l, name) is Ok && user_id_of(l.users, name) is None {
        Ledger {
            users: l.users.push(UserView { id: l.next_user_id, name }),
            next_user_id: (l.next_user_id + 1) as u64,
            ..l
        }
    } else {
        l
    }
}

/// `l` after importing one record: its transaction is recorded when its
/// budget exists, and skipped otherwise.
pub open spec fn import_step(l: Ledger, rec: ImportView) -> Ledger {
    if add_transaction_result(l, rec.budget_name) is Ok {
        after_add_transaction(l, rec.budget_name, rec.desc, rec.amount)
    } else {
        l
    }
}

/// `l` after importing the records in order.
pub open spec fn after_import(l: Ledger, recs: Seq<ImportView>) -> Ledger
    decreases recs.len(),
{
    if recs.len() == 0 {
        l
    } else {
        import_step(after_import(l, recs.drop_last()), recs.last())
    }
}

/// Whether the record at `k` was imported: its budget existed when its turn came.
pub open spec fn imported(l: Ledger, recs: Seq<ImportView>, k: int) -> bool {
    add_transaction_result(after_import(l, recs.subrange(0, k)), recs[k].budget_name) is Ok
}

/// Budget identifiers increase along the sequence.
pub open spec fn budget_ids_increase(bs: Seq<BudgetView>) -> bool {
    forall|i: int, j: int| 0 <= i < j < bs.len() ==> bs[i].id < bs[j].id
}

/// Transaction identifiers increase along the sequence.
pub open spec fn transaction_ids_increase(ts: Seq<TransactionView>) -> bool {
    forall|i: int, j: int| 0 <= i < j < ts.len() ==> ts[i].id < ts[j].id
}

/// User identifiers increase along the sequence, and no two users share a name.
pub open spec fn users_well_formed(us: Seq<UserView>) -> bool {
    &&& forall|i: int, j: int| 0 <= i < j < us.len() ==> us[i].id < us[j].id
    &&& forall|i: int, j: int| 0 <= i < j < us.len() ==> us[i].name != us[j].name
}

/// The larger of two identifiers.
pub open spec fn max_id(a: u64, b: u64) -> u64 {
    if a >= b {
        a
    } else {
        b
    }
}

/// The highest of `floor` and of the budgets that the transactions refer to.
pub open spec fn highest_budget_ref(ts: Seq<TransactionView>, floor: u64) -> u64
    decreases ts.len(),
{
    if ts.len() == 0 {
        floor
    } else {
        max_id(highest_budget_ref(ts.drop_last(), floor), ts.last().budget_id)
    }
}

/// The highest budget identifier in use or given out before: `given`, the
/// last budget's, and every one that a transaction refers to.
pub open spec fn budget_floor(bs: Seq<BudgetView>, ts: Seq<TransactionView>, given: u64) -> u64 {
    highest_budget_ref(
        ts,
        if bs.len() == 0 {
            given
        } else {
            max_id(given, bs.last().id)
        },
    )
}

/// The highest transaction identifier in use or given out before.
pub open spec fn transaction_floor(ts: Seq<TransactionView>, given: u64) -> u64 {
    if ts.len() == 0 {
        given
    } else {
        max_id(given, ts.last().id)
    }
}

/// The highest user identifier in use or given out before.
pub open spec fn user_floor(us: Seq<UserView>, given: u64) -> u64 {
    if us.len() == 0 {
        given
    } else {
        max_id(given, us.last().id)
    }
}

proof fn lemma_highest_budget_ref(ts: Seq<TransactionView>, floor: u64)
    ensures
        floor <= highest_budget_ref(ts, floor),
        forall|i: int| 0 <= i < ts.len() ==> ts[i].budget_id <= highest_budget_ref(ts, floor),
    decreases ts.len(),
{
    if ts.len() > 0 {
        let init = ts.drop_last();
        lemma_highest_budget_ref(init, floor);
        assert forall|i: int| 0 <= i < ts.len() implies ts[i].budget_id <= highest_budget_ref(
            ts,
            floor,
        ) by {
            if i < ts.len() - 1 {
                assert(init[i] == ts[i]);
            }
        }
    }
}

proof fn lemma_first_named_unique(bs: Seq<BudgetView>, name: Seq<char>, i: int, k: int)
    requires
        is_first_named(bs, name, i),
        is_first_named(bs, name, k),
    ensures
        i == k,
{
}

proof fn lemma_first_named_at(bs: Seq<BudgetView>, name: Seq<char>, i: int)
    requires
        is_first_named(bs, name, i),
    ensures
        first_named(bs, name) == Some(i),
{
    let k = choose|k: int| is_first_named(bs, name, k);
    lemma_first_named_unique(bs, name, i, k);
}

proof fn lemma_first_named_none(bs: Seq<BudgetView>, name: Seq<char>)
    requires
        !has_named(bs, name),
    ensures
        first_named(bs, name) is None,
{
}

/// A budget ledger held in memory: the budgets and transactions in the order
/// they were recorded, and the identifiers that the next records will get.
pub struct BudgetManager {
    budgets: Vec<BudgetRow>,
    transactions: Vec<TransactionRow>,
    users: Vec<UserRow>,
    next_budget_id: u64,
    next_transaction_id: u64,
    next_user_id: u64,
}

impl View for BudgetManager {
    type V = Ledger;

    closed spec fn view(&self) -> Ledger {
        Ledger {
            budgets: budget_views(self.budgets@),
            transactions: transaction_views(self.transactions@),
            users: self.users@.map_values(|u: UserRow| u@),
            next_budget_id: self.next_budget_id,
            next_transaction_id: self.next_transaction_id,
            next_user_id: self.next_user_id,
        }
    }
}

impl Ledger {
    /// Identifiers are given in increasing order, each below the next to give.
    pub open spec fn wf(&self) -> bool {
        &&& forall|i: int, j: int|
            0 <= i < j < self.budgets.len() ==> self.budgets[i].id < self.budgets[j].id
        &&& forall|i: int| 0 <= i < self.budgets.len() ==> self.budgets[i].id < self.next_budget_id
        &&& forall|i: int, j: int|
            0 <= i < j < self.transactions.len() ==> self.transactions[i].id
                < self.transactions[j].id
        &&& forall|i: int|
            0 <= i < self.transactions.len() ==> self.transactions[i].id
                < self.next_transaction_id
        &&& forall|i: int, j: int|
            0 <= i < j < self.users.len() ==> self.users[i].id < self.users[j].id
        &&& forall|i: int| 0 <= i < self.users.len() ==> self.users[i].id < self.next_user_id
        &&& forall|i: int, j: int|
            0 <= i < j < self.users.len() ==> self.users[i].name != self.users[j].name
    }
}

impl BudgetRow {
    /// A copy of the row.
    pub fn duplicate(&self) -> (r: BudgetRow)
        ensures
            r@ == self@,
    {
        BudgetRow {
            id: self.id,
            name: self.name.clone(),
            total_amount: self.total_amount,
            remaining_amount: self.remaining_amount,
        }
    }
}

impl BudgetManager {
    /// An empty ledger.
    pub fn new() -> (r: Self)
        ensures
            r@.wf(),
            r@.budgets.len() == 0,
            r@.transactions.len() == 0,
            r@.users.len() == 0,
            r@.next_budget_id == 1,
            r@.next_transaction_id == 1,
            r@.next_user_id == 1,
    {
        BudgetManager {
            budgets: Vec::new(),
            transactions: Vec::new(),
            users: Vec::new(),
            next_budget_id: 1,
            next_transaction_id: 1,
            next_user_id: 1,
        }
    }

    /// The identifier of the first budget named `budget_name`.
    pub fn get_budget_id(&self, budget_name: &str) -> (r: Option<u64>)
        ensures
            r == budget_id_of(self@.budgets, budget_name@),
    {
        let key = budget_name.to_owned();
        let mut i: usize = 0;
        while i < self.budgets.len()
            invariant
                i <= self.budgets@.len(),
                key@ == budget_name@,
                forall|j: int| 0 <= j < i ==> self@.budgets[j].name != key@,
            decreases self.budgets@.len() - i,
        {
            if self.budgets[i].name == key {
                proof {
                    lemma_first_named_at(self@.budgets, key@, i as int);
                }
                return Some(self.budgets[i].id);
            }
            i = i + 1;
        }
        proof {
            lemma_first_named_none(self@.budgets, key@);
        }
        None
    }

    /// Records a new budget whose remaining amount starts at its total, and
    /// returns its identifier. A blank name or a total outside nothing to one
    /// million is refused and nothing is recorded.
    pub fn add_budget(&mut self, budget_name: &str, total_amount: i64) -> (r: Result<
        u64,
        LedgerError,
    >)
        requires
            old(self)@.wf(),
        ensures
            final(self)@.wf(),
            r == add_budget_result(old(self)@, budget_name@, total_amount),
            budget_name@.len() == 0 ==> r == Err::<u64, LedgerError>(LedgerError::Validation),
            r is Err ==> final(self)@ == old(self)@,
            r is Ok ==> final(self)@ == with_budget(old(self)@, budget_name@, total_amount),
    {
        if is_blank(budget_name) {
            return Err(LedgerError::Validation);
        }
        if total_amount < 0 || total_amount > MAX_TOTAL_CENTS {
            return Err(LedgerError::Validation);
        }
        if self.next_budget_id == u64::MAX {
            return Err(LedgerError::Store);
        }
        let id = self.next_budget_id;
        let row = BudgetRow {
            id,
            name: budget_name.to_owned(),
            total_amount,
            remaining_amount: total_amount,
        };
        self.budgets.push(row);
        self.next_budget_id = id + 1;
        proof {
            assert(self@.budgets =~= with_budget(old(self)@, budget_name@, total_amount).budgets);
        }
        Ok(id)
    }

    /// Deletes every budget named `budget_name`, and tells whether there was
    /// one. Their transactions stay.
    pub fn remove_budget(&mut self, budget_name: &str) -> (r: bool)
        requires
            old(self)@.wf(),
        ensures
            final(self)@.wf(),
            final(self)@ == without_budget(old(self)@, budget_name@),
            r == has_named(old(self)@.budgets, budget_name@),
    {
        let key = budget_name.to_owned();
        let ghost orig = self@.budgets;
        let ghost keep = budget_kept(budget_name@);
        let ghost mut k: int = 0;
        let mut i: usize = 0;
        let mut removed = false;
        while i < self.budgets.len()
            invariant
                key@ == budget_name@,
                keep == budget_kept(budget_name@),
                orig == old(self)@.budgets,
                0 <= k <= orig.len(),
                self@.budgets == orig.subrange(0, k).filter(keep) + orig.subrange(k, orig.len() as int),
                i == orig.subrange(0, k).filter(keep).len(),
                removed == has_named(orig.subrange(0, k), budget_name@),
                self@.transactions == old(self)@.transactions,
                self@.next_budget_id == old(self)@.next_budget_id,
                self@.next_transaction_id == old(self)@.next_transaction_id,
                self@.users == old(self)@.users,
                self@.next_user_id == old(self)@.next_user_id,
                self@.wf(),
            decreases self.budgets@.len() - i,
        {
            proof {
                assert(orig.subrange(0, k + 1) =~= orig.subrange(0, k).push(orig[k]));
                orig.subrange(0, k).lemma_filter_push(orig[k], keep);
                assert(self@.budgets[i as int] == orig[k]);
                lemma_has_named_step(orig, k, budget_name@);
            }
            if self.budgets[i].name == key {
                let ghost before = self@.budgets;
                self.budgets.remove(i);
                removed = true;
                proof {
                    assert(self@.budgets =~= before.remove(i as int));
                    assert(self@.budgets =~= orig.subrange(0, k + 1).filter(keep) + orig.subrange(
                        k + 1,
                        orig.len() as int,
                    ));
                    assert forall|a: int, b: int|
                        0 <= a < b < self@.budgets.len() implies self@.budgets[a].id
                        < self@.budgets[b].id by {
                        let a0 = if a < i { a } else { a + 1 };
                        let b0 = if b < i { b } else { b + 1 };
                        assert(before[a0].id < before[b0].id);
                    }
                    assert forall|a: int| 0 <= a < self@.budgets.len() implies self@.budgets[a].id
                        < self.next_budget_id by {
                        let a0 = if a < i { a } else { a + 1 };
                        assert(before[a0].id < self.next_budget_id);
                    }
                }
            } else {
                i = i + 1;
                proof {
                    assert(self@.budgets =~= orig.subrange(0, k + 1).filter(keep) + orig.subrange(
                        k + 1,
                        orig.len() as int,
                    ));
                }
            }
            proof {
                k = k + 1;
            }
        }
        proof {
            assert(orig.subrange(0, k) =~= orig);
            assert(orig.subrange(k, orig.len() as int) =~= Seq::<BudgetView>::empty());
            assert(self@.budgets =~= orig.filter(keep));
        }
        removed
    }

    /// Renames every budget named `old_budget_name` and sets its total, which
    /// is not checked against the range a new budget must respect; the
    /// recorded remaining amount stays. Tells whether there was such a budget.
    pub fn edit_budget(
        &mut self,
        new_budget_name: String,
        old_budget_name: String,
        new_total_amount: i64,
    ) -> (r: bool)
        requires
            old(self)@.wf(),
        ensures
            final(self)@.wf(),
            final(self)@ == with_budget_edited(
                old(self)@,
                old_budget_name@,
                new_budget_name@,
                new_total_amount,
            ),
            r == has_named(old(self)@.budgets, old_budget_name@),
    {
        let ghost orig = self@.budgets;
        let ghost target = with_budget_edited(
            old(self)@,
            old_budget_name@,
            new_budget_name@,
            new_total_amount,
        ).budgets;
        let mut i: usize = 0;
        let mut found = false;
        while i < self.budgets.len()
            invariant
                orig == old(self)@.budgets,
                target.len() == orig.len(),
                forall|j: int| 0 <= j < orig.len() ==> #[trigger] target[j] == (if orig[j].name
                    == old_budget_name@ {
                    renamed(orig[j], new_budget_name@, new_total_amount)
                } else {
                    orig[j]
                }),
                i <= self@.budgets.len(),
                self@.budgets.len() == orig.len(),
                forall|j: int| 0 <= j < i ==> self@.budgets[j] == target[j],
                forall|j: int| i <= j < orig.len() ==> self@.budgets[j] == orig[j],
                found == has_named(orig.subrange(0, i as int), old_budget_name@),
                self@.transactions == old(self)@.transactions,
                self@.next_budget_id == old(self)@.next_budget_id,
                self@.next_transaction_id == old(self)@.next_transaction_id,
                self@.users == old(self)@.users,
                self@.next_user_id == old(self)@.next_user_id,
            decreases self.budgets@.len() - i,
        {
            proof {
                lemma_has_named_step(orig, i as int, old_budget_name@);
            }
            if self.budgets[i].name == old_budget_name {
                self.budgets[i].name = new_budget_name.clone();
                self.budgets[i].total_amount = new_total_amount;
                found = true;
            }
            i = i + 1;
        }
        proof {
            assert(self@.budgets =~= target);
            assert(orig.subrange(0, i as int) =~= orig);
        }
        found
    }

    /// The budgets as stored, in the order they were recorded, with the
    /// remaining amount recorded at creation.
    pub fn display_budgets(&self) -> (r: Vec<BudgetRow>)
        ensures
            budget_views(r@) == self@.budgets,
    {
        let mut out: Vec<BudgetRow> = Vec::new();
        let mut i: usize = 0;
        while i < self.budgets.len()
            invariant
                i <= self.budgets@.len(),
                budget_views(out@) == self@.budgets.subrange(0, i as int),
            decreases self.budgets@.len() - i,
        {
            let row = self.budgets[i].duplicate();
            proof {
                assert(row@ == self@.budgets[i as int]);
            }
            let ghost before = out@;
            out.push(row);
            proof {
                assert(out@ == before.push(row));
                assert(budget_views(out@) =~= budget_views(before).push(row@));
            }
            i = i + 1;
            proof {
                assert(budget_views(out@) =~= self@.budgets.subrange(0, i as int));
            }
        }
        proof {
            assert(self@.budgets.subrange(0, i as int) =~= self@.budgets);
        }
        out
    }

    /// The sum of the amounts of the transactions of budget `budget_id`.
    fn spent_by(&self, budget_id: u64) -> (r: i128)
        ensures
            r == spent(self@.transactions, budget_id),
            -0x7fff_ffff_ffff_ffff_8000_0000_0000_0000 <= r <= 0x7fff_ffff_ffff_fffe_8000_0000_0000_0001,
    {
        let ghost ts = self@.transactions;
        let mut sum: i128 = 0;
        let mut i: usize = 0;
        while i < self.transactions.len()
            invariant
                ts == self@.transactions,
                i <= ts.len(),
                sum == spent(ts.subrange(0, i as int), budget_id),
                -(i as int) * 0x8000_0000_0000_0000 <= sum <= (i as int) * 0x7fff_ffff_ffff_ffff,
            decreases ts.len() - i,
        {
            proof {
                assert(ts.subrange(0, i + 1).drop_last() =~= ts.subrange(0, i as int));
                assert(ts.subrange(0, i + 1).last() == ts[i as int]);
            }
            if self.transactions[i].budget_id == budget_id {
                sum = sum + self.transactions[i].amount as i128;
            }
            i = i + 1;
        }
        proof {
            assert(ts.subrange(0, i as int) =~= ts);
            assert(i as int <= 0xffff_ffff_ffff_ffff);
        }
        sum
    }

    /// The balance of the first budget named `budget_name`: `total_amount`
    /// minus what its transactions spent (nothing when it has none), and
    /// whether that is under a tenth of `total_amount`.
    pub fn calculate_remaining_amount(&self, budget_name: &str, total_amount: i64) -> (r: Result<
        Balance,
        LedgerError,
    >)
        ensures
            r == remaining_result(self@, budget_name@, total_amount),
            spent_fits(spent_of_named(self@, budget_name@)),
    {
        let count = self.transactions.len();
        proof {
            assert(count as int <= 0xffff_ffff_ffff_ffff);
            if let Some(id) = budget_id_of(self@.budgets, budget_name@) {
                lemma_spent_bounds(self@.transactions, id);
            }
        }
        match self.get_budget_id(budget_name) {
            None => Err(LedgerError::NotFound),
            Some(id) => {
                let total_spent = self.spent_by(id);
                let remaining = total_amount as i128 - total_spent;
                Ok(Balance { remaining, low_balance: low_balance(total_amount, remaining) })
            },
        }
    }

    /// The stored total of the first budget named `budget_name` minus what its
    /// transactions spent; no alert is raised here.
    pub fn show_remaining_amount(&self, budget_name: &str) -> (r: Option<i128>)
        ensures
            r matches Some(v) ==> stored_remaining(self@, budget_name@) == Some(v as int),
            r is None <==> stored_remaining(self@, budget_name@) is None,
    {
        let key = budget_name.to_owned();
        let mut i: usize = 0;
        while i < self.budgets.len()
            invariant
                i <= self.budgets@.len(),
                key@ == budget_name@,
                forall|j: int| 0 <= j < i ==> self@.budgets[j].name != key@,
            decreases self.budgets@.len() - i,
        {
            if self.budgets[i].name == key {
                proof {
                    lemma_first_named_at(self@.budgets, key@, i as int);
                }
                let total_spent = self.spent_by(self.budgets[i].id);
                return Some(self.budgets[i].total_amount as i128 - total_spent);
            }
            i = i + 1;
        }
        proof {
            lemma_first_named_none(self@.budgets, key@);
        }
        None
    }

    /// Records a transaction against the first budget named `budget_name` and
    /// returns its identifier; without such a budget nothing is recorded.
    pub fn add_transaction(&mut self, budget_name: &str, transaction_name: String, amount: i64) -> (r:
        Result<u64, LedgerError>)
        requires
            old(self)@.wf(),
        ensures
            final(self)@.wf(),
            r == add_transaction_result(old(self)@, budget_name@),
            r is Err ==> final(self)@ == old(self)@,
            r is Ok ==> final(self)@ == after_add_transaction(
                old(self)@,
                budget_name@,
                transaction_name@,
                amount,
            ),
    {
        let budget_id = match self.get_budget_id(budget_name) {
            None => {
                return Err(LedgerError::NotFound);
            },
            Some(id) => id,
        };
        if self.next_transaction_id == u64::MAX {
            return Err(LedgerError::Store);
        }
        let id = self.next_transaction_id;
        let ghost name = transaction_name@;
        self.transactions.push(TransactionRow { id, budget_id, name: transaction_name, amount });
        self.next_transaction_id = id + 1;
        proof {
            assert(self@.transactions =~= with_transaction(old(self)@, budget_id, name, amount).transactions);
        }
        Ok(id)
    }

    /// Deletes the transactions named `transaction_name` of the first budget
    /// named `budget_name`, and reports whether there was such a budget and
    /// such a transaction.
    pub fn remove_transaction(&mut self, budget_name: &str, transaction_name: &str) -> (r:
        RemoveOutcome)
        requires
            old(self)@.wf(),
        ensures
            final(self)@.wf(),
            r == remove_outcome(old(self)@, budget_name@, transaction_name@),
            final(self)@ == after_remove_transaction(old(self)@, budget_name@, transaction_name@),
    {
        let budget_id = match self.get_budget_id(budget_name) {
            None => {
                return RemoveOutcome::BudgetNotFound;
            },
            Some(id) => id,
        };
        let key = transaction_name.to_owned();
        let ghost orig = self@.transactions;
        let ghost keep = transaction_kept(budget_id, transaction_name@);
        let ghost mut k: int = 0;
        let mut i: usize = 0;
        let mut removed = false;
        while i < self.transactions.len()
            invariant
                key@ == transaction_name@,
                keep == transaction_kept(budget_id, transaction_name@),
                orig == old(self)@.transactions,
                0 <= k <= orig.len(),
                self@.transactions == orig.subrange(0, k).filter(keep) + orig.subrange(
                    k,
                    orig.len() as int,
                ),
                i == orig.subrange(0, k).filter(keep).len(),
                removed == has_transaction(orig.subrange(0, k), budget_id, transaction_name@),
                self@.budgets == old(self)@.budgets,
                self@.next_budget_id == old(self)@.next_budget_id,
                self@.next_transaction_id == old(self)@.next_transaction_id,
                self@.users == old(self)@.users,
                self@.next_user_id == old(self)@.next_user_id,
                self@.wf(),
            decreases self.transactions@.len() - i,
        {
            proof {
                assert(orig.subrange(0, k + 1) =~= orig.subrange(0, k).push(orig[k]));
                orig.subrange(0, k).lemma_filter_push(orig[k], keep);
                assert(self@.transactions[i as int] == orig[k]);
                lemma_has_transaction_step(orig, k, budget_id, transaction_name@);
            }
            if self.transactions[i].budget_id == budget_id && self.transactions[i].name == key {
                let ghost before = self@.transactions;
                self.transactions.remove(i);
                removed = true;
                proof {
                    assert(self@.transactions =~= before.remove(i as int));
                    assert(self@.transactions =~= orig.subrange(0, k + 1).filter(keep)
                        + orig.subrange(k + 1, orig.len() as int));
                    assert forall|a: int, b: int|
                        0 <= a < b < self@.transactions.len() implies self@.transactions[a].id
                        < self@.transactions[b].id by {
                        let a0 = if a < i { a } else { a + 1 };
                        let b0 = if b < i { b } else { b + 1 };
                        assert(before[a0].id < before[b0].id);
                    }
                    assert forall|a: int|
                        0 <= a < self@.transactions.len() implies self@.transactions[a].id
                        < self.next_transaction_id by {
                        let a0 = if a < i { a } else { a + 1 };
                        assert(before[a0].id < self.next_transaction_id);
                    }
                }
            } else {
                i = i + 1;
                proof {
                    assert(self@.transactions =~= orig.subrange(0, k + 1).filter(keep)
                        + orig.subrange(k + 1, orig.len() as int));
                }
            }
            proof {
                k = k + 1;
            }
        }
        proof {
            assert(orig.subrange(0, k) =~= orig);
            assert(orig.subrange(k, orig.len() as int) =~= Seq::<TransactionView>::empty());
            assert(self@.transactions =~= orig.filter(keep));
        }
        if removed {
            RemoveOutcome::Removed
        } else {
            RemoveOutcome::NotFound
        }
    }

    /// Renames the transactions named `old_name` of the first budget named
    /// `budget_name` and sets their amount, and reports whether there was such
    /// a budget and such a transaction.
    pub fn edit_transaction(
        &mut self,
        budget_name: &str,
        old_name: String,
        new_name: String,
        new_amount: i64,
    ) -> (r: EditOutcome)
        requires
            old(self)@.wf(),
        ensures
            final(self)@.wf(),
            r == edit_outcome(old(self)@, budget_name@, old_name@),
            final(self)@ == after_edit_transaction(
                old(self)@,
                budget_name@,
                old_name@,
                new_name@,
                new_amount,
            ),
    {
        let budget_id = match self.get_budget_id(budget_name) {
            None => {
                return EditOutcome::BudgetNotFound;
            },
            Some(id) => id,
        };
        let ghost orig = self@.transactions;
        let ghost target = after_edit_transaction(
            old(self)@,
            budget_name@,
            old_name@,
            new_name@,
            new_amount,
        ).transactions;
        let mut i: usize = 0;
        let mut found = false;
        while i < self.transactions.len()
            invariant
                orig == old(self)@.transactions,
                target.len() == orig.len(),
                forall|j: int| 0 <= j < orig.len() ==> #[trigger] target[j] == (if orig[j].budget_id
                    == budget_id && orig[j].name == old_name@ {
                    retold(orig[j], new_name@, new_amount)
                } else {
                    orig[j]
                }),
                i <= self@.transactions.len(),
                self@.transactions.len() == orig.len(),
                forall|j: int| 0 <= j < i ==> self@.transactions[j] == target[j],
                forall|j: int| i <= j < orig.len() ==> self@.transactions[j] == orig[j],
                found == has_transaction(orig.subrange(0, i as int), budget_id, old_name@),
                self@.budgets == old(self)@.budgets,
                self@.next_budget_id == old(self)@.next_budget_id,
                self@.next_transaction_id == old(self)@.next_transaction_id,
                self@.users == old(self)@.users,
                self@.next_user_id == old(self)@.next_user_id,
            decreases self.transactions@.len() - i,
        {
            proof {
                lemma_has_transaction_step(orig, i as int, budget_id, old_name@);
            }
            if self.transactions[i].budget_id == budget_id && self.transactions[i].name == old_name {
                self.transactions[i].name = new_name.clone();
                self.transactions[i].amount = new_amount;
                found = true;
            }
            i = i + 1;
        }
        proof {
            assert(self@.transactions =~= target);
            assert(orig.subrange(0, i as int) =~= orig);
        }
        if found {
            EditOutcome::Updated
        } else {
            EditOutcome::NotFound
        }
    }

    /// Imports the records in order: each is recorded as a transaction of the
    /// first budget of its budget name, and skipped when there is none. Tells
    /// for each record whether it was recorded.
    pub fn import_transactions(&mut self, records: &Vec<ImportRecord>) -> (r: Vec<bool>)
        requires
            old(self)@.wf(),
        ensures
            final(self)@.wf(),
            final(self)@ == after_import(old(self)@, records@.map_values(|x: ImportRecord| x@)),
            r@.len() == records@.len(),
            forall|k: int|
                0 <= k < r@.len() ==> r@[k] == imported(
                    old(self)@,
                    records@.map_values(|x: ImportRecord| x@),
                    k,
                ),
    {
        let ghost recs = records@.map_values(|x: ImportRecord| x@);
        let mut flags: Vec<bool> = Vec::new();
        let mut i: usize = 0;
        while i < records.len()
            invariant
                recs == records@.map_values(|x: ImportRecord| x@),
                i <= records@.len(),
                self@.wf(),
                self@ == after_import(old(self)@, recs.subrange(0, i as int)),
                flags@.len() == i,
                forall|k: int| 0 <= k < i ==> flags@[k] == imported(old(self)@, recs, k),
            decreases records@.len() - i,
        {
            let rec = &records[i];
            let ghost before = self@;
            let res = self.add_transaction(&rec.budget_name, rec.desc.clone(), rec.amount);
            proof {
                assert(recs.subrange(0, i + 1).drop_last() =~= recs.subrange(0, i as int));
                assert(recs.subrange(0, i + 1).last() == recs[i as int]);
                assert(recs[i as int] == rec@);
                assert(self@ == import_step(before, rec@));
            }
            flags.push(res.is_ok());
            i = i + 1;
        }
        proof {
            assert(recs.subrange(0, i as int) =~= recs);
        }
        flags
    }

    /// Registers a user named `user_name` unless one is there, and returns the
    /// identifier of the user of that name.
    pub fn add_user(&mut self, user_name: &str) -> (r: Result<u64, LedgerError>)
        requires
            old(self)@.wf(),
        ensures
            final(self)@.wf(),
            r == add_user_result(old(self)@, user_name@),
            final(self)@ == after_add_user(old(self)@, user_name@),
    {
        let key = user_name.to_owned();
        let mut i: usize = 0;
        while i < self.users.len()
            invariant
                i <= self@.users.len(),
                key@ == user_name@,
                self@ == old(self)@,
                self@.wf(),
                forall|j: int| 0 <= j < i ==> self@.users[j].name != key@,
            decreases self.users@.len() - i,
        {
            if self.users[i].name == key {
                proof {
                    let us = self@.users;
                    assert(us[i as int].name == key@);
                    let c = choose|c: int| 0 <= c < us.len() && us[c].name == key@;
                    assert(c == i) by {
                        if c < i {
                            assert(us[c].name != us[i as int].name);
                        } else if c > i {
                            assert(us[i as int].name != us[c].name);
                        }
                    }
                }
                return Ok(self.users[i].id);
            }
            i = i + 1;
        }
        if self.next_user_id == u64::MAX {
            return Err(LedgerError::Store);
        }
        let id = self.next_user_id;
        let ghost name = key@;
        self.users.push(UserRow { id, name: key });
        self.next_user_id = id + 1;
        proof {
            let us = self@.users;
            assert(us =~= old(self)@.users.push(UserView { id, name }));
            assert forall|a: int, b: int| 0 <= a < b < us.len() implies us[a].name != us[b].name by {
                if b == us.len() - 1 {
                    assert(old(self)@.users[a].name != name);
                }
            }
            assert forall|a: int, b: int| 0 <= a < b < us.len() implies us[a].id < us[b].id by {
                if b == us.len() - 1 {
                    assert(old(self)@.users[a].id < id);
                }
            }
            assert(self@.budgets == old(self)@.budgets);
            assert(self@.transactions == old(self)@.transactions);
        }
        Ok(id)
    }

    /// Whether a user named `user_name` is registered.
    pub fn user_exists(&self, user_name: &str) -> (r: bool)
        ensures
            r == user_id_of(self@.users, user_name@) is Some,
    {
        let key = user_name.to_owned();
        let mut i: usize = 0;
        while i < self.users.len()
            invariant
                i <= self@.users.len(),
                key@ == user_name@,
                forall|j: int| 0 <= j < i ==> self@.users[j].name != key@,
            decreases self.users@.len() - i,
        {
            if self.users[i].name == key {
                proof {
                    assert(self@.users[i as int].name == key@);
                }
                return true;
            }
            i = i + 1;
        }
        false
    }

    /// A ledger holding stored rows, in their order. The `*_ids_given` are
    /// the highest identifiers of each kind ever given out (0 for none): no
    /// identifier is given again, and a new budget's identifier is above every
    /// one that a transaction refers to. Rows whose identifiers do not
    /// increase, users that share a name, or a highest identifier with none
    /// after it are refused.
    pub fn restore(
        budgets: Vec<BudgetRow>,
        transactions: Vec<TransactionRow>,
        users: Vec<UserRow>,
        budget_ids_given: u64,
        transaction_ids_given: u64,
        user_ids_given: u64,
    ) -> (r: Option<Self>)
        ensures
            r is Some <==> {
                &&& budget_ids_increase(budget_views(budgets@))
                &&& transaction_ids_increase(transaction_views(transactions@))
                &&& users_well_formed(users@.map_values(|u: UserRow| u@))
                &&& budget_floor(budget_views(budgets@), transaction_views(transactions@), budget_ids_given) < u64::MAX
                &&& transaction_floor(transaction_views(transactions@), transaction_ids_given) < u64::MAX
                &&& user_floor(users@.map_values(|u: UserRow| u@), user_ids_given) < u64::MAX
            },
            r matches Some(m) ==> {
                &&& m@.wf()
                &&& m@.budgets == budget_views(budgets@)
                &&& m@.transactions == transaction_views(transactions@)
                &&& m@.users == users@.map_values(|u: UserRow| u@)
                &&& m@.next_budget_id == budget_floor(m@.budgets, m@.transactions, budget_ids_given) + 1
                &&& m@.next_transaction_id == transaction_floor(m@.transactions, transaction_ids_given) + 1
                &&& m@.next_user_id == user_floor(m@.users, user_ids_given) + 1
                &&& budget_ids_given < m@.next_budget_id
                &&& transaction_ids_given < m@.next_transaction_id
                &&& user_ids_given < m@.next_user_id
                &&& forall|i: int|
                    0 <= i < m@.transactions.len() ==> #[trigger] m@.transactions[i].budget_id
                        < m@.next_budget_id
            },
    {
        let ghost bv = budget_views(budgets@);
        let ghost tv = transaction_views(transactions@);
        let ghost uv = users@.map_values(|u: UserRow| u@);
        let mut i: usize = 1;
        while i < budgets.len()
            invariant
                bv == budget_views(budgets@),
                1 <= i,
                forall|a: int, b: int| 0 <= a < b < i && b < bv.len() ==> bv[a].id < bv[b].id,
            decreases budgets@.len() - i,
        {
            if budgets[i - 1].id >= budgets[i].id {
                proof {
                    assert(bv[i - 1].id >= bv[i as int].id);
                }
                return None;
            }
            proof {
                assert forall|a: int, b: int|
                    0 <= a < b < i + 1 && b < bv.len() implies bv[a].id < bv[b].id by {
                    if b == i && a < i - 1 {
                        assert(bv[a].id < bv[i - 1].id);
                    }
                }
            }
            i = i + 1;
        }
        let mut i: usize = 1;
        while i < transactions.len()
            invariant
                tv == transaction_views(transactions@),
                1 <= i,
                forall|a: int, b: int| 0 <= a < b < i && b < tv.len() ==> tv[a].id < tv[b].id,
            decreases transactions@.len() - i,
        {
            if transactions[i - 1].id >= transactions[i].id {
                proof {
                    assert(tv[i - 1].id >= tv[i as int].id);
                }
                return None;
            }
            proof {
                assert forall|a: int, b: int|
                    0 <= a < b < i + 1 && b < tv.len() implies tv[a].id < tv[b].id by {
                    if b == i && a < i - 1 {
                        assert(tv[a].id < tv[i - 1].id);
                    }
                }
            }
            i = i + 1;
        }
        let mut i: usize = 0;
        while i < users.len()
            invariant
                uv == users@.map_values(|u: UserRow| u@),
                i <= uv.len(),
                users_well_formed(uv.subrange(0, i as int)),
            decreases users@.len() - i,
        {
            if i > 0 && users[i - 1].id >= users[i].id {
                proof {
                    assert(uv[i - 1].id >= uv[i as int].id);
                }
                return None;
            }
            let mut j: usize = 0;
            while j < i
                invariant
                    uv == users@.map_values(|u: UserRow| u@),
                    j <= i < uv.len(),
                    forall|a: int| 0 <= a < j ==> uv[a].name != uv[i as int].name,
                decreases i - j,
            {
                if users[j].name == users[i].name {
                    proof {
                        assert(uv[j as int].name == uv[i as int].name);
                    }
                    return None;
                }
                j = j + 1;
            }
            proof {
                let next = uv.subrange(0, i + 1);
                let prev = uv.subrange(0, i as int);
                assert forall|a: int, b: int| 0 <= a < b < next.len() implies next[a].id < next[b].id
                    && next[a].name != next[b].name by {
                    assert(next[a] == uv[a]);
                    assert(next[b] == uv[b]);
                    if b < i {
                        assert(prev[a] == uv[a] && prev[b] == uv[b]);
                    } else if a < i - 1 {
                        assert(prev[a] == uv[a] && prev[i - 1] == uv[i - 1]);
                    }
                }
            }
            i = i + 1;
        }
        proof {
            assert(uv.subrange(0, i as int) =~= uv);
        }
        let mut highest_budget = budget_ids_given;
        if budgets.len() > 0 && budgets[budgets.len() - 1].id > highest_budget {
            highest_budget = budgets[budgets.len() - 1].id;
        }
        let ghost start = highest_budget;
        let mut i: usize = 0;
        while i < transactions.len()
            invariant
                tv == transaction_views(transactions@),
                i <= tv.len(),
                highest_budget == highest_budget_ref(tv.subrange(0, i as int), start),
            decreases tv.len() - i,
        {
            proof {
                assert(tv.subrange(0, i + 1).drop_last() =~= tv.subrange(0, i as int));
            }
            if transactions[i].budget_id > highest_budget {
                highest_budget = transactions[i].budget_id;
            }
            i = i + 1;
        }
        proof {
            assert(tv.subrange(0, i as int) =~= tv);
            lemma_highest_budget_ref(tv, start);
        }
        if highest_budget == u64::MAX {
            return None;
        }
        let next_budget_id = highest_budget + 1;
        let mut highest_transaction = transaction_ids_given;
        if transactions.len() > 0 && transactions[transactions.len() - 1].id > highest_transaction {
            highest_transaction = transactions[transactions.len() - 1].id;
        }
        if highest_transaction == u64::MAX {
            return None;
        }
        let next_transaction_id = highest_transaction + 1;
        let mut highest_user = user_ids_given;
        if users.len() > 0 && users[users.len() - 1].id > highest_user {
            highest_user = users[users.len() - 1].id;
        }
        if highest_user == u64::MAX {
            return None;
        }
        let next_user_id = highest_user + 1;
        let m = BudgetManager { budgets, transactions, users, next_budget_id, next_transaction_id, next_user_id };
        proof {
            let bl = bv.len() - 1;
            let tl = tv.len() - 1;
            let ul = uv.len() - 1;
            assert forall|a: int| 0 <= a < bv.len() implies bv[a].id < next_budget_id by {
                if a < bl {
                    assert(bv[a].id < bv[bl].id);
                }
            }
            assert forall|a: int| 0 <= a < tv.len() implies tv[a].id < next_transaction_id by {
                if a < tl {
                    assert(tv[a].id < tv[tl].id);
                }
            }
            assert forall|a: int| 0 <= a < uv.len() implies uv[a].id < next_user_id by {
                if a < ul {
                    assert(uv[a].id < uv[ul].id);
                }
            }
        }
        Some(m)
    }

    /// The transactions as stored, in the order they were recorded.
    pub fn transaction_rows(&self) -> (r: Vec<TransactionRow>)
        ensures
            transaction_views(r@) == self@.transactions,
    {
        let mut out: Vec<TransactionRow> = Vec::new();
        let mut i: usize = 0;
        while i < self.transactions.len()
            invariant
                i <= self.transactions@.len(),
                transaction_views(out@) == self@.transactions.subrange(0, i as int),
            decreases self.transactions@.len() - i,
        {
            let t = &self.transactions[i];
            let row = TransactionRow { id: t.id, budget_id: t.budget_id, name: t.name.clone(), amount: t.amount };
            let ghost before = out@;
            out.push(row);
            proof {
                assert(transaction_views(out@) =~= transaction_views(before).push(row@));
            }
            i = i + 1;
            proof {
                assert(transaction_views(out@) =~= self@.transactions.subrange(0, i as int));
            }
        }
        proof {
            assert(self@.transactions.subrange(0, i as int) =~= self@.transactions);
        }
        out
    }

    /// The registered users, in the order they were registered.
    pub fn user_rows(&self) -> (r: Vec<UserRow>)
        ensures
            r@.map_values(|u: UserRow| u@) == self@.users,
    {
        let mut out: Vec<UserRow> = Vec::new();
        let mut i: usize = 0;
        while i < self.users.len()
            invariant
                i <= self.users@.len(),
                out@.map_values(|u: UserRow| u@) == self@.users.subrange(0, i as int),
            decreases self.users@.len() - i,
        {
            let row = UserRow { id: self.users[i].id, name: self.users[i].name.clone() };
            let ghost before = out@;
            out.push(row);
            proof {
                assert(out@.map_values(|u: UserRow| u@) =~= before.map_values(|u: UserRow| u@).push(row@));
            }
            i = i + 1;
            proof {
                assert(out@.map_values(|u: UserRow| u@) =~= self@.users.subrange(0, i as int));
            }
        }
        proof {
            assert(self@.users.subrange(0, i as int) =~= self@.users);
        }
        out
    }
}

} // verus!
