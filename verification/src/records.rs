//! Rows of the three tables.
//!
//! Each row type has a view in which text is a sequence of characters. The
//! contracts of the crate speak of views only.

use vstd::prelude::*;

verus! {

/// A financial account.
#[derive(Debug, PartialEq, Eq)]
pub struct Account {
    pub id: i64,
    pub name: String,
    pub account_type: String,
    pub archived: bool,
}

/// A category. `parent_id` is `None` for a root category.
#[derive(Debug, PartialEq, Eq)]
pub struct Category {
    pub id: i64,
    pub name: String,
    pub parent_id: Option<i64>,
}

/// A transaction. It always names an account and a category.
#[derive(Debug, PartialEq, Eq)]
pub struct Transaction {
    pub id: i64,
    pub account_id: i64,
    pub amount_cents: i64,
    pub transaction_type: String,
    pub description: String,
    pub transaction_date: String,
    pub category_id: i64,
}

/// Mathematical value of an [`Account`].
pub struct AccountView {
    pub id: i64,
    pub name: Seq<char>,
    pub account_type: Seq<char>,
    pub archived: bool,
}

/// Mathematical value of a [`Category`].
pub struct CategoryView {
    pub id: i64,
    pub name: Seq<char>,
    pub parent_id: Option<i64>,
}

/// Mathematical value of a [`Transaction`].
pub struct TransactionView {
    pub id: i64,
    pub account_id: i64,
    pub amount_cents: i64,
    pub transaction_type: Seq<char>,
    pub description: Seq<char>,
    pub transaction_date: Seq<char>,
    pub category_id: i64,
}

impl View for Account {
    type V = AccountView;

    open spec fn view(&self) -> AccountView {
        AccountView {
            id: self.id,
            name: self.name@,
            account_type: self.account_type@,
            archived: self.archived,
        }
    }
}

impl View for Category {
    type V = CategoryView;

    open spec fn view(&self) -> CategoryView {
        CategoryView { id: self.id, name: self.name@, parent_id: self.parent_id }
    }
}

impl View for Transaction {
    type V = TransactionView;

    open spec fn view(&self) -> TransactionView {
        TransactionView {
            id: self.id,
            account_id: self.account_id,
            amount_cents: self.amount_cents,
            transaction_type: self.transaction_type@,
            description: self.description@,
            transaction_date: self.transaction_date@,
            category_id: self.category_id,
        }
    }
}

impl Clone for Account {
    fn clone(&self) -> (r: Self)
        ensures
            r@ == self@,
    {
        Account {
            id: self.id,
            name: self.name.clone(),
            account_type: self.account_type.clone(),
            archived: self.archived,
        }
    }
}

impl Clone for Category {
    fn clone(&self) -> (r: Self)
        ensures
            r@ == self@,
    {
        Category { id: self.id, name: self.name.clone(), parent_id: self.parent_id }
    }
}

impl Clone for Transaction {
    fn clone(&self) -> (r: Self)
        ensures
            r@ == self@,
    {
        Transaction {
            id: self.id,
            account_id: self.account_id,
            amount_cents: self.amount_cents,
            transaction_type: self.transaction_type.clone(),
            description: self.description.clone(),
            transaction_date: self.transaction_date.clone(),
            category_id: self.category_id,
        }
    }
}

/// Views of the rows of an account table, in table order.
pub open spec fn account_views(rows: Seq<Account>) -> Seq<AccountView> {
    Seq::new(rows.len(), |i: int| rows[i]@)
}

/// Views of the rows of a category table, in table order.
pub open spec fn category_views(rows: Seq<Category>) -> Seq<CategoryView> {
    Seq::new(rows.len(), |i: int| rows[i]@)
}

/// Views of the rows of a transaction table, in table order.
pub open spec fn transaction_views(rows: Seq<Transaction>) -> Seq<TransactionView> {
    Seq::new(rows.len(), |i: int| rows[i]@)
}

} // verus!
