//! Failures of the data layer.

use vstd::prelude::*;

verus! {

/// Why an operation of the data layer failed.
#[derive(Debug, PartialEq, Eq)]
pub enum StoreError {
    /// The storage engine could not carry out a statement (connection, file
    /// lock, disk). The text is the engine's own message.
    Engine(String),
    /// A foreign key rejected the statement: a row would point at a row that
    /// does not exist.
    Constraint,
    /// No category is named "Uncategorized".
    SentinelMissing,
    /// The category to delete is the "Uncategorized" category itself.
    SentinelProtected,
    /// No row has the given id.
    NotFound,
    /// The table has used up its ids.
    Full,
    /// A transaction was begun inside another one, or committed or rolled
    /// back while none was open.
    TransactionState,
    /// The storage engine answered a command with a reply of another kind.
    Protocol,
}

impl StoreError {
    /// The text shown to the user for this failure.
    pub open spec fn message_text(self) -> Seq<char> {
        match self {
            StoreError::Engine(text) => text@,
            StoreError::Constraint => "FOREIGN KEY constraint failed"@,
            StoreError::SentinelMissing => "the \"Uncategorized\" category does not exist"@,
            StoreError::SentinelProtected => "the \"Uncategorized\" category cannot be deleted"@,
            StoreError::NotFound => "no row with this id exists"@,
            StoreError::Full => "the table has no id left"@,
            StoreError::TransactionState => "no transaction can be begun or ended here"@,
            StoreError::Protocol => "the storage engine sent an unexpected reply"@,
        }
    }

    /// Renders the failure as text for display.
    pub fn message(&self) -> (text: String)
        ensures
            text@ == self.message_text(),
    {
        match self {
            StoreError::Engine(text) => text.clone(),
            StoreError::Constraint => "FOREIGN KEY constraint failed".to_owned(),
            StoreError::SentinelMissing => "the \"Uncategorized\" category does not exist".to_owned(),
            StoreError::SentinelProtected => "the \"Uncategorized\" category cannot be deleted".to_owned(),
            StoreError::NotFound => "no row with this id exists".to_owned(),
            StoreError::Full => "the table has no id left".to_owned(),
            StoreError::TransactionState => "no transaction can be begun or ended here".to_owned(),
            StoreError::Protocol => "the storage engine sent an unexpected reply".to_owned(),
        }
    }
}

} // verus!
