//! Faults of the database underneath the stores.

use vstd::prelude::*;

verus! {

/// A fault of the tables underneath a store.
#[derive(Debug)]
pub enum DbFault {
    /// A row with that primary key is already there.
    DuplicateKey,
    /// Any other failure, as the driver words it.
    Driver(String),
}

impl DbFault {
    /// The text of the fault.
    pub open spec fn text(self) -> Seq<char> {
        match self {
            DbFault::DuplicateKey => "duplicate key"@,
            DbFault::Driver(detail) => detail@,
        }
    }

    /// The fault as one line of text.
    pub fn message(&self) -> (s: String)
        ensures
            s@ == self.text(),
    {
        match self {
            DbFault::DuplicateKey => "duplicate key".to_owned(),
            DbFault::Driver(detail) => detail.clone(),
        }
    }
}

/// The message says which fault it was, and carries its detail.
pub proof fn law_db_fault_says_what_is_wrong(error: DbFault)
    ensures
        error is DuplicateKey ==> error.text() == "duplicate key"@,
        error matches DbFault::Driver(detail) ==> error.text() == detail@,
{
}

} // verus!
