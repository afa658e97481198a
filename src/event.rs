use vstd::prelude::*;

use crate::account::AccountId;

verus! {

/// A notification that the ledger emits after each state change it commits.
#[derive(Clone, Copy, Debug, PartialEq, Eq)]
pub enum Event {
    /// Tokens moved from one account to another; `from` is `None` when the
    /// tokens were issued at creation.
    Transfer {
        from: Option<AccountId>,
        to: Option<AccountId>,
        operator: Option<AccountId>,
        value: u128,
    },
    /// An owner changed what a spender may move on the owner's behalf.
    Approval {
        owner: Option<AccountId>,
        spender: Option<AccountId>,
        old_value: u128,
        value: u128,
    },
}

} // verus!
