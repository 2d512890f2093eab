//! Accounts as the host hands them to the program.

use vstd::prelude::*;

verus! {

/// One account of a call: a storage slot that the host has allocated and
/// funded, with the reference under which the host knows it.
#[derive(Debug, Clone, PartialEq, Eq)]
pub struct Account {
    /// The reference of the account. This program stores and compares
    /// references and never resolves one.
    pub key: [u8; 32],
    /// What the account is funded with.
    pub lamports: u64,
    /// The slot. The program writes into it and never changes its length.
    pub data: Vec<u8>,
}

/// What an account holds, as mathematical values.
pub struct AccountView {
    pub key: Seq<u8>,
    pub lamports: u64,
    pub data: Seq<u8>,
}

impl View for Account {
    type V = AccountView;

    open spec fn view(&self) -> AccountView {
        AccountView { key: self.key@, lamports: self.lamports, data: self.data@ }
    }
}

impl AccountView {
    /// This account with `data` in its slot.
    pub open spec fn with_data(self, data: Seq<u8>) -> AccountView {
        AccountView { key: self.key, lamports: self.lamports, data }
    }
}

/// The accounts of a call, each as mathematical values.
pub open spec fn account_views(accounts: Seq<Account>) -> Seq<AccountView> {
    Seq::new(accounts.len(), |i: int| accounts[i]@)
}

} // verus!
