//! Block state values: accounts, detached snapshots, and the mutable state
//! handle that a cached block state lives in.

use vstd::prelude::*;

verus! {

/// One account record: an address and the balance held at it.
#[derive(Clone, Copy, PartialEq, Eq, Structural)]
pub struct Account {
    pub address: u64,
    pub balance: u64,
}

/// The first account with the given address, if any.
pub open spec fn account_for(accounts: Seq<Account>, address: u64) -> Option<Account>
    decreases accounts.len(),
{
    if accounts.len() == 0 {
        None
    } else if accounts[0].address == address {
        Some(accounts[0])
    } else {
        account_for(accounts.drop_first(), address)
    }
}

/// A complete, self-contained copy of a block state, detached from the live
/// handle it was extracted from.
pub struct StateSnapshot {
    pub accounts: Vec<Account>,
}

impl View for StateSnapshot {
    type V = Seq<Account>;

    open spec fn view(&self) -> Seq<Account> {
        self.accounts@
    }
}

/// Copies an account list element by element.
pub fn copy_accounts(v: &Vec<Account>) -> (r: Vec<Account>)
    ensures
        r@ == v@,
{
    let mut r: Vec<Account> = Vec::new();
    let n: usize = v.len();
    let mut i: usize = 0;
    while i < n
        invariant
            i <= n,
            n == v.len(),
            r@ == v@.subrange(0, i as int),
        decreases n - i,
    {
        r.push(v[i]);
        proof {
            assert(r@ =~= v@.subrange(0, i as int + 1));
        }
        i = i + 1;
    }
    proof {
        assert(r@ =~= v@);
    }
    r
}

/// A mutable handle around one block's state. Its contents can be extracted
/// into a transferable snapshot (clearing the handle in place) and absorbed
/// back later.
pub struct StateDb {
    accounts: Vec<Account>,
}

impl View for StateDb {
    type V = Seq<Account>;

    closed spec fn view(&self) -> Seq<Account> {
        self.accounts@
    }
}

impl StateDb {
    /// An empty state.
    pub fn new() -> (r: Self)
        ensures
            r@ == Seq::<Account>::empty(),
    {
        StateDb { accounts: Vec::new() }
    }

    /// Appends one account record.
    pub fn insert_account(&mut self, account: Account)
        ensures
            final(self)@ == old(self)@.push(account),
    {
        self.accounts.push(account);
    }

    /// An independent handle holding the same contents.
    pub fn duplicate(&self) -> (r: Self)
        ensures
            r@ == self@,
    {
        StateDb { accounts: copy_accounts(&self.accounts) }
    }

    /// Extracts the contents into a snapshot, clearing the handle in place.
    pub fn clear_into_snapshot(&mut self) -> (s: StateSnapshot)
        ensures
            s@ == old(self)@,
            final(self)@ == Seq::<Account>::empty(),
    {
        let contents: Vec<Account> = copy_accounts(&self.accounts);
        self.accounts.clear();
        StateSnapshot { accounts: contents }
    }

    /// Rehydrates a cleared handle in place from a snapshot.
    pub fn init_from_snapshot(&mut self, snapshot: StateSnapshot)
        ensures
            final(self)@ == snapshot@,
    {
        self.accounts = snapshot.accounts;
    }

    /// The first account recorded at the given address, if any.
    pub fn basic(&self, address: u64) -> (r: Option<Account>)
        ensures
            r == account_for(self@, address),
    {
        let n: usize = self.accounts.len();
        let mut i: usize = 0;
        proof {
            assert(self@.skip(0) =~= self@);
        }
        while i < n
            invariant
                i <= n,
                n == self.accounts.len(),
                account_for(self@, address) == account_for(self@.skip(i as int), address),
            decreases n - i,
        {
            if self.accounts[i].address == address {
                proof {
                    assert(self@.skip(i as int)[0] == self@[i as int]);
                }
                return Some(self.accounts[i]);
            }
            proof {
                assert(self@.skip(i as int).drop_first() =~= self@.skip(i as int + 1));
            }
            i = i + 1;
        }
        proof {
            assert(self@.skip(n as int).len() == 0);
        }
        None
    }
}

} // verus!
