//! The store of accounts: one account for each identity that has one.

use crate::account::{UserAccount, UserAccountView};
use crate::error::RegistryError;
use crate::identity::Identity;
use vstd::prelude::*;

verus! {

/// All the accounts there are, each found by the identity that owns it. An
/// account is made once and stays for as long as the store does.
pub struct AccountStore {
    accounts: Vec<UserAccount>,
}

impl View for AccountStore {
    type V = Map<Identity, UserAccountView>;

    /// The accounts, by the identity that each was created for.
    closed spec fn view(&self) -> Map<Identity, UserAccountView> {
        Map::new(
            |identity: Identity| self.holds(identity),
            |identity: Identity| self.accounts@[self.slot_of(identity)]@,
        )
    }
}

impl AccountStore {
    spec fn holds_at(&self, identity: Identity, slot: int) -> bool {
        0 <= slot < self.accounts@.len() && self.accounts@[slot].username == identity
    }

    spec fn holds(&self, identity: Identity) -> bool {
        exists|slot: int| self.holds_at(identity, slot)
    }

    spec fn slot_of(&self, identity: Identity) -> int {
        choose|slot: int| self.holds_at(identity, slot)
    }

    /// No two accounts have the same owner, and each account is found by its
    /// owner.
    pub closed spec fn wf(&self) -> bool {
        forall|a: int, b: int|
            0 <= a < self.accounts@.len() && 0 <= b < self.accounts@.len()
                && #[trigger] self.accounts@[a].username == #[trigger] self.accounts@[b].username
                ==> a == b
    }

    proof fn lemma_slot(&self, identity: Identity, slot: int)
        requires
            self.wf(),
            self.holds_at(identity, slot),
        ensures
            self.holds(identity),
            self.slot_of(identity) == slot,
            self@.contains_key(identity),
            self@[identity] == self.accounts@[slot]@,
    {
        let chosen = self.slot_of(identity);
        assert(self.holds_at(identity, chosen));
        assert(self.accounts@[chosen].username == self.accounts@[slot].username);
    }

    proof fn lemma_absent(&self, identity: Identity)
        requires
            forall|slot: int| !self.holds_at(identity, slot),
        ensures
            !self@.contains_key(identity),
    {
    }

    /// In a well-formed store each account is owned by the identity that it
    /// is found by.
    pub proof fn lemma_owner(&self, identity: Identity)
        requires
            self.wf(),
            self@.contains_key(identity),
        ensures
            self@[identity].username == identity,
    {
        let slot = self.slot_of(identity);
        assert(self.holds_at(identity, slot));
    }

    /// Replacing the account in a slot by one with the same owner keeps the
    /// store well-formed and changes the account of that owner only.
    proof fn lemma_replaced(&self, after: &AccountStore, slot: int, account: UserAccount)
        requires
            self.wf(),
            0 <= slot < self.accounts@.len(),
            account.username == self.accounts@[slot].username,
            after.accounts@ == self.accounts@.update(slot, account),
        ensures
            after.wf(),
            after@ == self@.insert(account.username, account@),
    {
        assert forall|identity: Identity| self.holds(identity) == after.holds(identity) by {
            if self.holds(identity) {
                let at = self.slot_of(identity);
                assert(self.holds_at(identity, at));
                assert(after.holds_at(identity, at));
            }
            if after.holds(identity) {
                let at = after.slot_of(identity);
                assert(after.holds_at(identity, at));
                assert(self.holds_at(identity, at));
            }
        }
        self.lemma_slot(account.username, slot);
        assert(after.holds_at(account.username, slot));
        assert forall|identity: Identity| #[trigger] after@.contains_key(identity) implies after@[identity]
            == self@.insert(account.username, account@)[identity] by {
            let at = after.slot_of(identity);
            assert(after.holds_at(identity, at));
            after.lemma_slot(identity, at);
            assert(self.holds_at(identity, at));
            self.lemma_slot(identity, at);
        }
        assert(after@ =~= self@.insert(account.username, account@));
    }

    /// Adding an account whose owner has none yet keeps the store well-formed
    /// and gives that owner this account.
    proof fn lemma_appended(&self, after: &AccountStore, account: UserAccount)
        requires
            self.wf(),
            forall|slot: int| !self.holds_at(account.username, slot),
            after.accounts@ == self.accounts@.push(account),
        ensures
            after.wf(),
            after@ == self@.insert(account.username, account@),
    {
        let last = self.accounts@.len() as int;
        assert forall|a: int, b: int|
            0 <= a < after.accounts@.len() && 0 <= b < after.accounts@.len()
                && #[trigger] after.accounts@[a].username == #[trigger] after.accounts@[b].username implies a
            == b by {
            if a < last && b < last {
                assert(self.accounts@[a].username == self.accounts@[b].username);
            } else if a < last {
                assert(self.holds_at(account.username, a));
            } else if b < last {
                assert(self.holds_at(account.username, b));
            }
        }
        assert forall|identity: Identity| after.holds(identity) == (self.holds(identity) || identity
            == account.username) by {
            if self.holds(identity) {
                let at = self.slot_of(identity);
                assert(self.holds_at(identity, at));
                assert(after.holds_at(identity, at));
            }
            if identity == account.username {
                assert(after.holds_at(identity, last));
            }
            if after.holds(identity) {
                let at = after.slot_of(identity);
                assert(after.holds_at(identity, at));
                if at < last {
                    assert(self.holds_at(identity, at));
                }
            }
        }
        assert(after.holds_at(account.username, last));
        assert forall|identity: Identity| #[trigger] after@.contains_key(identity) implies after@[identity]
            == self@.insert(account.username, account@)[identity] by {
            let at = after.slot_of(identity);
            assert(after.holds_at(identity, at));
            after.lemma_slot(identity, at);
            if at < last {
                assert(self.holds_at(identity, at));
                self.lemma_slot(identity, at);
            }
        }
        assert(after@ =~= self@.insert(account.username, account@));
    }

    /// Makes a store with no account in it.
    pub fn new() -> (store: AccountStore)
        ensures
            store.wf(),
            store@ == Map::<Identity, UserAccountView>::empty(),
    {
        let store = AccountStore { accounts: Vec::new() };
        assert(store@ =~= Map::<Identity, UserAccountView>::empty());
        store
    }

    fn find_slot(&self, identity: &Identity) -> (found: Option<usize>)
        requires
            self.wf(),
        ensures
            match found {
                Some(slot) => self.holds_at(*identity, slot as int),
                None => forall|slot: int| !self.holds_at(*identity, slot),
            },
            found is Some <==> self@.contains_key(*identity),
    {
        let mut slot: usize = 0;
        while slot < self.accounts.len()
            invariant
                self.wf(),
                slot <= self.accounts@.len(),
                forall|earlier: int| 0 <= earlier < slot ==> !self.holds_at(*identity, earlier),
            decreases self.accounts@.len() - slot,
        {
            if self.accounts[slot].username == *identity {
                proof {
                    self.lemma_slot(*identity, slot as int);
                }
                return Some(slot);
            }
            slot = slot + 1;
        }
        proof {
            self.lemma_absent(*identity);
        }
        None
    }

    /// Whether the store holds an account for `identity`.
    pub fn contains(&self, identity: &Identity) -> (held: bool)
        requires
            self.wf(),
        ensures
            held == self@.contains_key(*identity),
    {
        self.find_slot(identity).is_some()
    }

    /// Creates the account of `identity`, with room for `capacity` entries and
    /// none in it, and hands it out. Fails with `AlreadyExists`, changing
    /// nothing, exactly where the store already holds an account for
    /// `identity`.
    ///
    /// The store stays well-formed as long as the account that is handed out
    /// keeps its owner.
    pub fn create(&mut self, identity: Identity, capacity: usize) -> (created: Result<
        &mut UserAccount,
        RegistryError,
    >)
        requires
            old(self).wf(),
        ensures
            created is Ok <==> !old(self)@.contains_key(identity),
            created matches Ok(account) ==> account@ == UserAccountView::empty(
                identity,
                capacity as nat,
            ),
            created matches Ok(account) ==> (final(account).username == identity ==> final(self).wf()),
            created matches Ok(account) ==> (final(account).username == identity ==> final(self)@
                == old(self)@.insert(identity, final(account)@)),
            created matches Err(e) ==> e == RegistryError::AlreadyExists,
            created is Err ==> final(self).wf() && final(self)@ == old(self)@,
    {
        if self.find_slot(&identity).is_some() {
            return Err(RegistryError::AlreadyExists);
        }
        let slot = self.accounts.len();
        self.accounts.push(UserAccount::new(identity, capacity));
        proof {
            old(self).lemma_appended(&*self, self.accounts@[slot as int]);
        }
        assert forall|after: AccountStore, account: UserAccount|
            #![trigger after.wf(), account@]
                    #![trigger after@, account@]
            after.accounts@ == self.accounts@.update(slot as int, account) && account.username
                == identity implies after.wf() && after@ == old(self)@.insert(identity, account@) by {
            self.lemma_replaced(&after, slot as int, account);
            assert(after@ =~= old(self)@.insert(identity, account@));
        }
        Ok(&mut self.accounts[slot])
    }

    /// Looks up the account of `identity`. Fails with `NotFound` exactly where
    /// the store holds none.
    pub fn get(&self, identity: &Identity) -> (got: Result<&UserAccount, RegistryError>)
        requires
            self.wf(),
        ensures
            got is Ok <==> self@.contains_key(*identity),
            got matches Ok(account) ==> account@ == self@[*identity] && account.username == *identity,
            got matches Err(e) ==> e == RegistryError::NotFound,
    {
        match self.find_slot(identity) {
            Some(slot) => {
                proof {
                    self.lemma_slot(*identity, slot as int);
                }
                Ok(&self.accounts[slot])
            },
            None => Err(RegistryError::NotFound),
        }
    }

    /// Hands out the account of `identity` for changes. Fails with `NotFound`,
    /// changing nothing, exactly where the store holds none.
    ///
    /// The store stays well-formed as long as the account that is handed out
    /// keeps its owner; no other account changes.
    pub fn get_mut(&mut self, identity: &Identity) -> (got: Result<&mut UserAccount, RegistryError>)
        requires
            old(self).wf(),
        ensures
            got is Ok <==> old(self)@.contains_key(*identity),
            got matches Ok(account) ==> account@ == old(self)@[*identity] && account.username
                == *identity,
            got matches Ok(account) ==> (final(account).username == *identity ==> final(self).wf()),
            got matches Ok(account) ==> (final(account).username == *identity ==> final(self)@
                == old(self)@.insert(*identity, final(account)@)),
            got matches Err(e) ==> e == RegistryError::NotFound,
            got is Err ==> final(self).wf() && final(self)@ == old(self)@,
    {
        match self.find_slot(identity) {
            Some(slot) => {
                proof {
                    self.lemma_slot(*identity, slot as int);
                }
                assert forall|after: AccountStore, account: UserAccount|
                    #![trigger after.wf(), account@]
                    #![trigger after@, account@]
                    after.accounts@ == self.accounts@.update(slot as int, account)
                        && account.username == *identity implies after.wf() && after@
                        == self@.insert(*identity, account@) by {
                    self.lemma_replaced(&after, slot as int, account);
                }
                Ok(&mut self.accounts[slot])
            },
            None => Err(RegistryError::NotFound),
        }
    }
}

} // verus!
