//! The identity gate: user registration and the authentication check that
//! guards every mutating domain operation.
//!
//! The caller identity is an explicit parameter, resolved by the calling
//! boundary; the anonymous sentinel is turned away (`Unauthenticated`)
//! and identities without a user record (`NotRegistered`).

use vstd::prelude::*;

use crate::keyed::{lemma_distinct_push, lemma_put_by_push};
use crate::storage::{ukey, Store};
use crate::types::{Identity, StoreError, User, UserView};

verus! {

/// The user record that registration of `caller` creates.
pub open spec fn new_user_view(
    caller: Identity,
    name: Option<Seq<char>>,
    email: Seq<char>,
    now: u64,
) -> UserView {
    UserView { principal: caller, name: name, email: email, avatar_url: None, created_at: now }
}

impl Store {
    /// Registers the caller as a user. Rejects the anonymous sentinel
    /// (`Unauthenticated`) and an identity that already has a user record
    /// (`Conflict`); otherwise creates the record with the given profile
    /// fields, no avatar, and `now` as creation time.
    pub fn register_user(
        &mut self,
        caller: Identity,
        name: Option<String>,
        email: String,
        now: u64,
    ) -> (r: Result<User, StoreError>)
        ensures
            caller.is_anonymous() ==> r == Err::<User, StoreError>(StoreError::Unauthenticated)
                && final(self)@ == old(self)@,
            !caller.is_anonymous() && old(self)@.user(caller) is Some ==> r == Err::<
                User,
                StoreError,
            >(StoreError::Conflict) && final(self)@ == old(self)@,
            !caller.is_anonymous() && old(self)@.user(caller) is None ==> (r matches Ok(u)
                && u@ == new_user_view(caller, name.deep_view(), email@, now) && final(self)@
                == old(self)@.put_user(u@)),
            old(self)@.inv() ==> final(self)@.inv(),
    {
        let ghost s0 = self@;
        if caller.check_anonymous() {
            return Err(StoreError::Unauthenticated);
        }
        if let Some(_) = self.get_user_by_principal(caller) {
            return Err(StoreError::Conflict);
        }
        let user = User {
            principal: caller,
            name: name,
            email: email,
            avatar_url: None,
            created_at: now,
        };
        let ghost uv = user@;
        let result = user.clone();
        self.save_user(user);
        proof {
            lemma_put_by_push(s0.users, ukey(), uv);
            if s0.inv() {
                lemma_distinct_push(s0.users, ukey(), uv);
                let s1 = self@;
                assert(s1.users == s0.users.push(uv));
                assert forall|i: int| 0 <= i < s1.users.len() implies !(
                #[trigger] s1.users[i]).principal.is_anonymous() by {
                    if i < s0.users.len() {
                        assert(s1.users[i] == s0.users[i]);
                    } else {
                        assert(s1.users[i] == uv);
                    }
                }
                assert(s1.inv());
            }
        }
        Ok(result)
    }

    /// The caller's own user record. Rejects the anonymous sentinel
    /// (`Unauthenticated`); reports `NotRegistered` when no record exists.
    pub fn get_user(&self, caller: Identity) -> (r: Result<User, StoreError>)
        ensures
            caller.is_anonymous() ==> r == Err::<User, StoreError>(StoreError::Unauthenticated),
            !caller.is_anonymous() && self@.user(caller) is None ==> r == Err::<User, StoreError>(
                StoreError::NotRegistered,
            ),
            !caller.is_anonymous() && self@.user(caller) is Some ==> (r matches Ok(u) && Some(u@)
                == self@.user(caller)),
    {
        if caller.check_anonymous() {
            return Err(StoreError::Unauthenticated);
        }
        match self.get_user_by_principal(caller) {
            Some(user) => Ok(user),
            None => Err(StoreError::NotRegistered),
        }
    }

    /// The identity gate applied by every mutating domain operation before
    /// any other check: passes exactly the registered, non-anonymous
    /// callers, and performs no mutation.
    pub fn require_authenticated(&self, caller: Identity) -> (r: Result<Identity, StoreError>)
        ensures
            r == (match self@.gate(caller) {
                Some(e) => Err::<Identity, StoreError>(e),
                None => Ok::<Identity, StoreError>(caller),
            }),
            r is Ok <==> self@.authenticated(caller),
    {
        if caller.check_anonymous() {
            return Err(StoreError::Unauthenticated);
        }
        match self.get_user_by_principal(caller) {
            Some(_) => Ok(caller),
            None => Err(StoreError::NotRegistered),
        }
    }
}

} // verus!
