//! The bot's persistent state: which chat users are authorized, and the
//! decision rule for granting authorization.

use crate::text::str_eq;
use vstd::prelude::*;
use vstd::string::StringExecFns;

verus! {

/// Persistent state: the user ids that may issue commands.
#[derive(Debug)]
pub struct Database {
    pub auth_users: Vec<i64>,
}

impl Default for Database {
    /// A fresh state with no authorized users.
    fn default() -> (r: Database)
        ensures
            r.auth_users@ == Seq::<i64>::empty(),
    {
        Database { auth_users: Vec::new() }
    }
}

impl Database {
    /// Whether the user may issue commands.
    #[verifier::loop_isolation(false)]
    pub fn is_authorized(&self, user_id: i64) -> (r: bool)
        ensures
            r == self.auth_users@.contains(user_id),
    {
        let n = self.auth_users.len();
        let mut i: usize = 0;
        while i < n
            invariant
                i <= n,
                n == self.auth_users@.len(),
                forall|k: int| 0 <= k < i ==> self.auth_users@[k] != user_id,
            decreases n - i,
        {
            if self.auth_users[i] == user_id {
                return true;
            }
            i = i + 1;
        }
        false
    }

    /// Grants the user access.
    pub fn authorize(&mut self, user_id: i64)
        ensures
            final(self).auth_users@ == old(self).auth_users@.push(user_id),
    {
        self.auth_users.push(user_id);
    }

    /// The authorization rule: a not-yet-authorized user who sent exactly
    /// the shared secret is granted access.
    pub fn should_authorize(&self, user_id: i64, text: &str, secret: &str) -> (r: bool)
        ensures
            r == (!self.auth_users@.contains(user_id) && text@ == secret@),
    {
        !self.is_authorized(user_id) && str_eq(text, secret)
    }
}

/// The default file the state is kept in, when the configuration names
/// none.
pub fn state_default() -> (r: String)
    ensures
        r@ == "state.json"@,
{
    String::from_str("state.json")
}

} // verus!
