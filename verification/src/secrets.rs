//! Passwords by profile and role. Profiles never contain secrets; a password is kept per
//! profile id (a UUID as a number) and [`SecretRole`].
use vstd::prelude::*;

use crate::profiles::{apply_op, apply_ops, SecretOp, SecretRole};
use crate::text::{decimal, decimal_string};

verus! {

broadcast use vstd::string::group_string_axioms;

/// Failure of the secret backend (the message is safe to show: it never contains the secret).
#[derive(Debug, Clone, PartialEq, Eq)]
pub struct SecretError(pub String);

/// What a secret error says to the user.
pub open spec fn secret_error_text(detail: Seq<char>) -> Seq<char> {
    "password storage failed: "@ + detail
}

impl SecretError {
    /// The error's text: `password storage failed: <detail>`.
    pub fn message(&self) -> (r: String)
        ensures
            r@ == secret_error_text(self.0@),
    {
        String::from_str("password storage failed: ").concat(self.0.as_str())
    }
}

/// The password of `key` according to the entries `items` (the latest entry wins).
pub open spec fn lookup(items: Seq<(u128, SecretRole, String)>, key: (u128, SecretRole)) -> Option<Seq<char>>
    decreases items.len(),
{
    if items.len() == 0 {
        None
    } else if (items.last().0, items.last().1) == key {
        Some(items.last().2@)
    } else {
        lookup(items.drop_last(), key)
    }
}

/// The entries `items` without those of `key`.
pub open spec fn drop_key(items: Seq<(u128, SecretRole, String)>, key: (u128, SecretRole)) -> Seq<
    (u128, SecretRole, String),
>
    decreases items.len(),
{
    if items.len() == 0 {
        items
    } else if (items.last().0, items.last().1) == key {
        drop_key(items.drop_last(), key)
    } else {
        drop_key(items.drop_last(), key).push(items.last())
    }
}

proof fn lemma_drop_key(items: Seq<(u128, SecretRole, String)>, key: (u128, SecretRole), other: (u128, SecretRole))
    ensures
        lookup(drop_key(items, key), other) == if other == key {
            None
        } else {
            lookup(items, other)
        },
    decreases items.len(),
{
    if items.len() > 0 {
        lemma_drop_key(items.drop_last(), key, other);
        if (items.last().0, items.last().1) != key {
            assert(drop_key(items, key).drop_last() =~= drop_key(items.drop_last(), key));
        }
    }
}

/// An in-memory password store (tests, and the app until a system keychain backs it).
pub struct MemorySecretStore {
    items: Vec<(u128, SecretRole, String)>,
}

impl MemorySecretStore {
    /// The password stored for `profile` and `role`, if any.
    pub closed spec fn stored(&self, profile: u128, role: SecretRole) -> Option<Seq<char>> {
        lookup(self.items@, (profile, role))
    }

    /// The passwords of `profile`, by role.
    pub open spec fn of_profile(&self, profile: u128) -> Map<SecretRole, Seq<char>> {
        Map::new(|r: SecretRole| self.stored(profile, r) is Some, |r: SecretRole| self.stored(profile, r)->0)
    }

    /// How many passwords the store holds.
    pub closed spec fn count(&self) -> nat {
        self.items@.len()
    }

    /// The store as shown in logs: how many passwords it holds, never the passwords.
    pub fn redacted(&self) -> (r: String)
        ensures
            r@ == "MemorySecretStore { items: "@ + decimal(self.count()) + ", .. }"@,
    {
        let n = decimal_string(self.items.len() as u64);
        String::from_str("MemorySecretStore { items: ").concat(n.as_str()).concat(", .. }")
    }

    /// An empty store.
    pub fn new() -> (r: Self)
        ensures
            forall|p: u128, role: SecretRole| r.stored(p, role) is None,
    {
        MemorySecretStore { items: Vec::new() }
    }

    fn remove_key(&mut self, profile: u128, role: SecretRole)
        ensures
            forall|p: u128, r: SecretRole| #[trigger] final(self).stored(p, r) == if p == profile && r == role {
                None
            } else {
                old(self).stored(p, r)
            },
    {
        let mut kept: Vec<(u128, SecretRole, String)> = Vec::new();
        let mut i: usize = 0;
        while i < self.items.len()
            invariant
                i <= self.items@.len(),
                kept@ == drop_key(self.items@.subrange(0, i as int), (profile, role)),
            decreases self.items@.len() - i,
        {
            proof {
                assert(self.items@.subrange(0, i + 1).drop_last() =~= self.items@.subrange(0, i as int));
            }
            if !(self.items[i].0 == profile && self.items[i].1 == role) {
                let entry = (self.items[i].0, self.items[i].1, self.items[i].2.clone());
                kept.push(entry);
            }
            i = i + 1;
        }
        proof {
            assert(self.items@.subrange(0, self.items@.len() as int) =~= self.items@);
            assert forall|p: u128, r: SecretRole| lookup(kept@, (p, r)) == if p == profile && r == role {
                None
            } else {
                lookup(self.items@, (p, r))
            } by {
                lemma_drop_key(self.items@, (profile, role), (p, r));
            }
        }
        self.items = kept;
    }

    /// Stores (replaces) the password of `profile` in `role`.
    pub fn set(&mut self, profile: u128, role: SecretRole, secret: &str)
        ensures
            forall|p: u128, r: SecretRole| #[trigger] final(self).stored(p, r) == if p == profile && r == role {
                Some(secret@)
            } else {
                old(self).stored(p, r)
            },
    {
        let ghost start = *self;
        self.remove_key(profile, role);
        let ghost mid = *self;
        let ghost before = self.items@;
        let value = String::from_str(secret);
        self.items.push((profile, role, value));
        proof {
            assert(self.items@.drop_last() =~= before);
            assert(self.items@.last() == (profile, role, value));
            assert forall|p: u128, r: SecretRole| #[trigger] self.stored(p, r) == if p == profile && r == role {
                Some(secret@)
            } else {
                start.stored(p, r)
            } by {
                assert(mid.stored(p, r) == if p == profile && r == role {
                    None
                } else {
                    start.stored(p, r)
                });
            }
        }
    }

    /// The password of `profile` in `role`, if one is stored.
    pub fn get(&self, profile: u128, role: SecretRole) -> (r: Option<String>)
        ensures
            match r {
                Some(s) => self.stored(profile, role) == Some(s@),
                None => self.stored(profile, role) is None,
            },
    {
        let mut i = self.items.len();
        proof {
            assert(self.items@.subrange(0, i as int) =~= self.items@);
        }
        while i > 0
            invariant
                i <= self.items@.len(),
                lookup(self.items@, (profile, role)) == lookup(self.items@.subrange(0, i as int), (profile, role)),
            decreases i,
        {
            proof {
                assert(self.items@.subrange(0, i as int).drop_last() =~= self.items@.subrange(0, i - 1));
            }
            if self.items[i - 1].0 == profile && self.items[i - 1].1 == role {
                proof {
                    assert(self.items@.subrange(0, i as int).last() == self.items@[i - 1]);
                }
                return Some(self.items[i - 1].2.clone());
            }
            i = i - 1;
        }
        None
    }

    /// Deletes the password of `profile` in `role`; deleting a missing one is not an error.
    pub fn delete(&mut self, profile: u128, role: SecretRole)
        ensures
            forall|p: u128, r: SecretRole| #[trigger] final(self).stored(p, r) == if p == profile && r == role {
                None
            } else {
                old(self).stored(p, r)
            },
    {
        self.remove_key(profile, role);
    }

    /// Whether a password is stored for `profile` in `role`.
    pub fn has(&self, profile: u128, role: SecretRole) -> (r: bool)
        ensures
            r == self.stored(profile, role) is Some,
    {
        self.get(profile, role).is_some()
    }

    /// Runs a save's store operations for `profile`, in order: afterwards the profile's
    /// passwords are what the operations make of them, and no other profile's changed.
    pub fn apply(&mut self, profile: u128, ops: &[SecretOp])
        ensures
            final(self).of_profile(profile) == apply_ops(old(self).of_profile(profile), ops@),
            forall|p: u128, r: SecretRole| p != profile ==> #[trigger] final(self).stored(p, r) == old(
                self,
            ).stored(p, r),
    {
        let ghost start = *self;
        let mut i: usize = 0;
        proof {
            assert(ops@.subrange(0, ops@.len() as int) =~= ops@);
        }
        while i < ops.len()
            invariant
                i <= ops@.len(),
                apply_ops(self.of_profile(profile), ops@.subrange(i as int, ops@.len() as int))
                    == apply_ops(start.of_profile(profile), ops@),
                forall|p: u128, r: SecretRole| p != profile ==> #[trigger] self.stored(p, r) == start.stored(p, r),
            decreases ops@.len() - i,
        {
            let ghost before = *self;
            let ghost rest = ops@.subrange(i as int, ops@.len() as int);
            proof {
                assert(rest[0] == ops@[i as int]);
                assert(rest.drop_first() =~= ops@.subrange(i + 1, ops@.len() as int));
            }
            match &ops[i] {
                SecretOp::Store(role, pw) => {
                    self.set(profile, *role, pw.as_str());
                },
                SecretOp::Copy { from, to } => {
                    match self.get(profile, *from) {
                        Some(pw) => {
                            self.set(profile, *to, pw.as_str());
                        },
                        None => {},
                    }
                },
                SecretOp::Delete(role) => {
                    self.delete(profile, *role);
                },
            }
            proof {
                assert(self.of_profile(profile) =~= apply_op(before.of_profile(profile), ops@[i as int]));
            }
            i = i + 1;
        }
        proof {
            assert(ops@.subrange(ops@.len() as int, ops@.len() as int) =~= Seq::<SecretOp>::empty());
        }
    }
}

} // verus!
