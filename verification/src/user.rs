//! The registry of users: a map from a caller-supplied string identifier to
//! the user's record, filled by registration and never read back or mutated
//! by any operation in scope.

use vstd::prelude::*;

use crate::error::CanisterError;

verus! {

/// A registered participant.
pub struct User {
    /// The caller-supplied identifier, the registry's key.
    pub id: String,
    /// A non-negative score, zero at creation; no operation modifies it.
    pub reputation: u32,
}

/// The mathematical value of a [`User`].
pub ghost struct UserV {
    /// The identifier's characters.
    pub id: Seq<char>,
    /// The reputation score.
    pub reputation: u32,
}

impl View for User {
    type V = UserV;

    open spec fn view(&self) -> UserV {
        UserV { id: self.id@, reputation: self.reputation }
    }
}

/// The record that registering `id` stores: reputation zero.
pub open spec fn fresh_user(id: Seq<char>) -> UserV {
    UserV { id: id, reputation: 0 }
}

/// Registration succeeds exactly when `id` is not yet a key of the registry.
pub open spec fn register_allowed(m: Map<Seq<char>, UserV>, id: Seq<char>) -> bool {
    !m.contains_key(id)
}

/// The registry after a successful registration of `id`.
pub open spec fn registered(m: Map<Seq<char>, UserV>, id: Seq<char>) -> Map<Seq<char>, UserV> {
    m.insert(id, fresh_user(id))
}

/// The map an association list denotes: later entries shadow earlier ones.
spec fn users_map(s: Seq<User>) -> Map<Seq<char>, UserV>
    decreases s.len(),
{
    if s.len() == 0 {
        Map::empty()
    } else {
        users_map(s.drop_last()).insert(s.last().id@, s.last()@)
    }
}

/// No two entries share an identifier.
spec fn ids_unique(s: Seq<User>) -> bool {
    forall|i: int, j: int| 0 <= i < j < s.len() ==> s[i].id@ != s[j].id@
}

/// `users_map(s)` has key `k` exactly when some entry of `s` carries it.
proof fn lemma_users_map_domain(s: Seq<User>, k: Seq<char>)
    ensures
        users_map(s).contains_key(k) <==> exists|i: int| 0 <= i < s.len() && s[i].id@ == k,
    decreases s.len(),
{
    if s.len() > 0 {
        lemma_users_map_domain(s.drop_last(), k);
        if s.last().id@ != k {
            if exists|i: int| 0 <= i < s.len() && s[i].id@ == k {
                let i = choose|i: int| 0 <= i < s.len() && s[i].id@ == k;
                assert(s.drop_last()[i].id@ == k);
            }
            if exists|i: int| 0 <= i < s.drop_last().len() && s.drop_last()[i].id@ == k {
                let i = choose|i: int| 0 <= i < s.drop_last().len() && s.drop_last()[i].id@ == k;
                assert(s[i].id@ == k);
            }
        }
    }
}

/// Appending an entry inserts its identifier into the denoted map.
proof fn lemma_users_map_push(s: Seq<User>, u: User)
    ensures
        users_map(s.push(u)) == users_map(s).insert(u.id@, u@),
{
    assert(s.push(u).drop_last() =~= s);
    assert(s.push(u).last() == u);
}

/// The registry: the users keyed by their identifiers.
pub struct UserRegistry {
    users: Vec<User>,
}

impl View for UserRegistry {
    type V = Map<Seq<char>, UserV>;

    closed spec fn view(&self) -> Map<Seq<char>, UserV> {
        users_map(self.users@)
    }
}

impl UserRegistry {
    /// The registry's invariant: stored identifiers are pairwise distinct.
    pub closed spec fn wf(self) -> bool {
        ids_unique(self.users@)
    }

    /// An empty registry.
    pub fn new() -> (r: UserRegistry)
        ensures
            r.wf(),
            r@ == Map::<Seq<char>, UserV>::empty(),
    {
        UserRegistry { users: Vec::new() }
    }

    /// Registers `id`: refused with `UserAlreadyExists` if the identifier is
    /// taken, leaving the registry unchanged; otherwise stores a fresh user
    /// with reputation zero under it.
    pub fn register_user(&mut self, id: String) -> (r: Result<(), CanisterError>)
        requires
            old(self).wf(),
        ensures
            final(self).wf(),
            !register_allowed(old(self)@, id@) ==> (r matches Err(e) && e is UserAlreadyExists
                && final(self)@ == old(self)@),
            register_allowed(old(self)@, id@) ==> r is Ok
                && final(self)@ == registered(old(self)@, id@),
    {
        let n = self.users.len();
        let mut i: usize = 0;
        while i < n
            invariant
                n == self.users.len(),
                i <= n,
                self.wf(),
                self.users@ == old(self).users@,
                forall|t: int| 0 <= t < i ==> self.users@[t].id@ != id@,
            decreases n - i,
        {
            if self.users[i].id == id {
                proof {
                    lemma_users_map_domain(self.users@, id@);
                }
                return Err(CanisterError::UserAlreadyExists);
            }
            i += 1;
        }
        proof {
            lemma_users_map_domain(self.users@, id@);
        }
        let user = User { id: id.clone(), reputation: 0 };
        proof {
            lemma_users_map_push(self.users@, user);
            assert forall|a: int, b: int| 0 <= a < b < self.users@.push(user).len()
                implies self.users@.push(user)[a].id@ != self.users@.push(user)[b].id@ by {
                if b < self.users@.len() {
                    assert(self.users@[a].id@ != self.users@[b].id@);
                } else {
                    assert(self.users@[a].id@ != id@);
                }
            }
        }
        self.users.push(user);
        Ok(())
    }
}

/// Law: an identifier not yet registered is accepted, a second registration
/// of the same identifier is refused, and the stored user's reputation is
/// zero.
pub proof fn lemma_register_then_duplicate(m: Map<Seq<char>, UserV>, id: Seq<char>)
    requires
        register_allowed(m, id),
    ensures
        !register_allowed(registered(m, id), id),
        registered(m, id)[id] == fresh_user(id),
        registered(m, id)[id].reputation == 0,
{
}

} // verus!
