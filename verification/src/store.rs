//! The in-memory persistence backend.
//!
//! Retro and user aggregates live in plain vectors in insertion order;
//! every lookup is a scan keyed by id.  `get_*` hands out copies, so a
//! caller can never mutate shared state except through `create_*` and
//! `update_*`.  The backend is single-writer by construction: whoever
//! owns it (usually behind a reader/writer lock installed by the
//! embedding program) serializes access.  Note that a caller that reads
//! an aggregate, changes it, and writes it back holds no lock across
//! that gap unless the embedding program keeps one; of two such
//! callers racing on one aggregate, the later write wins silently.
//! There is no compare-and-swap or version check here: that known
//! lost-update hazard is documented rather than silently repaired.
//!
//! A remote document store with the same contracts can stand in for
//! this backend; the adapter for it lives outside the verified core,
//! next to the I/O it performs.

use vstd::pervasive::VecAdditionalExecFns;
use vstd::prelude::*;

use crate::errors::ServiceError;
use crate::model::{Id, Retro, RetroV, User, UserV};
use crate::mutations::retro_wf;

verus! {

/// Elementwise view of a sequence of stored retros.
pub open spec fn retros_view(s: Seq<Retro>) -> Seq<RetroV> {
    Seq::new(s.len(), |i: int| s[i]@)
}

/// Elementwise view of a sequence of stored users.
pub open spec fn users_view(s: Seq<User>) -> Seq<UserV> {
    Seq::new(s.len(), |i: int| s[i]@)
}

/// Whether some stored retro has the given id.
pub open spec fn has_retro_id(rs: Seq<RetroV>, id: Id) -> bool {
    exists|i: int| 0 <= i < rs.len() && (#[trigger] rs[i]).id == id
}

/// The index of the stored retro with the given id; meaningful when
/// `has_retro_id` holds and ids are distinct.
pub open spec fn retro_index_of(rs: Seq<RetroV>, id: Id) -> int {
    choose|i: int| 0 <= i < rs.len() && (#[trigger] rs[i]).id == id
}

/// The stored retro with the given id.
pub open spec fn retro_with_id(rs: Seq<RetroV>, id: Id) -> RetroV {
    rs[retro_index_of(rs, id)]
}

/// Whether some stored user has the given id.
pub open spec fn has_user_id(us: Seq<UserV>, id: Id) -> bool {
    exists|i: int| 0 <= i < us.len() && (#[trigger] us[i]).id == id
}

/// The index of the stored user with the given id; meaningful when
/// `has_user_id` holds and ids are distinct.
pub open spec fn user_index_of(us: Seq<UserV>, id: Id) -> int {
    choose|i: int| 0 <= i < us.len() && (#[trigger] us[i]).id == id
}

/// The stored user with the given id.
pub open spec fn user_with_id(us: Seq<UserV>, id: Id) -> UserV {
    us[user_index_of(us, id)]
}

/// No two stored retros share an id.
pub open spec fn retros_distinct(rs: Seq<RetroV>) -> bool {
    forall|i: int, j: int|
        0 <= i < j < rs.len() ==> (#[trigger] rs[i]).id != (#[trigger] rs[j]).id
}

/// No two stored users share an id.
pub open spec fn users_distinct(us: Seq<UserV>) -> bool {
    forall|i: int, j: int|
        0 <= i < j < us.len() ==> (#[trigger] us[i]).id != (#[trigger] us[j]).id
}

/// With distinct ids, `retro_index_of` names the one position of a
/// retro.
pub proof fn lemma_retro_index_of(rs: Seq<RetroV>, i: int)
    requires
        retros_distinct(rs),
        0 <= i < rs.len(),
    ensures
        has_retro_id(rs, rs[i].id),
        retro_index_of(rs, rs[i].id) == i,
{
    let id = rs[i].id;
    assert(has_retro_id(rs, id));
    let q = retro_index_of(rs, id);
    assert(0 <= q < rs.len() && rs[q].id == id);
    if q < i {
        assert(rs[q].id != rs[i].id);
    } else if q > i {
        assert(rs[i].id != rs[q].id);
    }
}

/// With distinct ids, `user_index_of` names the one position of a
/// user.
pub proof fn lemma_user_index_of(us: Seq<UserV>, i: int)
    requires
        users_distinct(us),
        0 <= i < us.len(),
    ensures
        has_user_id(us, us[i].id),
        user_index_of(us, us[i].id) == i,
{
    let id = us[i].id;
    assert(has_user_id(us, id));
    let q = user_index_of(us, id);
    assert(0 <= q < us.len() && us[q].id == id);
    if q < i {
        assert(us[q].id != us[i].id);
    } else if q > i {
        assert(us[i].id != us[q].id);
    }
}

/// The in-memory backend.
pub struct MemoryHandler {
    retros: Vec<Retro>,
    users: Vec<User>,
}

impl MemoryHandler {
    /// The stored retros, in insertion order.
    pub closed spec fn retros(self) -> Seq<RetroV> {
        retros_view(self.retros@)
    }

    /// The stored users, in insertion order.
    pub closed spec fn users(self) -> Seq<UserV> {
        users_view(self.users@)
    }

    /// Invariant: ids are unique per collection, and every stored retro
    /// is internally consistent.
    pub open spec fn wf(self) -> bool {
        &&& retros_distinct(self.retros())
        &&& users_distinct(self.users())
        &&& forall|i: int| 0 <= i < self.retros().len() ==> retro_wf(#[trigger] self.retros()[i])
    }

    /// An empty backend.
    pub fn new() -> (res: MemoryHandler)
        ensures
            res.wf(),
            res.retros() == Seq::<RetroV>::empty(),
            res.users() == Seq::<UserV>::empty(),
    {
        let res = MemoryHandler { retros: Vec::new(), users: Vec::new() };
        proof {
            assert(res.retros() =~= Seq::<RetroV>::empty());
            assert(res.users() =~= Seq::<UserV>::empty());
        }
        res
    }

    /// A copy of the retro with the given id, or `NotFound`.
    pub fn get_retro(&self, retro_id: Id) -> (res: Result<Retro, ServiceError>)
        requires
            self.wf(),
        ensures
            res is Ok <==> has_retro_id(self.retros(), retro_id),
            res matches Ok(r) ==> r@ == retro_with_id(self.retros(), retro_id),
            res matches Err(e) ==> e == ServiceError::NotFound,
    {
        let n = self.retros.len();
        let mut i: usize = 0;
        while i < n
            invariant
                i <= n,
                n == self.retros.len(),
                self.wf(),
                forall|k: int| 0 <= k < i ==> (#[trigger] self.retros()[k]).id != retro_id,
            decreases n - i,
        {
            if self.retros[i].id == retro_id {
                proof {
                    lemma_retro_index_of(self.retros(), i as int);
                }
                return Ok(self.retros[i].clone());
            }
            i += 1;
        }
        Err(ServiceError::NotFound)
    }

    /// Copies of all retros, in insertion order.
    pub fn get_retros(&self) -> (res: Vec<Retro>)
        ensures
            retros_view(res@) == self.retros(),
    {
        let n = self.retros.len();
        let mut out: Vec<Retro> = Vec::new();
        let mut i: usize = 0;
        while i < n
            invariant
                i <= n,
                n == self.retros.len(),
                out@.len() == i as int,
                forall|k: int| 0 <= k < i ==> #[trigger] out@[k]@ == self.retros@[k]@,
            decreases n - i,
        {
            out.push(self.retros[i].clone());
            i += 1;
        }
        proof {
            assert(retros_view(out@) =~= self.retros());
        }
        out
    }

    /// A copy of the user with the given id, or `NotFound`.
    pub fn get_user(&self, user_id: Id) -> (res: Result<User, ServiceError>)
        requires
            self.wf(),
        ensures
            res is Ok <==> has_user_id(self.users(), user_id),
            res matches Ok(u) ==> u@ == user_with_id(self.users(), user_id),
            res matches Err(e) ==> e == ServiceError::NotFound,
    {
        let n = self.users.len();
        let mut i: usize = 0;
        while i < n
            invariant
                i <= n,
                n == self.users.len(),
                self.wf(),
                forall|k: int| 0 <= k < i ==> (#[trigger] self.users()[k]).id != user_id,
            decreases n - i,
        {
            if self.users[i].id == user_id {
                proof {
                    lemma_user_index_of(self.users(), i as int);
                }
                return Ok(self.users[i].clone());
            }
            i += 1;
        }
        Err(ServiceError::NotFound)
    }

    /// Copies of all users, in insertion order.
    pub fn get_users(&self) -> (res: Vec<User>)
        ensures
            users_view(res@) == self.users(),
    {
        let n = self.users.len();
        let mut out: Vec<User> = Vec::new();
        let mut i: usize = 0;
        while i < n
            invariant
                i <= n,
                n == self.users.len(),
                out@.len() == i as int,
                forall|k: int| 0 <= k < i ==> #[trigger] out@[k]@ == self.users@[k]@,
            decreases n - i,
        {
            out.push(self.users[i].clone());
            i += 1;
        }
        proof {
            assert(users_view(out@) =~= self.users());
        }
        out
    }

    /// Store a new retro aggregate and return a copy of it.  The write
    /// itself cannot fail in memory.
    pub fn create_retro(&mut self, retro: Retro) -> (res: Result<Retro, ServiceError>)
        requires
            old(self).wf(),
            retro_wf(retro@),
            !has_retro_id(old(self).retros(), retro@.id),
        ensures
            final(self).wf(),
            final(self).retros() == old(self).retros().push(retro@),
            final(self).users() == old(self).users(),
            res matches Ok(r) && r@ == retro@,
    {
        let ret = retro.clone();
        self.retros.push(retro);
        proof {
            assert(final(self).retros() =~= old(self).retros().push(retro@));
            assert(final(self).users() =~= old(self).users());
            let rs = final(self).retros();
            assert forall|i: int, j: int|
                0 <= i < j < rs.len() implies (#[trigger] rs[i]).id != (#[trigger] rs[j]).id by {
                if j == rs.len() - 1 {
                    assert(old(self).retros()[i].id != retro@.id);
                }
            }
        }
        Ok(ret)
    }

    /// Replace the stored aggregate with the same id, a full-aggregate
    /// write, and return a copy of the new value.  Callers read before
    /// they write; an id never stored yields `NotFound`.
    pub fn update_retro(&mut self, retro: Retro) -> (res: Result<Retro, ServiceError>)
        requires
            old(self).wf(),
            retro_wf(retro@),
        ensures
            final(self).wf(),
            final(self).users() == old(self).users(),
            res is Ok <==> has_retro_id(old(self).retros(), retro@.id),
            res matches Ok(r) ==> r@ == retro@ && final(self).retros() == old(
                self,
            ).retros().update(retro_index_of(old(self).retros(), retro@.id), retro@),
            res is Err ==> *final(self) == *old(self),
            res matches Err(e) ==> e == ServiceError::NotFound,
    {
        let n = self.retros.len();
        let mut i: usize = 0;
        while i < n
            invariant
                i <= n,
                n == self.retros.len(),
                *self == *old(self),
                self.wf(),
                retro_wf(retro@),
                forall|k: int| 0 <= k < i ==> (#[trigger] self.retros()[k]).id != retro@.id,
            decreases n - i,
        {
            if self.retros[i].id == retro_id_of(&retro) {
                proof {
                    lemma_retro_index_of(self.retros(), i as int);
                }
                let ret = retro.clone();
                self.retros.set(i, retro);
                proof {
                    assert(final(self).retros() =~= old(self).retros().update(i as int, retro@));
                    assert(final(self).users() =~= old(self).users());
                    let rs = final(self).retros();
                    let rs0 = old(self).retros();
                    assert forall|a: int, b: int|
                        0 <= a < b < rs.len() implies (#[trigger] rs[a]).id != (
                    #[trigger] rs[b]).id by {
                        assert(rs0[a].id != rs0[b].id);
                    }
                }
                return Ok(ret);
            }
            i += 1;
        }
        Err(ServiceError::NotFound)
    }

    /// Store a new user and return a copy.  No username-uniqueness rule
    /// exists: two users may deliberately share a name.
    pub fn create_user(&mut self, user: User) -> (res: Result<User, ServiceError>)
        requires
            old(self).wf(),
            !has_user_id(old(self).users(), user@.id),
        ensures
            final(self).wf(),
            final(self).users() == old(self).users().push(user@),
            final(self).retros() == old(self).retros(),
            res matches Ok(u) && u@ == user@,
    {
        let ret = user.clone();
        self.users.push(user);
        proof {
            assert(final(self).users() =~= old(self).users().push(user@));
            assert(final(self).retros() =~= old(self).retros());
            let us = final(self).users();
            assert forall|i: int, j: int|
                0 <= i < j < us.len() implies (#[trigger] us[i]).id != (#[trigger] us[j]).id by {
                if j == us.len() - 1 {
                    assert(old(self).users()[i].id != user@.id);
                }
            }
        }
        Ok(ret)
    }

    /// Replace the stored user with the same id and return a copy of
    /// the new value; an id never stored yields `NotFound`.
    pub fn update_user(&mut self, user: User) -> (res: Result<User, ServiceError>)
        requires
            old(self).wf(),
        ensures
            final(self).wf(),
            final(self).retros() == old(self).retros(),
            res is Ok <==> has_user_id(old(self).users(), user@.id),
            res matches Ok(u) ==> u@ == user@ && final(self).users() == old(self).users().update(
                user_index_of(old(self).users(), user@.id),
                user@,
            ),
            res is Err ==> *final(self) == *old(self),
            res matches Err(e) ==> e == ServiceError::NotFound,
    {
        let n = self.users.len();
        let mut i: usize = 0;
        while i < n
            invariant
                i <= n,
                n == self.users.len(),
                *self == *old(self),
                self.wf(),
                forall|k: int| 0 <= k < i ==> (#[trigger] self.users()[k]).id != user@.id,
            decreases n - i,
        {
            if self.users[i].id == user.id {
                proof {
                    lemma_user_index_of(self.users(), i as int);
                }
                let ret = user.clone();
                self.users.set(i, user);
                proof {
                    assert(final(self).users() =~= old(self).users().update(i as int, user@));
                    assert(final(self).retros() =~= old(self).retros());
                    let us = final(self).users();
                    let us0 = old(self).users();
                    assert forall|a: int, b: int|
                        0 <= a < b < us.len() implies (#[trigger] us[a]).id != (
                    #[trigger] us[b]).id by {
                        assert(us0[a].id != us0[b].id);
                    }
                }
                return Ok(ret);
            }
            i += 1;
        }
        Err(ServiceError::NotFound)
    }

    /// The first stored user with the given name, or `NotFound`; the
    /// login path resolves a claimed username this way.
    pub fn validate_user(&self, username: &String) -> (res: Result<User, ServiceError>)
        ensures
            res is Ok <==> exists|i: int|
                0 <= i < self.users().len() && (#[trigger] self.users()[i]).username == username@,
            res matches Ok(u) ==> exists|i: int|
                {
                    &&& 0 <= i < self.users().len()
                    &&& u@ == (#[trigger] self.users()[i])
                    &&& self.users()[i].username == username@
                    &&& forall|j: int|
                        0 <= j < i ==> (#[trigger] self.users()[j]).username != username@
                },
            res matches Err(e) ==> e == ServiceError::NotFound,
    {
        let n = self.users.len();
        let mut i: usize = 0;
        while i < n
            invariant
                i <= n,
                n == self.users.len(),
                forall|k: int| 0 <= k < i ==> (#[trigger] self.users()[k]).username != username@,
            decreases n - i,
        {
            if self.users[i].username == *username {
                let u = self.users[i].clone();
                proof {
                    assert(u@ == self.users()[i as int]);
                }
                return Ok(u);
            }
            i += 1;
        }
        Err(ServiceError::NotFound)
    }
}

/// The id of a retro aggregate, read without consuming it.
fn retro_id_of(retro: &Retro) -> (res: Id)
    ensures
        res == retro@.id,
{
    retro.id
}

} // verus!
