//! Accounts, groups, and the identity directory the auth core consults:
//! an in-memory store with the same uniqueness guarantees the storage
//! layer enforces, so that lookup and creation can be reasoned about.

use vstd::prelude::*;

use crate::ids::UserId;

verus! {

/// An account: unique email and username, a one-way password digest, and
/// a creation timestamp. The digest never leaves the credential layer.
#[derive(Debug, Clone)]
pub struct User {
    pub id: UserId,
    pub email: String,
    pub username: String,
    pub bio: Option<String>,
    pub image_url: Option<String>,
    pub created_at: i64,
    pub password_hash: String,
}

/// The data a new account is created from.
#[derive(Debug, Clone)]
pub struct NewUser {
    pub email: String,
    pub username: String,
    pub password_hash: String,
    pub bio: Option<String>,
    pub image_url: Option<String>,
}

/// A study group; the ownership check only ever reads the owner.
#[derive(Debug, Clone)]
pub struct Group {
    pub owner_id: UserId,
    pub name: String,
    pub description: Option<String>,
    pub join_type: Option<String>,
    pub post_permission: Option<String>,
    pub edit_permissions: Option<String>,
    pub created_at: i64,
}

/// The data a new group is created from.
#[derive(Debug, Clone)]
pub struct NewGroup {
    pub name: String,
    pub description: Option<String>,
    pub owner_id: UserId,
    pub join_type: String,
}

impl User {
    /// A field-for-field copy with known contents.
    pub fn duplicate(&self) -> (r: User)
        ensures
            r.id == self.id,
            r.email@ == self.email@,
            r.username@ == self.username@,
            r.bio is Some <==> self.bio is Some,
            r.bio is Some ==> r.bio->0@ == self.bio->0@,
            r.image_url is Some <==> self.image_url is Some,
            r.image_url is Some ==> r.image_url->0@ == self.image_url->0@,
            r.created_at == self.created_at,
            r.password_hash@ == self.password_hash@,
    {
        User {
            id: self.id,
            email: self.email.clone(),
            username: self.username.clone(),
            bio: match &self.bio {
                Option::Some(s) => Option::Some(s.clone()),
                Option::None => Option::None,
            },
            image_url: match &self.image_url {
                Option::Some(s) => Option::Some(s.clone()),
                Option::None => Option::None,
            },
            created_at: self.created_at,
            password_hash: self.password_hash.clone(),
        }
    }
}

/// The identity directory: account lookup by id, email and username, and
/// group lookup by name. Emails, usernames, ids and group names are each
/// unique, as the storage layer's constraints guarantee.
pub struct Directory {
    accounts: Vec<User>,
    groups: Vec<Group>,
}

impl Directory {
    /// The stored accounts, in insertion order.
    pub closed spec fn accounts(&self) -> Seq<User> {
        self.accounts@
    }

    /// The stored groups, in insertion order.
    pub closed spec fn groups(&self) -> Seq<Group> {
        self.groups@
    }

    /// The uniqueness invariant.
    pub open spec fn wf(&self) -> bool {
        &&& forall|i: int, j: int|
            0 <= i < j < self.accounts().len() ==> self.accounts()[i].email@
                != self.accounts()[j].email@
        &&& forall|i: int, j: int|
            0 <= i < j < self.accounts().len() ==> self.accounts()[i].username@
                != self.accounts()[j].username@
        &&& forall|i: int, j: int|
            0 <= i < j < self.accounts().len() ==> self.accounts()[i].id != self.accounts()[j].id
        &&& forall|i: int, j: int|
            0 <= i < j < self.groups().len() ==> self.groups()[i].name@ != self.groups()[j].name@
    }

    /// Whether an account with this email is stored.
    pub open spec fn has_email(&self, email: Seq<char>) -> bool {
        exists|i: int| 0 <= i < self.accounts().len() && self.accounts()[i].email@ == email
    }

    /// Whether an account with this username is stored.
    pub open spec fn has_username(&self, username: Seq<char>) -> bool {
        exists|i: int| 0 <= i < self.accounts().len() && self.accounts()[i].username@ == username
    }

    /// Whether an account with this id is stored.
    pub open spec fn has_id(&self, id: UserId) -> bool {
        exists|i: int| 0 <= i < self.accounts().len() && self.accounts()[i].id == id
    }

    /// Whether a group with this name is stored.
    pub open spec fn has_group(&self, name: Seq<char>) -> bool {
        exists|i: int| 0 <= i < self.groups().len() && self.groups()[i].name@ == name
    }

    /// An empty directory.
    pub fn new() -> (r: Self)
        ensures
            r.wf(),
            r.accounts().len() == 0,
            r.groups().len() == 0,
    {
        Directory { accounts: Vec::new(), groups: Vec::new() }
    }

    /// Looks an account up by id.
    pub fn find_by_id(&self, id: UserId) -> (r: Option<&User>)
        ensures
            match r {
                Option::Some(u) => u.id == id && exists|i: int|
                    0 <= i < self.accounts().len() && self.accounts()[i] == *u,
                Option::None => !self.has_id(id),
            },
    {
        let n: usize = self.accounts.len();
        let mut i: usize = 0;
        while i < n
            invariant
                n == self.accounts().len(),
                i <= n,
                forall|k: int| 0 <= k < i ==> self.accounts()[k].id != id,
            decreases n - i,
        {
            let u = &self.accounts[i];
            if u.id.hi == id.hi && u.id.lo == id.lo {
                proof {
                    assert(u.id == id);
                }
                return Option::Some(u);
            }
            i = i + 1;
        }
        Option::None
    }

    /// Looks an account up by exact email.
    pub fn find_by_email(&self, email: &str) -> (r: Option<&User>)
        ensures
            match r {
                Option::Some(u) => u.email@ == email@ && exists|i: int|
                    0 <= i < self.accounts().len() && self.accounts()[i] == *u,
                Option::None => !self.has_email(email@),
            },
    {
        let n: usize = self.accounts.len();
        let mut i: usize = 0;
        while i < n
            invariant
                n == self.accounts().len(),
                i <= n,
                forall|k: int| 0 <= k < i ==> self.accounts()[k].email@ != email@,
            decreases n - i,
        {
            let u = &self.accounts[i];
            if str_eq(u.email.as_str(), email) {
                return Option::Some(u);
            }
            i = i + 1;
        }
        Option::None
    }

    /// Looks an account up by exact username.
    pub fn find_by_username(&self, username: &str) -> (r: Option<&User>)
        ensures
            match r {
                Option::Some(u) => u.username@ == username@ && exists|i: int|
                    0 <= i < self.accounts().len() && self.accounts()[i] == *u,
                Option::None => !self.has_username(username@),
            },
    {
        let n: usize = self.accounts.len();
        let mut i: usize = 0;
        while i < n
            invariant
                n == self.accounts().len(),
                i <= n,
                forall|k: int| 0 <= k < i ==> self.accounts()[k].username@ != username@,
            decreases n - i,
        {
            let u = &self.accounts[i];
            if str_eq(u.username.as_str(), username) {
                return Option::Some(u);
            }
            i = i + 1;
        }
        Option::None
    }

    /// Stores a new account under a fresh id; the caller has already
    /// ruled out duplicates, as registration does.
    pub fn create_account(&mut self, new_user: NewUser, id: UserId, created_at: i64) -> (r: User)
        requires
            old(self).wf(),
            !old(self).has_email(new_user.email@),
            !old(self).has_username(new_user.username@),
            !old(self).has_id(id),
        ensures
            final(self).wf(),
            final(self).groups() == old(self).groups(),
            final(self).accounts().len() == old(self).accounts().len() + 1,
            forall|k: int|
                0 <= k < old(self).accounts().len() ==> final(self).accounts()[k] == old(
                    self,
                ).accounts()[k],
            final(self).accounts().last().id == id,
            final(self).accounts().last().email@ == new_user.email@,
            final(self).accounts().last().username@ == new_user.username@,
            final(self).accounts().last().password_hash@ == new_user.password_hash@,
            final(self).accounts().last().created_at == created_at,
            r.id == id && r.email@ == new_user.email@ && r.username@ == new_user.username@
                && r.password_hash@ == new_user.password_hash@ && r.created_at == created_at,
    {
        let user = User {
            id,
            email: new_user.email,
            username: new_user.username,
            bio: new_user.bio,
            image_url: new_user.image_url,
            created_at,
            password_hash: new_user.password_hash,
        };
        let returned = user.duplicate();
        self.accounts.push(user);
        proof {
            let acc = self.accounts();
            let olds = old(self).accounts();
            assert forall|i: int, j: int| 0 <= i < j < acc.len() implies acc[i].email@
                != acc[j].email@ && acc[i].username@ != acc[j].username@ && acc[i].id
                != acc[j].id by {
                if j < olds.len() {
                    assert(acc[i] == olds[i] && acc[j] == olds[j]);
                } else {
                    assert(acc[i] == olds[i]);
                }
            }
        }
        returned
    }

    /// Looks a group up by exact name.
    pub fn find_group_by_name(&self, name: &str) -> (r: Option<&Group>)
        ensures
            match r {
                Option::Some(g) => g.name@ == name@ && exists|i: int|
                    0 <= i < self.groups().len() && self.groups()[i] == *g,
                Option::None => !self.has_group(name@),
            },
    {
        let n: usize = self.groups.len();
        let mut i: usize = 0;
        while i < n
            invariant
                n == self.groups().len(),
                i <= n,
                forall|k: int| 0 <= k < i ==> self.groups()[k].name@ != name@,
            decreases n - i,
        {
            let g = &self.groups[i];
            if str_eq(g.name.as_str(), name) {
                return Option::Some(g);
            }
            i = i + 1;
        }
        Option::None
    }

    /// Stores a new group; the caller has ruled out a duplicate name.
    pub fn create_group(&mut self, new_group: NewGroup, created_at: i64) -> (r: Group)
        requires
            old(self).wf(),
            !old(self).has_group(new_group.name@),
        ensures
            final(self).wf(),
            final(self).accounts() == old(self).accounts(),
            final(self).groups().len() == old(self).groups().len() + 1,
            forall|k: int|
                0 <= k < old(self).groups().len() ==> final(self).groups()[k] == old(
                    self,
                ).groups()[k],
            final(self).groups().last().name@ == new_group.name@,
            final(self).groups().last().owner_id == new_group.owner_id,
            r.name@ == new_group.name@ && r.owner_id == new_group.owner_id,
    {
        let group = Group {
            owner_id: new_group.owner_id,
            name: new_group.name,
            description: new_group.description,
            join_type: Option::Some(new_group.join_type),
            post_permission: Option::None,
            edit_permissions: Option::None,
            created_at,
        };
        let returned = Group {
            owner_id: group.owner_id,
            name: group.name.clone(),
            description: Option::None,
            join_type: Option::None,
            post_permission: Option::None,
            edit_permissions: Option::None,
            created_at,
        };
        self.groups.push(group);
        proof {
            let gs = self.groups();
            let olds = old(self).groups();
            assert forall|i: int, j: int| 0 <= i < j < gs.len() implies gs[i].name@
                != gs[j].name@ by {
                if j < olds.len() {
                    assert(gs[i] == olds[i] && gs[j] == olds[j]);
                } else {
                    assert(gs[i] == olds[i]);
                }
            }
        }
        returned
    }
}

/// Whether two strings hold the same characters.
pub fn str_eq(a: &str, b: &str) -> (r: bool)
    ensures
        r == (a@ == b@),
{
    let ca = crate::text::str_chars(a);
    let cb = crate::text::str_chars(b);
    let n: usize = ca.len();
    if n != cb.len() {
        proof {
            assert(a@ != b@);
        }
        return false;
    }
    let mut i: usize = 0;
    while i < n
        invariant
            n == ca@.len() == cb@.len(),
            ca@ == a@,
            cb@ == b@,
            i <= n,
            forall|k: int| 0 <= k < i ==> ca@[k] == cb@[k],
        decreases n - i,
    {
        if ca[i] != cb[i] {
            proof {
                assert(a@[i as int] != b@[i as int]);
            }
            return false;
        }
        i = i + 1;
    }
    proof {
        assert(a@ =~= b@);
    }
    true
}

} // verus!
