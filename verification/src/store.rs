//! Role-permission store: users, roles, permissions, and the
//! role-permission join relation, with the uniqueness and referential
//! integrity the rest of the authorization layer relies on.

use vstd::prelude::*;

verus! {

/// Named group of permissions.
#[derive(Debug)]
pub struct Role {
    pub id: u64,
    pub name: String,
}

/// Named capability checked against a route's requirement.
#[derive(Debug)]
pub struct Permission {
    pub id: u64,
    pub name: String,
}

/// Join row linking one role to one permission.
#[derive(Clone, Copy, Debug)]
pub struct RolePermission {
    pub role_id: u64,
    pub permission_id: u64,
}

/// Account identity: unique id, unique login handle, one assigned role.
#[derive(Debug)]
pub struct User {
    pub id: u64,
    pub login: String,
    pub role_id: u64,
}

/// Mathematical content of a store: rows as tuples of plain values.
#[verifier::ext_equal]
pub ghost struct StoreView {
    /// (id, name) per role.
    pub roles: Seq<(u64, Seq<char>)>,
    /// (id, name) per permission.
    pub permissions: Seq<(u64, Seq<char>)>,
    /// (role id, permission id) per join row.
    pub links: Seq<(u64, u64)>,
    /// (id, login, role id) per user.
    pub users: Seq<(u64, Seq<char>, u64)>,
    pub next_role_id: u64,
    pub next_permission_id: u64,
    pub next_user_id: u64,
}

impl StoreView {
    /// Some role row has id `id`.
    pub open spec fn has_role_id(self, id: u64) -> bool {
        exists|i: int| 0 <= i < self.roles.len() && (#[trigger] self.roles[i]).0 == id
    }

    /// Some role row has name `name`.
    pub open spec fn has_role_named(self, name: Seq<char>) -> bool {
        exists|i: int| 0 <= i < self.roles.len() && (#[trigger] self.roles[i]).1 == name
    }

    /// A role row carries both `id` and `name`.
    pub open spec fn is_role(self, id: u64, name: Seq<char>) -> bool {
        exists|i: int|
            0 <= i < self.roles.len() && #[trigger] self.roles[i] == (id, name)
    }

    /// Some permission row has id `id`.
    pub open spec fn has_perm_id(self, id: u64) -> bool {
        exists|i: int| 0 <= i < self.permissions.len() && (#[trigger] self.permissions[i]).0 == id
    }

    /// Some permission row has name `name`.
    pub open spec fn has_perm_named(self, name: Seq<char>) -> bool {
        exists|i: int| 0 <= i < self.permissions.len() && (#[trigger] self.permissions[i]).1 == name
    }

    /// A permission row carries both `id` and `name`.
    pub open spec fn is_perm(self, id: u64, name: Seq<char>) -> bool {
        exists|i: int|
            0 <= i < self.permissions.len() && #[trigger] self.permissions[i] == (id, name)
    }

    /// The join relation holds the pair (`role_id`, `permission_id`).
    pub open spec fn has_link(self, role_id: u64, permission_id: u64) -> bool {
        exists|i: int|
            0 <= i < self.links.len() && #[trigger] self.links[i] == (role_id, permission_id)
    }

    /// Some user row has id `id`.
    pub open spec fn has_user_id(self, id: u64) -> bool {
        exists|i: int| 0 <= i < self.users.len() && (#[trigger] self.users[i]).0 == id
    }

    /// Some user row has login `login`.
    pub open spec fn has_user_login(self, login: Seq<char>) -> bool {
        exists|i: int| 0 <= i < self.users.len() && (#[trigger] self.users[i]).1 == login
    }

    /// A user row carries both id `id` and login `login`.
    pub open spec fn is_user_id_login(self, id: u64, login: Seq<char>) -> bool {
        exists|i: int|
            0 <= i < self.users.len() && (#[trigger] self.users[i]).0 == id && self.users[i].1
                == login
    }

    /// A user row carries id `id`, login `login` and role `role_id`.
    pub open spec fn is_user(self, id: u64, login: Seq<char>, role_id: u64) -> bool {
        exists|i: int|
            0 <= i < self.users.len() && #[trigger] self.users[i] == (id, login, role_id)
    }

    /// Among the first `bound` join rows, one links `role_id` to a
    /// permission named `name`.
    pub open spec fn role_grants_upto(self, role_id: u64, name: Seq<char>, bound: int) -> bool {
        exists|a: int, b: int|
            #![trigger self.links[a], self.permissions[b]]
            0 <= a < bound && a < self.links.len() && 0 <= b < self.permissions.len()
                && self.links[a].0 == role_id && self.permissions[b].0 == self.links[a].1
                && self.permissions[b].1 == name
    }

    /// The role's effective permission set contains `name`: some join row
    /// links `role_id` to a permission named `name`.
    pub open spec fn role_grants(self, role_id: u64, name: Seq<char>) -> bool {
        self.role_grants_upto(role_id, name, self.links.len() as int)
    }

    /// The user's resolved permission set contains `name`: the user exists
    /// and the role it holds grants `name`.
    pub open spec fn user_grants(self, user_id: u64, name: Seq<char>) -> bool {
        exists|k: int|
            0 <= k < self.users.len() && (#[trigger] self.users[k]).0 == user_id
                && self.role_grants(self.users[k].2, name)
    }

    /// Row-level integrity: ids and natural keys are unique, join rows are
    /// unique pairs without dangling references, and every id lies below
    /// its counter.
    pub open spec fn wf(self) -> bool {
        &&& forall|i: int, j: int|
            #![trigger self.roles[i], self.roles[j]]
            0 <= i < j < self.roles.len() ==> self.roles[i].0 != self.roles[j].0
                && self.roles[i].1 != self.roles[j].1
        &&& forall|i: int, j: int|
            #![trigger self.permissions[i], self.permissions[j]]
            0 <= i < j < self.permissions.len() ==> self.permissions[i].0
                != self.permissions[j].0 && self.permissions[i].1 != self.permissions[j].1
        &&& forall|i: int, j: int|
            #![trigger self.links[i], self.links[j]]
            0 <= i < j < self.links.len() ==> self.links[i] != self.links[j]
        &&& forall|i: int|
            0 <= i < self.links.len() ==> self.has_role_id((#[trigger] self.links[i]).0)
                && self.has_perm_id(self.links[i].1)
        &&& forall|i: int, j: int|
            #![trigger self.users[i], self.users[j]]
            0 <= i < j < self.users.len() ==> self.users[i].0 != self.users[j].0
                && self.users[i].1 != self.users[j].1
        &&& forall|i: int| 0 <= i < self.roles.len() ==> (#[trigger] self.roles[i]).0 < self.next_role_id
        &&& forall|i: int|
            0 <= i < self.permissions.len() ==> (#[trigger] self.permissions[i]).0
                < self.next_permission_id
        &&& forall|i: int| 0 <= i < self.users.len() ==> (#[trigger] self.users[i]).0 < self.next_user_id
    }
}

/// Appending a role row with a fresh id and a fresh name keeps the store
/// well formed.
proof fn lemma_wf_push_role(v0: StoreView, id: u64, name: Seq<char>)
    requires
        v0.wf(),
        !v0.has_role_named(name),
        id == v0.next_role_id,
        v0.next_role_id < u64::MAX,
    ensures
        (StoreView { roles: v0.roles.push((id, name)), next_role_id: (id + 1) as u64, ..v0 }).wf(),
{
    let v = StoreView { roles: v0.roles.push((id, name)), next_role_id: (id + 1) as u64, ..v0 };
    assert forall|i: int, j: int|
        #![trigger v.roles[i], v.roles[j]]
        0 <= i < j < v.roles.len() implies v.roles[i].0 != v.roles[j].0 && v.roles[i].1
        != v.roles[j].1 by {
        if j < v.roles.len() - 1 {
            assert(v.roles[i] == v0.roles[i]);
            assert(v.roles[j] == v0.roles[j]);
        } else {
            assert(v.roles[j] == (id, name));
            assert(v.roles[i] == v0.roles[i]);
            assert(v0.roles[i].0 < v0.next_role_id);
            if v0.roles[i].1 == name {
                assert(v0.has_role_named(name));
            }
        }
    }
    assert forall|i: int| 0 <= i < v.links.len() implies v.has_role_id(
        (#[trigger] v.links[i]).0,
    ) && v.has_perm_id(v.links[i].1) by {
        assert(v.links[i] == v0.links[i]);
        assert(v0.has_role_id(v0.links[i].0));
        assert(v0.has_perm_id(v0.links[i].1));
        let wi = choose|k: int| 0 <= k < v0.roles.len() && (#[trigger] v0.roles[k]).0 == v0.links[i].0;
        assert(0 <= wi < v0.roles.len() && v0.roles[wi].0 == v0.links[i].0);
        assert(v.roles[wi] == v0.roles[wi]);
        assert(v.has_role_id(v.links[i].0));
        let wp = choose|k: int|
            0 <= k < v0.permissions.len() && (#[trigger] v0.permissions[k]).0 == v0.links[i].1;
        assert(0 <= wp < v0.permissions.len() && v0.permissions[wp].0 == v0.links[i].1);
        assert(v.permissions[wp] == v0.permissions[wp]);
        assert(v.has_perm_id(v.links[i].1));
    }
    assert forall|i: int| 0 <= i < v.roles.len() implies (#[trigger] v.roles[i]).0
        < v.next_role_id by {
        if i < v.roles.len() - 1 {
            assert(v.roles[i] == v0.roles[i]);
        }
    }
}

/// Appending a permission row with a fresh id and a fresh name keeps the
/// store well formed.
proof fn lemma_wf_push_perm(v0: StoreView, id: u64, name: Seq<char>)
    requires
        v0.wf(),
        !v0.has_perm_named(name),
        id == v0.next_permission_id,
        v0.next_permission_id < u64::MAX,
    ensures
        (StoreView {
            permissions: v0.permissions.push((id, name)),
            next_permission_id: (id + 1) as u64,
            ..v0
        }).wf(),
{
    let v = StoreView {
        permissions: v0.permissions.push((id, name)),
        next_permission_id: (id + 1) as u64,
        ..v0
    };
    assert forall|i: int, j: int|
        #![trigger v.permissions[i], v.permissions[j]]
        0 <= i < j < v.permissions.len() implies v.permissions[i].0 != v.permissions[j].0
        && v.permissions[i].1 != v.permissions[j].1 by {
        if j < v.permissions.len() - 1 {
            assert(v.permissions[i] == v0.permissions[i]);
            assert(v.permissions[j] == v0.permissions[j]);
        } else {
            assert(v.permissions[j] == (id, name));
            assert(v.permissions[i] == v0.permissions[i]);
            assert(v0.permissions[i].0 < v0.next_permission_id);
            if v0.permissions[i].1 == name {
                assert(v0.has_perm_named(name));
            }
        }
    }
    assert forall|i: int| 0 <= i < v.links.len() implies v.has_role_id(
        (#[trigger] v.links[i]).0,
    ) && v.has_perm_id(v.links[i].1) by {
        assert(v.links[i] == v0.links[i]);
        assert(v0.has_role_id(v0.links[i].0));
        assert(v0.has_perm_id(v0.links[i].1));
        let wr = choose|k: int| 0 <= k < v0.roles.len() && (#[trigger] v0.roles[k]).0 == v0.links[i].0;
        assert(0 <= wr < v0.roles.len() && v0.roles[wr].0 == v0.links[i].0);
        assert(v.roles[wr] == v0.roles[wr]);
        assert(v.has_role_id(v.links[i].0));
        let wp = choose|k: int|
            0 <= k < v0.permissions.len() && (#[trigger] v0.permissions[k]).0 == v0.links[i].1;
        assert(0 <= wp < v0.permissions.len() && v0.permissions[wp].0 == v0.links[i].1);
        assert(v.permissions[wp] == v0.permissions[wp]);
        assert(v.has_perm_id(v.links[i].1));
    }
    assert forall|i: int| 0 <= i < v.permissions.len() implies (#[trigger] v.permissions[i]).0
        < v.next_permission_id by {
        if i < v.permissions.len() - 1 {
            assert(v.permissions[i] == v0.permissions[i]);
        }
    }
}

/// Appending a join row that is absent and references existing rows keeps
/// the store well formed.
proof fn lemma_wf_push_link(v0: StoreView, role_id: u64, permission_id: u64)
    requires
        v0.wf(),
        !v0.has_link(role_id, permission_id),
        v0.has_role_id(role_id),
        v0.has_perm_id(permission_id),
    ensures
        (StoreView { links: v0.links.push((role_id, permission_id)), ..v0 }).wf(),
{
    let v = StoreView { links: v0.links.push((role_id, permission_id)), ..v0 };
    assert forall|i: int, j: int|
        #![trigger v.links[i], v.links[j]]
        0 <= i < j < v.links.len() implies v.links[i] != v.links[j] by {
        if j < v.links.len() - 1 {
            assert(v.links[i] == v0.links[i]);
            assert(v.links[j] == v0.links[j]);
        } else {
            assert(v.links[j] == (role_id, permission_id));
            assert(v.links[i] == v0.links[i]);
            if v0.links[i] == (role_id, permission_id) {
                assert(v0.has_link(role_id, permission_id));
            }
        }
    }
    assert forall|i: int| 0 <= i < v.links.len() implies v.has_role_id(
        (#[trigger] v.links[i]).0,
    ) && v.has_perm_id(v.links[i].1) by {
        if i < v.links.len() - 1 {
            assert(v.links[i] == v0.links[i]);
            assert(v0.has_role_id(v0.links[i].0));
            assert(v0.has_perm_id(v0.links[i].1));
        } else {
            assert(v.links[i] == (role_id, permission_id));
        }
        let wr = choose|k: int| 0 <= k < v0.roles.len() && (#[trigger] v0.roles[k]).0 == v.links[i].0;
        assert(v.roles[wr] == v0.roles[wr]);
        let wp = choose|k: int|
            0 <= k < v0.permissions.len() && (#[trigger] v0.permissions[k]).0 == v.links[i].1;
        assert(v.permissions[wp] == v0.permissions[wp]);
    }
}

/// Appending a user row with a fresh id and a fresh login keeps the store
/// well formed.
proof fn lemma_wf_push_user(v0: StoreView, id: u64, login: Seq<char>, role_id: u64)
    requires
        v0.wf(),
        !v0.has_user_login(login),
        id == v0.next_user_id,
        v0.next_user_id < u64::MAX,
    ensures
        (StoreView {
            users: v0.users.push((id, login, role_id)),
            next_user_id: (id + 1) as u64,
            ..v0
        }).wf(),
{
    let v = StoreView {
        users: v0.users.push((id, login, role_id)),
        next_user_id: (id + 1) as u64,
        ..v0
    };
    assert forall|i: int, j: int|
        #![trigger v.users[i], v.users[j]]
        0 <= i < j < v.users.len() implies v.users[i].0 != v.users[j].0 && v.users[i].1
        != v.users[j].1 by {
        if j < v.users.len() - 1 {
            assert(v.users[i] == v0.users[i]);
            assert(v.users[j] == v0.users[j]);
        } else {
            assert(v.users[j] == (id, login, role_id));
            assert(v.users[i] == v0.users[i]);
            assert(v0.users[i].0 < v0.next_user_id);
            if v0.users[i].1 == login {
                assert(v0.has_user_login(login));
            }
        }
    }
    assert forall|i: int| 0 <= i < v.users.len() implies (#[trigger] v.users[i]).0
        < v.next_user_id by {
        if i < v.users.len() - 1 {
            assert(v.users[i] == v0.users[i]);
        }
    }
}

/// `v2` holds every row of `v1`, each at its old position.
pub open spec fn view_extends(v2: StoreView, v1: StoreView) -> bool {
    &&& v1.roles.is_prefix_of(v2.roles)
    &&& v1.permissions.is_prefix_of(v2.permissions)
    &&& v1.links.is_prefix_of(v2.links)
    &&& v1.users.is_prefix_of(v2.users)
}

proof fn lemma_prefix_refl<A>(s: Seq<A>)
    ensures
        s.is_prefix_of(s),
{
    assert(s =~= s.subrange(0, s.len() as int));
}

proof fn lemma_prefix_push<A>(s: Seq<A>, x: A)
    ensures
        s.is_prefix_of(s.push(x)),
{
    assert(s =~= s.push(x).subrange(0, s.len() as int));
}

proof fn lemma_extends_refl(v: StoreView)
    ensures
        view_extends(v, v),
{
    lemma_prefix_refl(v.roles);
    lemma_prefix_refl(v.permissions);
    lemma_prefix_refl(v.links);
    lemma_prefix_refl(v.users);
}

/// Extending a store never loses a row: every positive row fact carries
/// over.
pub proof fn lemma_extends_facts(v1: StoreView, v2: StoreView)
    requires
        view_extends(v2, v1),
    ensures
        forall|id: u64, n: Seq<char>| #[trigger] v1.is_role(id, n) ==> v2.is_role(id, n),
        forall|id: u64, n: Seq<char>| #[trigger] v1.is_perm(id, n) ==> v2.is_perm(id, n),
        forall|r: u64, p: u64| #[trigger] v1.has_link(r, p) ==> v2.has_link(r, p),
        forall|id: u64, l: Seq<char>, rr: u64|
            #[trigger] v1.is_user(id, l, rr) ==> v2.is_user(id, l, rr),
        forall|l: Seq<char>| #[trigger] v1.has_user_login(l) ==> v2.has_user_login(l),
{
    assert forall|id: u64, n: Seq<char>| #[trigger] v1.is_role(id, n) implies v2.is_role(
        id,
        n,
    ) by {
        let i = choose|i: int| 0 <= i < v1.roles.len() && #[trigger] v1.roles[i] == (id, n);
        assert(v1.roles[i] == v1.roles.subrange(0, v1.roles.len() as int)[i]);
        assert(v2.roles[i] == v1.roles[i]);
    }
    assert forall|id: u64, n: Seq<char>| #[trigger] v1.is_perm(id, n) implies v2.is_perm(
        id,
        n,
    ) by {
        let i = choose|i: int|
            0 <= i < v1.permissions.len() && #[trigger] v1.permissions[i] == (id, n);
        assert(v2.permissions[i] == v1.permissions[i]);
    }
    assert forall|r: u64, p: u64| #[trigger] v1.has_link(r, p) implies v2.has_link(r, p) by {
        let i = choose|i: int| 0 <= i < v1.links.len() && #[trigger] v1.links[i] == (r, p);
        assert(v2.links[i] == v1.links[i]);
    }
    assert forall|id: u64, l: Seq<char>, rr: u64| #[trigger] v1.is_user(id, l, rr) implies
        v2.is_user(id, l, rr) by {
        let i = choose|i: int| 0 <= i < v1.users.len() && #[trigger] v1.users[i] == (id, l, rr);
        assert(v2.users[i] == v1.users[i]);
    }
    assert forall|l: Seq<char>| #[trigger] v1.has_user_login(l) implies v2.has_user_login(l) by {
        let i = choose|i: int| 0 <= i < v1.users.len() && (#[trigger] v1.users[i]).1 == l;
        assert(v2.users[i] == v1.users[i]);
    }
}

/// A join row found among the first `b1` rows is found among the first
/// `b2` rows for any `b2 >= b1`.
proof fn lemma_upto_mono(v: StoreView, role_id: u64, name: Seq<char>, b1: int, b2: int)
    requires
        v.role_grants_upto(role_id, name, b1),
        b1 <= b2 <= v.links.len(),
    ensures
        v.role_grants_upto(role_id, name, b2),
{
    let (a, b) = choose|a: int, b: int|
        #![trigger v.links[a], v.permissions[b]]
        0 <= a < b1 && a < v.links.len() && 0 <= b < v.permissions.len() && v.links[a].0 == role_id
            && v.permissions[b].0 == v.links[a].1 && v.permissions[b].1 == name;
    assert(0 <= a < b2 && v.links[a].0 == role_id && v.permissions[b].0 == v.links[a].1);
}

/// In-memory role-permission store.
pub struct Store {
    pub roles: Vec<Role>,
    pub permissions: Vec<Permission>,
    pub role_permissions: Vec<RolePermission>,
    pub users: Vec<User>,
    pub next_role_id: u64,
    pub next_permission_id: u64,
    pub next_user_id: u64,
}

impl View for Store {
    type V = StoreView;

    open spec fn view(&self) -> StoreView {
        StoreView {
            roles: self.roles@.map_values(|r: Role| (r.id, r.name@)),
            permissions: self.permissions@.map_values(|p: Permission| (p.id, p.name@)),
            links: self.role_permissions@.map_values(
                |l: RolePermission| (l.role_id, l.permission_id),
            ),
            users: self.users@.map_values(|u: User| (u.id, u.login@, u.role_id)),
            next_role_id: self.next_role_id,
            next_permission_id: self.next_permission_id,
            next_user_id: self.next_user_id,
        }
    }
}

/// Character-wise string comparison, equivalent to view equality.
pub fn str_eq(a: &str, b: &str) -> (r: bool)
    ensures
        r == (a@ == b@),
{
    let an = a.unicode_len();
    let bn = b.unicode_len();
    if an != bn {
        return false;
    }
    let mut i: usize = 0;
    while i < an
        invariant
            0 <= i <= an == a@.len(),
            an == bn == b@.len(),
            forall|j: int| 0 <= j < i ==> a@[j] == b@[j],
        decreases an - i,
    {
        if a.get_char(i) != b.get_char(i) {
            return false;
        }
        i = i + 1;
    }
    proof {
        assert(a@ =~= b@);
    }
    true
}

impl Store {
    /// A store with no rows at all.
    pub fn new() -> (s: Store)
        ensures
            s@.wf(),
            s@.roles.len() == 0,
            s@.permissions.len() == 0,
            s@.links.len() == 0,
            s@.users.len() == 0,
    {
        Store {
            roles: Vec::new(),
            permissions: Vec::new(),
            role_permissions: Vec::new(),
            users: Vec::new(),
            next_role_id: 0,
            next_permission_id: 0,
            next_user_id: 0,
        }
    }

    /// Looks a user up by id.
    pub fn find_user_by_id(&self, id: u64) -> (r: Option<&User>)
        ensures
            match r {
                Some(u) => u.id == id && self@.is_user(id, u.login@, u.role_id),
                None => !self@.has_user_id(id),
            },
    {
        let mut i: usize = 0;
        while i < self.users.len()
            invariant
                0 <= i <= self.users.len(),
                forall|k: int| 0 <= k < i ==> (#[trigger] self@.users[k]).0 != id,
            decreases self.users.len() - i,
        {
            if self.users[i].id == id {
                proof {
                    assert(self@.users[i as int] == (
                        self.users@[i as int].id,
                        self.users@[i as int].login@,
                        self.users@[i as int].role_id,
                    ));
                }
                return Some(&self.users[i]);
            }
            i = i + 1;
        }
        None
    }

    /// Looks a role up by id.
    pub fn find_role_by_id(&self, id: u64) -> (r: Option<&Role>)
        ensures
            match r {
                Some(role) => role.id == id && self@.is_role(id, role.name@),
                None => !self@.has_role_id(id),
            },
    {
        let mut i: usize = 0;
        while i < self.roles.len()
            invariant
                0 <= i <= self.roles.len(),
                forall|k: int| 0 <= k < i ==> (#[trigger] self@.roles[k]).0 != id,
            decreases self.roles.len() - i,
        {
            if self.roles[i].id == id {
                proof {
                    assert(self@.roles[i as int] == (
                        self.roles@[i as int].id,
                        self.roles@[i as int].name@,
                    ));
                }
                return Some(&self.roles[i]);
            }
            i = i + 1;
        }
        None
    }

    /// Looks a permission up by id.
    pub fn find_permission_by_id(&self, id: u64) -> (r: Option<&Permission>)
        ensures
            match r {
                Some(p) => p.id == id && self@.is_perm(id, p.name@),
                None => !self@.has_perm_id(id),
            },
    {
        let mut i: usize = 0;
        while i < self.permissions.len()
            invariant
                0 <= i <= self.permissions.len(),
                forall|k: int| 0 <= k < i ==> (#[trigger] self@.permissions[k]).0 != id,
            decreases self.permissions.len() - i,
        {
            if self.permissions[i].id == id {
                proof {
                    assert(self@.permissions[i as int] == (
                        self.permissions@[i as int].id,
                        self.permissions@[i as int].name@,
                    ));
                }
                return Some(&self.permissions[i]);
            }
            i = i + 1;
        }
        None
    }

    /// Looks a role up by name.
    pub fn find_role_by_name(&self, name: &str) -> (r: Option<&Role>)
        ensures
            match r {
                Some(role) => role.name@ == name@ && self@.is_role(role.id, name@),
                None => !self@.has_role_named(name@),
            },
    {
        let mut i: usize = 0;
        while i < self.roles.len()
            invariant
                0 <= i <= self.roles.len(),
                forall|k: int| 0 <= k < i ==> (#[trigger] self@.roles[k]).1 != name@,
            decreases self.roles.len() - i,
        {
            if str_eq(self.roles[i].name.as_str(), name) {
                proof {
                    assert(self@.roles[i as int] == (
                        self.roles@[i as int].id,
                        self.roles@[i as int].name@,
                    ));
                }
                return Some(&self.roles[i]);
            }
            i = i + 1;
        }
        None
    }

    /// Looks a permission up by name.
    pub fn find_permission_by_name(&self, name: &str) -> (r: Option<&Permission>)
        ensures
            match r {
                Some(p) => p.name@ == name@ && self@.is_perm(p.id, name@),
                None => !self@.has_perm_named(name@),
            },
    {
        let mut i: usize = 0;
        while i < self.permissions.len()
            invariant
                0 <= i <= self.permissions.len(),
                forall|k: int| 0 <= k < i ==> (#[trigger] self@.permissions[k]).1 != name@,
            decreases self.permissions.len() - i,
        {
            if str_eq(self.permissions[i].name.as_str(), name) {
                proof {
                    assert(self@.permissions[i as int] == (
                        self.permissions@[i as int].id,
                        self.permissions@[i as int].name@,
                    ));
                }
                return Some(&self.permissions[i]);
            }
            i = i + 1;
        }
        None
    }

    /// Looks a user up by login handle.
    pub fn find_user_by_login(&self, login: &str) -> (r: Option<&User>)
        ensures
            match r {
                Some(u) => u.login@ == login@ && self@.is_user(u.id, login@, u.role_id),
                None => !self@.has_user_login(login@),
            },
    {
        let mut i: usize = 0;
        while i < self.users.len()
            invariant
                0 <= i <= self.users.len(),
                forall|k: int| 0 <= k < i ==> (#[trigger] self@.users[k]).1 != login@,
            decreases self.users.len() - i,
        {
            if str_eq(self.users[i].login.as_str(), login) {
                proof {
                    assert(self@.users[i as int] == (
                        self.users@[i as int].id,
                        self.users@[i as int].login@,
                        self.users@[i as int].role_id,
                    ));
                }
                return Some(&self.users[i]);
            }
            i = i + 1;
        }
        None
    }

    /// Names of the permissions linked to `role_id`: one entry for each
    /// member of the role's effective permission set, without duplicates.
    pub fn find_permissions_by_role(&self, role_id: u64) -> (r: Vec<String>)
        requires
            self@.wf(),
        ensures
            forall|k: int| 0 <= k < r@.len() ==> self@.role_grants(role_id, #[trigger] r@[k]@),
            forall|n: Seq<char>|
                #[trigger] self@.role_grants(role_id, n) ==> exists|k: int|
                    0 <= k < r@.len() && r@[k]@ == n,
            forall|k: int, l: int| 0 <= k < l < r@.len() ==> r@[k]@ != r@[l]@,
    {
        let ghost v = self@;
        let mut out: Vec<String> = Vec::new();
        let mut i: usize = 0;
        while i < self.role_permissions.len()
            invariant
                v == self@,
                v.wf(),
                0 <= i <= self.role_permissions@.len(),
                v.links.len() == self.role_permissions@.len(),
                forall|k: int|
                    0 <= k < out@.len() ==> v.role_grants_upto(
                        role_id,
                        #[trigger] out@[k]@,
                        i as int,
                    ),
                forall|n: Seq<char>|
                    #[trigger] v.role_grants_upto(role_id, n, i as int) ==> exists|k: int|
                        0 <= k < out@.len() && out@[k]@ == n,
                forall|k: int, l: int| 0 <= k < l < out@.len() ==> out@[k]@ != out@[l]@,
            decreases self.role_permissions@.len() - i,
        {
            let rp = RolePermission {
                role_id: self.role_permissions[i].role_id,
                permission_id: self.role_permissions[i].permission_id,
            };
            proof {
                assert(v.links[i as int] == (rp.role_id, rp.permission_id));
            }
            if rp.role_id == role_id {
                match self.find_permission_by_id(rp.permission_id) {
                    Some(p) => {
                        let ghost wp = choose|b: int|
                            0 <= b < v.permissions.len() && #[trigger] v.permissions[b] == (
                                rp.permission_id,
                                p.name@,
                            );
                        proof {
                            assert(v.permissions[wp] == (rp.permission_id, p.name@));
                            assert forall|k: int| 0 <= k < out@.len() implies out@[k]@
                                != p.name@ by {
                                if out@[k]@ == p.name@ {
                                    assert(v.role_grants_upto(role_id, p.name@, i as int));
                                    let (a, b2) = choose|a: int, b2: int|
                                        #![trigger v.links[a], v.permissions[b2]]
                                        0 <= a < i && a < v.links.len() && 0 <= b2
                                            < v.permissions.len() && v.links[a].0 == role_id
                                            && v.permissions[b2].0 == v.links[a].1
                                            && v.permissions[b2].1 == p.name@;
                                    if b2 != wp {
                                        assert(v.permissions[b2].1 != v.permissions[wp].1);
                                    }
                                    assert(v.links[a] == (role_id, rp.permission_id));
                                    assert(v.links[a] != v.links[i as int]);
                                    assert(false);
                                }
                            }
                        }
                        let ghost out0 = out@;
                        let name = p.name.clone();
                        out.push(name);
                        proof {
                            assert(out@ == out0.push(name));
                            assert(out@.last()@ == p.name@);
                            assert(v.role_grants_upto(role_id, p.name@, i + 1));
                            assert forall|k: int| 0 <= k < out@.len() implies v.role_grants_upto(
                                role_id,
                                #[trigger] out@[k]@,
                                i + 1,
                            ) by {
                                if k < out@.len() - 1 {
                                    lemma_upto_mono(v, role_id, out@[k]@, i as int, i + 1);
                                }
                            }
                            assert forall|n: Seq<char>|
                                #[trigger] v.role_grants_upto(role_id, n, i + 1) implies exists|
                                k: int,
                            |
                                0 <= k < out@.len() && out@[k]@ == n by {
                                let (a, b) = choose|a: int, b: int|
                                    #![trigger v.links[a], v.permissions[b]]
                                    0 <= a < i + 1 && a < v.links.len() && 0 <= b
                                        < v.permissions.len() && v.links[a].0 == role_id
                                        && v.permissions[b].0 == v.links[a].1 && v.permissions[b].1
                                        == n;
                                if a < i {
                                    assert(v.role_grants_upto(role_id, n, i as int));
                                    let k0 = choose|k: int|
                                        0 <= k < out0.len() && #[trigger] out0[k]@ == n;
                                    assert(out@[k0] == out0[k0]);
                                    assert(0 <= k0 < out@.len() && out@[k0]@ == n);
                                } else {
                                    assert(v.links[a] == (rp.role_id, rp.permission_id));
                                    if b != wp {
                                        assert(v.permissions[b].0 != v.permissions[wp].0);
                                    }
                                    assert(n == p.name@);
                                    assert(out@[out@.len() - 1]@ == n);
                                }
                            }
                        }
                    },
                    None => {
                        proof {
                            assert(v.has_perm_id(v.links[i as int].1));
                            assert(false);
                        }
                    },
                }
            } else {
                proof {
                    assert forall|n: Seq<char>|
                        #[trigger] v.role_grants_upto(role_id, n, i + 1) implies v.role_grants_upto(
                        role_id,
                        n,
                        i as int,
                    ) by {
                        let (a, b) = choose|a: int, b: int|
                            #![trigger v.links[a], v.permissions[b]]
                            0 <= a < i + 1 && a < v.links.len() && 0 <= b < v.permissions.len()
                                && v.links[a].0 == role_id && v.permissions[b].0 == v.links[a].1
                                && v.permissions[b].1 == n;
                        assert(a != i);
                    }
                    assert forall|k: int| 0 <= k < out@.len() implies v.role_grants_upto(
                        role_id,
                        #[trigger] out@[k]@,
                        i + 1,
                    ) by {
                        lemma_upto_mono(v, role_id, out@[k]@, i as int, i + 1);
                    }
                }
            }
            i = i + 1;
        }
        out
    }

    /// Ensures a role named `name` exists and returns its id; an existing
    /// row is reused unchanged.
    pub fn create_role_if_absent(&mut self, name: &str) -> (id: u64)
        requires
            old(self)@.wf(),
            old(self)@.next_role_id < u64::MAX,
        ensures
            final(self)@.wf(),
            final(self)@.is_role(id, name@),
            view_extends(final(self)@, old(self)@),
            final(self)@.permissions == old(self)@.permissions,
            final(self)@.links == old(self)@.links,
            final(self)@.users == old(self)@.users,
            old(self)@.has_role_named(name@) ==> final(self)@ == old(self)@,
            !old(self)@.has_role_named(name@) ==> final(self)@ == (StoreView {
                roles: old(self)@.roles.push((id, name@)),
                next_role_id: (old(self)@.next_role_id + 1) as u64,
                ..old(self)@
            }) && id == old(self)@.next_role_id,
    {
        match self.find_role_by_name(name) {
            Some(role) => {
                proof {
                    lemma_extends_refl(self@);
                }
                role.id
            },
            None => {
                let id = self.next_role_id;
                let n = name.to_owned();
                self.roles.push(Role { id, name: n });
                self.next_role_id = self.next_role_id + 1;
                proof {
                    assert(self@.roles =~= old(self)@.roles.push((id, name@)));
                    assert(self@ =~= (StoreView {
                        roles: old(self)@.roles.push((id, name@)),
                        next_role_id: (old(self)@.next_role_id + 1) as u64,
                        ..old(self)@
                    }));
                    lemma_wf_push_role(old(self)@, id, name@);
                    lemma_prefix_push(old(self)@.roles, (id, name@));
                    lemma_extends_refl(old(self)@);
                    assert(self@.roles[self@.roles.len() - 1] == (id, name@));
                }
                id
            },
        }
    }

    /// Ensures a permission named `name` exists and returns its id; an
    /// existing row is reused unchanged.
    pub fn create_permission_if_absent(&mut self, name: &str) -> (id: u64)
        requires
            old(self)@.wf(),
            old(self)@.next_permission_id < u64::MAX,
        ensures
            final(self)@.wf(),
            final(self)@.is_perm(id, name@),
            view_extends(final(self)@, old(self)@),
            final(self)@.roles == old(self)@.roles,
            final(self)@.links == old(self)@.links,
            final(self)@.users == old(self)@.users,
            old(self)@.has_perm_named(name@) ==> final(self)@ == old(self)@,
            !old(self)@.has_perm_named(name@) ==> final(self)@ == (StoreView {
                permissions: old(self)@.permissions.push((id, name@)),
                next_permission_id: (old(self)@.next_permission_id + 1) as u64,
                ..old(self)@
            }) && id == old(self)@.next_permission_id,
    {
        match self.find_permission_by_name(name) {
            Some(p) => {
                proof {
                    lemma_extends_refl(self@);
                }
                p.id
            },
            None => {
                let id = self.next_permission_id;
                let n = name.to_owned();
                self.permissions.push(Permission { id, name: n });
                self.next_permission_id = self.next_permission_id + 1;
                proof {
                    assert(self@.permissions =~= old(self)@.permissions.push((id, name@)));
                    assert(self@ =~= (StoreView {
                        permissions: old(self)@.permissions.push((id, name@)),
                        next_permission_id: (old(self)@.next_permission_id + 1) as u64,
                        ..old(self)@
                    }));
                    lemma_wf_push_perm(old(self)@, id, name@);
                    lemma_prefix_push(old(self)@.permissions, (id, name@));
                    lemma_extends_refl(old(self)@);
                    assert(self@.permissions[self@.permissions.len() - 1] == (id, name@));
                }
                id
            },
        }
    }

    /// Ensures the join row (`role_id`, `permission_id`) exists. Refuses a
    /// dangling reference; an existing row is reused unchanged.
    pub fn link_role_permission_if_absent(&mut self, role_id: u64, permission_id: u64) -> (ok:
        bool)
        requires
            old(self)@.wf(),
        ensures
            final(self)@.wf(),
            view_extends(final(self)@, old(self)@),
            final(self)@.roles == old(self)@.roles,
            final(self)@.permissions == old(self)@.permissions,
            final(self)@.users == old(self)@.users,
            ok == (old(self)@.has_role_id(role_id) && old(self)@.has_perm_id(permission_id)),
            ok ==> final(self)@.has_link(role_id, permission_id),
            !ok ==> final(self)@ == old(self)@,
            old(self)@.has_link(role_id, permission_id) ==> final(self)@ == old(self)@,
            ok && !old(self)@.has_link(role_id, permission_id) ==> final(self)@ == (StoreView {
                links: old(self)@.links.push((role_id, permission_id)),
                ..old(self)@
            }),
    {
        let role_there = self.find_role_by_id(role_id).is_some();
        let perm_there = self.find_permission_by_id(permission_id).is_some();
        if !(role_there && perm_there) {
            proof {
                lemma_extends_refl(self@);
            }
            return false;
        }
        let mut i: usize = 0;
        while i < self.role_permissions.len()
            invariant
                0 <= i <= self.role_permissions.len(),
                self@ == old(self)@,
                self@.wf(),
                self@.has_role_id(role_id),
                self@.has_perm_id(permission_id),
                forall|k: int|
                    0 <= k < i ==> #[trigger] self@.links[k] != (role_id, permission_id),
            decreases self.role_permissions.len() - i,
        {
            if self.role_permissions[i].role_id == role_id && self.role_permissions[i].permission_id
                == permission_id {
                proof {
                    assert(self@.links[i as int] == (role_id, permission_id));
                    lemma_extends_refl(self@);
                }
                return true;
            }
            i = i + 1;
        }
        self.role_permissions.push(RolePermission { role_id, permission_id });
        proof {
            assert(self@.links =~= old(self)@.links.push((role_id, permission_id)));
            assert(self@ =~= (StoreView {
                links: old(self)@.links.push((role_id, permission_id)),
                ..old(self)@
            }));
            lemma_wf_push_link(old(self)@, role_id, permission_id);
            lemma_prefix_push(old(self)@.links, (role_id, permission_id));
            lemma_extends_refl(old(self)@);
            assert(self@.links[self@.links.len() - 1] == (role_id, permission_id));
        }
        true
    }

    /// Ensures a user with login `login` exists and returns its id; an
    /// existing row is reused unchanged, keeping its role.
    pub fn create_user_if_absent(&mut self, login: &str, role_id: u64) -> (id: u64)
        requires
            old(self)@.wf(),
            old(self)@.next_user_id < u64::MAX,
        ensures
            final(self)@.wf(),
            final(self)@.is_user_id_login(id, login@),
            view_extends(final(self)@, old(self)@),
            final(self)@.roles == old(self)@.roles,
            final(self)@.permissions == old(self)@.permissions,
            final(self)@.links == old(self)@.links,
            old(self)@.has_user_login(login@) ==> final(self)@ == old(self)@,
            !old(self)@.has_user_login(login@) ==> final(self)@ == (StoreView {
                users: old(self)@.users.push((id, login@, role_id)),
                next_user_id: (old(self)@.next_user_id + 1) as u64,
                ..old(self)@
            }) && id == old(self)@.next_user_id && final(self)@.is_user(id, login@, role_id),
    {
        match self.find_user_by_login(login) {
            Some(u) => {
                proof {
                    let wi = choose|i: int|
                        0 <= i < self@.users.len() && #[trigger] self@.users[i] == (
                            u.id,
                            login@,
                            u.role_id,
                        );
                    assert(self@.users[wi].0 == u.id && self@.users[wi].1 == login@);
                    lemma_extends_refl(self@);
                }
                u.id
            },
            None => {
                let id = self.next_user_id;
                let n = login.to_owned();
                self.users.push(User { id, login: n, role_id });
                self.next_user_id = self.next_user_id + 1;
                proof {
                    assert(self@.users =~= old(self)@.users.push((id, login@, role_id)));
                    assert(self@ =~= (StoreView {
                        users: old(self)@.users.push((id, login@, role_id)),
                        next_user_id: (old(self)@.next_user_id + 1) as u64,
                        ..old(self)@
                    }));
                    lemma_wf_push_user(old(self)@, id, login@, role_id);
                    lemma_prefix_push(old(self)@.users, (id, login@, role_id));
                    lemma_extends_refl(old(self)@);
                    assert(self@.users[self@.users.len() - 1] == (id, login@, role_id));
                }
                id
            },
        }
    }
}

} // verus!
