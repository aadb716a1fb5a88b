//! Bootstrap seeder: establishes the fixed catalog of permissions, roles,
//! role-permission links, the default "user" role for self-registered
//! accounts, and the superuser account, idempotently.

use vstd::prelude::*;
use crate::store::{lemma_extends_facts, Store, StoreView};

verus! {

/// Some role named `role_name` grants the permission named `perm_name`.
pub open spec fn role_named_grants(v: StoreView, role_name: Seq<char>, perm_name: Seq<char>) -> bool {
    exists|rid: u64| #[trigger] v.is_role(rid, role_name) && v.role_grants(rid, perm_name)
}

/// The fixed catalog is present: both permissions, both roles, the three
/// policy links, and a user under the superuser login.
pub open spec fn catalog_seeded(v: StoreView) -> bool {
    &&& v.has_perm_named("item:read"@)
    &&& v.has_perm_named("item:write"@)
    &&& v.has_role_named("admin"@)
    &&& v.has_role_named("user"@)
    &&& role_named_grants(v, "admin"@, "item:read"@)
    &&& role_named_grants(v, "admin"@, "item:write"@)
    &&& role_named_grants(v, "user"@, "item:read"@)
    &&& v.has_user_login("admin"@)
}

/// The superuser holds the administrative role.
pub open spec fn admin_user_seeded(v: StoreView) -> bool {
    exists|uid: u64, rid: u64|
        #[trigger] v.is_user(uid, "admin"@, rid) && v.is_role(rid, "admin"@)
}

/// Everything `seed` is responsible for.
pub open spec fn seeded(v: StoreView) -> bool {
    catalog_seeded(v) && admin_user_seeded(v)
}

/// Two roles sharing a name are the same id.
proof fn lemma_role_name_unique(v: StoreView, id1: u64, id2: u64, n: Seq<char>)
    requires
        v.wf(),
        v.is_role(id1, n),
        v.is_role(id2, n),
    ensures
        id1 == id2,
{
    let i1 = choose|i: int| 0 <= i < v.roles.len() && #[trigger] v.roles[i] == (id1, n);
    let i2 = choose|i: int| 0 <= i < v.roles.len() && #[trigger] v.roles[i] == (id2, n);
    if i1 != i2 {
        assert(v.roles[i1].1 != v.roles[i2].1);
    }
}

/// Two permissions sharing a name are the same id.
proof fn lemma_perm_name_unique(v: StoreView, id1: u64, id2: u64, n: Seq<char>)
    requires
        v.wf(),
        v.is_perm(id1, n),
        v.is_perm(id2, n),
    ensures
        id1 == id2,
{
    let i1 = choose|i: int| 0 <= i < v.permissions.len() && #[trigger] v.permissions[i] == (id1, n);
    let i2 = choose|i: int| 0 <= i < v.permissions.len() && #[trigger] v.permissions[i] == (id2, n);
    if i1 != i2 {
        assert(v.permissions[i1].1 != v.permissions[i2].1);
    }
}

/// A join row together with the permission's name gives a granted name.
proof fn lemma_link_grants(v: StoreView, rid: u64, pid: u64, n: Seq<char>)
    requires
        v.has_link(rid, pid),
        v.is_perm(pid, n),
    ensures
        v.role_grants(rid, n),
{
    let a = choose|i: int| 0 <= i < v.links.len() && #[trigger] v.links[i] == (rid, pid);
    let w = choose|i: int| 0 <= i < v.permissions.len() && #[trigger] v.permissions[i] == (pid, n);
    assert(v.links[a].0 == rid && v.permissions[w].0 == v.links[a].1 && v.permissions[w].1 == n);
}

/// In a well-formed store, a name-level grant pins down the join row of
/// the rows carrying those names.
proof fn lemma_named_grant_to_link(
    v: StoreView,
    rid: u64,
    pid: u64,
    role_name: Seq<char>,
    perm_name: Seq<char>,
)
    requires
        v.wf(),
        v.is_role(rid, role_name),
        v.is_perm(pid, perm_name),
        role_named_grants(v, role_name, perm_name),
    ensures
        v.has_link(rid, pid),
{
    let rid2 = choose|r: u64| #[trigger] v.is_role(r, role_name) && v.role_grants(r, perm_name);
    lemma_role_name_unique(v, rid, rid2, role_name);
    let (a, b) = choose|a: int, b: int|
        #![trigger v.links[a], v.permissions[b]]
        0 <= a < v.links.len() && a < v.links.len() && 0 <= b < v.permissions.len() && v.links[a].0
            == rid2 && v.permissions[b].0 == v.links[a].1 && v.permissions[b].1 == perm_name;
    assert(v.is_perm(v.links[a].1, perm_name));
    lemma_perm_name_unique(v, pid, v.links[a].1, perm_name);
    assert(v.links[a] == (rid, pid));
}

/// Idempotently establishes the authorization baseline: the permission
/// catalog {"item:read", "item:write"}, the roles "admin" and "user",
/// links granting "admin" both permissions and "user" read access, and
/// the superuser account "admin" holding the "admin" role. Running it on
/// an already-seeded store changes nothing.
pub fn seed(store: &mut Store)
    requires
        old(store)@.wf(),
        old(store)@.next_permission_id <= u64::MAX - 2,
        old(store)@.next_role_id <= u64::MAX - 2,
        old(store)@.next_user_id <= u64::MAX - 1,
    ensures
        final(store)@.wf(),
        catalog_seeded(final(store)@),
        !old(store)@.has_user_login("admin"@) ==> seeded(final(store)@),
        catalog_seeded(old(store)@) ==> final(store)@ == old(store)@,
{
    let ghost v0 = store@;
    let p_read = store.create_permission_if_absent("item:read");
    let ghost v1 = store@;
    let p_write = store.create_permission_if_absent("item:write");
    let ghost v2 = store@;
    proof {
        lemma_extends_facts(v1, v2);
    }
    let r_admin = store.create_role_if_absent("admin");
    let ghost v3 = store@;
    proof {
        lemma_extends_facts(v2, v3);
    }
    let r_user = store.create_role_if_absent("user");
    let ghost v4 = store@;
    proof {
        lemma_extends_facts(v3, v4);
        assert(v4.is_perm(p_read, "item:read"@));
        assert(v4.is_perm(p_write, "item:write"@));
        assert(v4.is_role(r_admin, "admin"@));
        assert(v4.is_role(r_user, "user"@));
        assert(v4.has_role_id(r_admin) && v4.has_role_id(r_user)) by {
            let i = choose|i: int| 0 <= i < v4.roles.len() && #[trigger] v4.roles[i] == (r_admin, "admin"@);
            let j = choose|i: int| 0 <= i < v4.roles.len() && #[trigger] v4.roles[i] == (r_user, "user"@);
            assert(v4.roles[i].0 == r_admin && v4.roles[j].0 == r_user);
        }
        assert(v4.has_perm_id(p_read) && v4.has_perm_id(p_write)) by {
            let i = choose|i: int|
                0 <= i < v4.permissions.len() && #[trigger] v4.permissions[i] == (p_read, "item:read"@);
            let j = choose|i: int|
                0 <= i < v4.permissions.len() && #[trigger] v4.permissions[i] == (
                    p_write,
                    "item:write"@,
                );
            assert(v4.permissions[i].0 == p_read && v4.permissions[j].0 == p_write);
        }
    }
    store.link_role_permission_if_absent(r_admin, p_read);
    let ghost v5 = store@;
    proof {
        lemma_extends_facts(v4, v5);
    }
    store.link_role_permission_if_absent(r_admin, p_write);
    let ghost v6 = store@;
    proof {
        lemma_extends_facts(v5, v6);
    }
    store.link_role_permission_if_absent(r_user, p_read);
    let ghost v7 = store@;
    proof {
        lemma_extends_facts(v6, v7);
    }
    let admin_uid = store.create_user_if_absent("admin", r_admin);
    let ghost v8 = store@;
    proof {
        lemma_extends_facts(v7, v8);
        assert(v8.is_perm(p_read, "item:read"@));
        assert(v8.is_perm(p_write, "item:write"@));
        assert(v8.is_role(r_admin, "admin"@));
        assert(v8.is_role(r_user, "user"@));
        assert(v8.has_link(r_admin, p_read));
        assert(v8.has_link(r_admin, p_write));
        assert(v8.has_link(r_user, p_read));
        lemma_link_grants(v8, r_admin, p_read, "item:read"@);
        lemma_link_grants(v8, r_admin, p_write, "item:write"@);
        lemma_link_grants(v8, r_user, p_read, "item:read"@);
        assert(v8.has_perm_named("item:read"@) && v8.has_perm_named("item:write"@)) by {
            let i = choose|i: int|
                0 <= i < v8.permissions.len() && #[trigger] v8.permissions[i] == (p_read, "item:read"@);
            let j = choose|i: int|
                0 <= i < v8.permissions.len() && #[trigger] v8.permissions[i] == (
                    p_write,
                    "item:write"@,
                );
            assert(v8.permissions[i].1 == "item:read"@ && v8.permissions[j].1 == "item:write"@);
        }
        assert(v8.has_role_named("admin"@) && v8.has_role_named("user"@)) by {
            let i = choose|i: int| 0 <= i < v8.roles.len() && #[trigger] v8.roles[i] == (r_admin, "admin"@);
            let j = choose|i: int| 0 <= i < v8.roles.len() && #[trigger] v8.roles[i] == (r_user, "user"@);
            assert(v8.roles[i].1 == "admin"@ && v8.roles[j].1 == "user"@);
        }
        assert(v8.has_user_login("admin"@)) by {
            let i = choose|i: int|
                0 <= i < v8.users.len() && (#[trigger] v8.users[i]).0 == admin_uid && v8.users[i].1
                    == "admin"@;
        }
        assert(catalog_seeded(v8));
        if !v0.has_user_login("admin"@) {
            assert(v7.users == v0.users);
            assert(!v7.has_user_login("admin"@)) by {
                if v7.has_user_login("admin"@) {
                    let i = choose|i: int|
                        0 <= i < v7.users.len() && (#[trigger] v7.users[i]).1 == "admin"@;
                    assert(v0.users[i].1 == "admin"@);
                }
            }
            assert(v8.is_user(admin_uid, "admin"@, r_admin));
            assert(admin_user_seeded(v8));
        }
        if catalog_seeded(v0) {
            assert(v1 == v0);
            assert(v2 == v1);
            assert(v3 == v2);
            assert(v4 == v3);
            lemma_named_grant_to_link(v4, r_admin, p_read, "admin"@, "item:read"@);
            assert(v5 == v4);
            lemma_named_grant_to_link(v5, r_admin, p_write, "admin"@, "item:write"@);
            assert(v6 == v5);
            lemma_named_grant_to_link(v6, r_user, p_read, "user"@, "item:read"@);
            assert(v7 == v6);
            assert(v8 == v7);
        }
    }
}

/// What registration promises: the returned id names a user row under
/// `login`; an existing login leaves the store unchanged; a fresh login is
/// stored under the default "user" role; no result means the default role
/// is missing and nothing changed.
pub open spec fn register_user_post(
    v0: StoreView,
    v1: StoreView,
    login: Seq<char>,
    r: Option<u64>,
) -> bool {
    match r {
        Some(uid) => {
            &&& v1.is_user_id_login(uid, login)
            &&& v0.has_user_login(login) ==> v1 == v0
            &&& !v0.has_user_login(login) ==> exists|rid: u64|
                #[trigger] v1.is_user(uid, login, rid) && v1.is_role(rid, "user"@)
        },
        None => !v0.has_role_named("user"@) && v1 == v0,
    }
}

/// Creates an account under `login` holding the default "user" role — the
/// assignment policy for self-registered users. Returns the user id, or
/// nothing when the default role is missing (the store was never seeded);
/// an existing login is reused unchanged.
pub fn register_user(store: &mut Store, login: &str) -> (r: Option<u64>)
    requires
        old(store)@.wf(),
        old(store)@.next_user_id < u64::MAX,
    ensures
        final(store)@.wf(),
        register_user_post(old(store)@, final(store)@, login@, r),
{
    let ghost v0 = store@;
    proof {
        assert(v0 == old(store)@);
    }
    let role_id = match store.find_role_by_name("user") {
        Some(role) => role.id,
        None => {
            return None;
        },
    };
    let uid = store.create_user_if_absent(login, role_id);
    proof {
        lemma_extends_facts(v0, store@);
        assert(store@.is_user_id_login(uid, login@));
        if v0.has_user_login(login@) {
            assert(store@ == v0);
        } else {
            assert(store@.is_user(uid, login@, role_id));
            assert(store@.is_role(role_id, "user"@));
            assert(exists|rid: u64|
                #[trigger] store@.is_user(uid, login@, rid) && store@.is_role(rid, "user"@));
        }
        assert(register_user_post(v0, store@, login@, Some(uid)));
    }
    Some(uid)
}

/// A user's resolved permission set is exactly the granted set of the one
/// role it holds.
pub proof fn lemma_user_resolves_role(v: StoreView, uid: u64, login: Seq<char>, rid: u64)
    requires
        v.wf(),
        v.is_user(uid, login, rid),
    ensures
        forall|n: Seq<char>| #[trigger] v.user_grants(uid, n) <==> v.role_grants(rid, n),
{
    let wi = choose|i: int| 0 <= i < v.users.len() && #[trigger] v.users[i] == (uid, login, rid);
    assert(v.users[wi] == (uid, login, rid));
    assert forall|n: Seq<char>| #[trigger] v.user_grants(uid, n) implies v.role_grants(rid, n) by {
        let k = choose|k: int|
            0 <= k < v.users.len() && (#[trigger] v.users[k]).0 == uid && v.role_grants(
                v.users[k].2,
                n,
            );
        if k != wi {
            assert(v.users[k].0 != v.users[wi].0);
        }
    }
    assert forall|n: Seq<char>| v.role_grants(rid, n) implies v.user_grants(uid, n) by {
        assert(v.users[wi].0 == uid && v.users[wi].2 == rid);
    }
}

} // verus!
