//! Permission resolver: from a user id to the set of permission names
//! effective for that user.

use vstd::prelude::*;
use crate::store::Store;

verus! {

/// Resolved permission set of `user_id`: the names reachable through the
/// role the user holds, without duplicates. Empty — not an error — when
/// the user is unknown, its role is unknown, or the role has no linked
/// permissions.
pub fn resolve(store: &Store, user_id: u64) -> (r: Vec<String>)
    requires
        store@.wf(),
    ensures
        forall|k: int| 0 <= k < r@.len() ==> store@.user_grants(user_id, #[trigger] r@[k]@),
        forall|n: Seq<char>|
            #[trigger] store@.user_grants(user_id, n) ==> exists|k: int|
                0 <= k < r@.len() && r@[k]@ == n,
        forall|k: int, l: int| 0 <= k < l < r@.len() ==> r@[k]@ != r@[l]@,
{
    let ghost v = store@;
    match store.find_user_by_id(user_id) {
        None => {
            proof {
                assert forall|n: Seq<char>| !(#[trigger] v.user_grants(user_id, n)) by {
                    if v.user_grants(user_id, n) {
                        let k = choose|k: int|
                            0 <= k < v.users.len() && (#[trigger] v.users[k]).0 == user_id
                                && v.role_grants(v.users[k].2, n);
                        assert(v.has_user_id(user_id));
                    }
                }
            }
            Vec::new()
        },
        Some(u) => {
            let role_id = u.role_id;
            let r = store.find_permissions_by_role(role_id);
            proof {
                let wi = choose|i: int|
                    0 <= i < v.users.len() && #[trigger] v.users[i] == (user_id, u.login@, role_id);
                assert(v.users[wi] == (user_id, u.login@, role_id));
                assert forall|k: int| 0 <= k < r@.len() implies v.user_grants(
                    user_id,
                    #[trigger] r@[k]@,
                ) by {
                    assert(v.role_grants(role_id, r@[k]@));
                    assert(v.users[wi].0 == user_id && v.users[wi].2 == role_id);
                }
                assert forall|n: Seq<char>| #[trigger] v.user_grants(user_id, n) implies exists|
                    k: int,
                |
                    0 <= k < r@.len() && r@[k]@ == n by {
                    let k = choose|k: int|
                        0 <= k < v.users.len() && (#[trigger] v.users[k]).0 == user_id
                            && v.role_grants(v.users[k].2, n);
                    if k != wi {
                        assert(v.users[k].0 != v.users[wi].0);
                    }
                    assert(v.role_grants(role_id, n));
                }
            }
            r
        },
    }
}

} // verus!
