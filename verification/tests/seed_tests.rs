use dev_board_auth::{register_user, resolve, seed, Settings, Store};

fn names_of(mut v: Vec<String>) -> Vec<String> {
    v.sort();
    v
}

#[test]
fn seed_creates_catalog() {
    let mut store = Store::new();
    seed(&mut store);
    let perm_names: Vec<String> = store.permissions.iter().map(|p| p.name.clone()).collect();
    assert!(perm_names.contains(&String::from("item:read")));
    assert!(perm_names.contains(&String::from("item:write")));
    let role_names: Vec<String> = store.roles.iter().map(|r| r.name.clone()).collect();
    assert!(role_names.contains(&String::from("admin")));
    assert!(role_names.contains(&String::from("user")));
    let admin = store.find_user_by_login("admin").expect("superuser exists");
    let admin_role = store.find_role_by_id(admin.role_id).expect("superuser role exists");
    assert_eq!(admin_role.name, "admin");
}

#[test]
fn seed_twice_creates_no_duplicates() {
    let mut store = Store::new();
    seed(&mut store);
    let roles_once = store.roles.len();
    let perms_once = store.permissions.len();
    let links_once = store.role_permissions.len();
    let users_once = store.users.len();
    seed(&mut store);
    assert_eq!(store.roles.len(), roles_once);
    assert_eq!(store.permissions.len(), perms_once);
    assert_eq!(store.role_permissions.len(), links_once);
    assert_eq!(store.users.len(), users_once);
    for i in 0..store.roles.len() {
        for j in (i + 1)..store.roles.len() {
            assert_ne!(store.roles[i].name, store.roles[j].name);
            assert_ne!(store.roles[i].id, store.roles[j].id);
        }
    }
    for i in 0..store.permissions.len() {
        for j in (i + 1)..store.permissions.len() {
            assert_ne!(store.permissions[i].name, store.permissions[j].name);
            assert_ne!(store.permissions[i].id, store.permissions[j].id);
        }
    }
    for i in 0..store.role_permissions.len() {
        for j in (i + 1)..store.role_permissions.len() {
            let a = &store.role_permissions[i];
            let b = &store.role_permissions[j];
            assert!(a.role_id != b.role_id || a.permission_id != b.permission_id);
        }
    }
}

#[test]
fn fresh_user_resolves_to_default_role_set() {
    let mut store = Store::new();
    seed(&mut store);
    let uid = register_user(&mut store, "bob").expect("default role exists");
    let perms = names_of(resolve(&store, uid));
    let user_role = store.find_role_by_name("user").expect("default role exists");
    let via_role = names_of(store.find_permissions_by_role(user_role.id));
    assert_eq!(perms, via_role);
    assert_eq!(perms, vec![String::from("item:read")]);
}

#[test]
fn admin_resolves_to_both_permissions() {
    let mut store = Store::new();
    seed(&mut store);
    let admin = store.find_user_by_login("admin").expect("superuser exists");
    let perms = names_of(resolve(&store, admin.id));
    assert_eq!(perms, vec![String::from("item:read"), String::from("item:write")]);
}

#[test]
fn unknown_user_resolves_to_empty_set() {
    let mut store = Store::new();
    seed(&mut store);
    assert!(resolve(&store, 424242).is_empty());
}

#[test]
fn register_without_seed_fails() {
    let mut store = Store::new();
    assert!(register_user(&mut store, "carol").is_none());
}

#[test]
fn register_existing_login_reuses_row() {
    let mut store = Store::new();
    seed(&mut store);
    let first = register_user(&mut store, "dora").expect("created");
    let users_after_first = store.users.len();
    let second = register_user(&mut store, "dora").expect("reused");
    assert_eq!(first, second);
    assert_eq!(store.users.len(), users_after_first);
}

#[test]
fn link_refuses_dangling_references() {
    let mut store = Store::new();
    seed(&mut store);
    assert!(!store.link_role_permission_if_absent(123456, 0));
    assert!(!store.link_role_permission_if_absent(0, 123456));
}

#[test]
fn settings_holds_configuration_values() {
    let s = Settings::new(String::from("postgres://localhost/dev_board"), 8054);
    assert_eq!(s.db_uri, "postgres://localhost/dev_board");
    assert_eq!(s.server_port, 8054);
}

#[test]
fn init_test_is_callable() {
    dev_board_auth::init_test();
}
