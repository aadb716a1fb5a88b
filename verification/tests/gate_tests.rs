use dev_board_auth::{
    authorize, encode, handle_rejection, register_user, resolve, seed, Claim, Failure, Store,
    Unauthorized,
};

const KEY: &str = "test-signing-key";

fn seeded_store_with_user(login: &str) -> (Store, u64) {
    let mut store = Store::new();
    seed(&mut store);
    let uid = register_user(&mut store, login).expect("default role exists after seed");
    (store, uid)
}

fn bearer_header(claim: &Claim) -> String {
    let token = encode(KEY, claim);
    let mut header = String::from("Bearer ");
    header.push_str(token.as_str());
    header
}

#[test]
fn scenario_new_user_denied_write() {
    let (store, uid) = seeded_store_with_user("alice");
    let header = bearer_header(&Claim { subject: uid, issued_at: 0, expires_at: 100 });
    let r = authorize(&store, KEY, 50, Some(header.as_str()), "item:write");
    let rejection = r.expect_err("the default role must not grant writes");
    assert_eq!(rejection.error_message, "insufficient permission: item:write");
    let (status, body) = handle_rejection(&Failure::Unauthorized(rejection));
    assert_eq!(status, 401);
    assert_eq!(
        body,
        "{\"success\":false,\"message\":\"insufficient permission: item:write\",\"code\":-1,\"err_type\":\"Error\"}"
    );
}

#[test]
fn scenario_new_user_admitted_read() {
    let (store, uid) = seeded_store_with_user("alice");
    let header = bearer_header(&Claim { subject: uid, issued_at: 0, expires_at: 100 });
    let r = authorize(&store, KEY, 50, Some(header.as_str()), "item:read");
    assert_eq!(r.ok(), Some(uid), "handler must receive the resolved user id");
}

#[test]
fn scenario_corrupted_signature_hides_permission() {
    let (store, uid) = seeded_store_with_user("alice");
    let token = encode(KEY, &Claim { subject: uid, issued_at: 0, expires_at: 100 });
    let mut fields: Vec<String> = token.split('.').map(|f| f.to_string()).collect();
    let tag: u64 = fields[3].parse().unwrap();
    fields[3] = (tag + 1).to_string();
    let mut header = String::from("Bearer ");
    header.push_str(fields.join(".").as_str());
    for required in ["item:read", "item:write", "user:delete"] {
        let r = authorize(&store, KEY, 50, Some(header.as_str()), required);
        let rejection = r.expect_err("forged token must be rejected");
        assert_eq!(rejection.error_message, "invalid or missing credentials");
        assert!(!rejection.error_message.contains(required));
    }
}

#[test]
fn scenario_unmatched_route_maps_to_plain_404() {
    let (status, body) = handle_rejection(&Failure::NotFound);
    assert_eq!(status, 404);
    assert_eq!(body, "NOT_FOUND");
}

#[test]
fn internal_failure_maps_to_opaque_500() {
    let (status, body) = handle_rejection(&Failure::Internal);
    assert_eq!(status, 500);
    assert_eq!(body, "INTERNAL_SERVER_ERROR");
}

#[test]
fn expired_token_rejected_despite_permission() {
    let (store, uid) = seeded_store_with_user("alice");
    let header = bearer_header(&Claim { subject: uid, issued_at: 0, expires_at: 100 });
    let r = authorize(&store, KEY, 100, Some(header.as_str()), "item:read");
    let rejection = r.expect_err("expired token must be rejected");
    assert_eq!(rejection.error_message, "invalid or missing credentials");
}

#[test]
fn missing_header_rejected() {
    let (store, _) = seeded_store_with_user("alice");
    let r = authorize(&store, KEY, 50, None, "item:read");
    assert_eq!(r.unwrap_err().error_message, "invalid or missing credentials");
}

#[test]
fn non_bearer_header_rejected() {
    let (store, _) = seeded_store_with_user("alice");
    let r = authorize(&store, KEY, 50, Some("Basic YWxhZGRpbg=="), "item:read");
    assert_eq!(r.unwrap_err().error_message, "invalid or missing credentials");
}

#[test]
fn unknown_subject_rejected() {
    let (store, _) = seeded_store_with_user("alice");
    let header = bearer_header(&Claim { subject: 9999, issued_at: 0, expires_at: 100 });
    let r = authorize(&store, KEY, 50, Some(header.as_str()), "item:read");
    let rejection = r.expect_err("unknown user resolves to the empty set");
    assert_eq!(rejection.error_message, "insufficient permission: item:read");
}

#[test]
fn rejection_body_is_valid_json() {
    let rejection = Unauthorized { error_message: String::from("line\nbreak \"and\" back\\slash") };
    let (status, body) = handle_rejection(&Failure::Unauthorized(rejection));
    assert_eq!(status, 401);
    let value: serde_json::Value = serde_json::from_str(body.as_str()).expect("body parses as JSON");
    assert_eq!(value.get("success").and_then(|v| v.as_bool()), Some(false));
    assert_eq!(
        value.get("message").and_then(|v| v.as_str()),
        Some("line\nbreak \"and\" back\\slash")
    );
    assert_eq!(value.get("code").and_then(|v| v.as_i64()), Some(-1));
    assert_eq!(value.get("err_type").and_then(|v| v.as_str()), Some("Error"));
}

#[test]
fn rejection_body_escaping_matches_reference_encoder() {
    let message = "ctl:\u{1} quote:\" slash:\\ tab:\t high:\u{1f} ok";
    let rejection = Unauthorized { error_message: String::from(message) };
    let (_, body) = handle_rejection(&Failure::Unauthorized(rejection));
    let value: serde_json::Value = serde_json::from_str(body.as_str()).expect("body parses");
    assert_eq!(value.get("message").and_then(|v| v.as_str()), Some(message));
    let reference = serde_json::to_string(&serde_json::Value::String(String::from(message)))
        .expect("reference encoding");
    assert!(body.contains(reference.trim_matches('"')));
}
