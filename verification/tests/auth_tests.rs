use rustray::security::auth::{get_default_permissions, AuthManager, JwtClaims, Permission, UserRole};

fn create_test_auth_manager() -> AuthManager {
    AuthManager::new("test_secret".to_string(), 3600, 5, 300)
}

#[test]
fn test_user_registration() {
    let mut auth = create_test_auth_manager();
    let result = auth.register_user("test_user".to_string(), "password123".to_string(), UserRole::User);
    assert!(result.is_ok());
    let user = result.unwrap();
    assert_eq!(user.username, "test_user");
    assert_eq!(user.role, UserRole::User);
}

#[test]
fn test_user_login() {
    let mut auth = create_test_auth_manager();
    let _user = auth
        .register_user("test_user".to_string(), "password123".to_string(), UserRole::User)
        .unwrap();
    let result = auth.login("test_user", "password123", "127.0.0.1".to_string(), "test_agent".to_string());
    assert!(result.is_ok());
    let (session_id, token) = result.unwrap();
    assert!(!session_id.is_empty());
    assert!(!token.is_empty());
}

#[test]
fn test_permission_check() {
    let mut auth = create_test_auth_manager();
    let admin = auth.register_user("admin".to_string(), "admin123".to_string(), UserRole::Admin).unwrap();
    let result = auth.check_permission(&admin.id, &Permission::Manage);
    assert!(result.is_ok());
    assert!(result.unwrap());
}

#[test]
fn test_token_verification() {
    let mut auth = create_test_auth_manager();
    let user = auth
        .register_user("test_user".to_string(), "password123".to_string(), UserRole::User)
        .unwrap();
    let (_, token) = auth
        .login("test_user", "password123", "127.0.0.1".to_string(), "test_agent".to_string())
        .unwrap();
    let result = auth.verify_token(&token);
    assert!(result.is_ok());
    let verified_user = result.unwrap();
    assert_eq!(verified_user.id, user.id);
}

#[test]
fn duplicate_username_is_refused() {
    let mut auth = create_test_auth_manager();
    auth.register_user("alice".to_string(), "pw".to_string(), UserRole::Guest).unwrap();
    let again = auth.register_user("alice".to_string(), "other".to_string(), UserRole::Admin);
    assert_eq!(again.unwrap_err(), "Username already exists");
}

#[test]
fn login_errors() {
    let mut auth = create_test_auth_manager();
    auth.register_user("bob".to_string(), "secret".to_string(), UserRole::User).unwrap();
    assert_eq!(
        auth.login("nobody", "secret", "ip".to_string(), "ua".to_string()).unwrap_err(),
        "User not found"
    );
    assert_eq!(
        auth.login("bob", "wrong", "ip".to_string(), "ua".to_string()).unwrap_err(),
        "Invalid password"
    );
}

#[test]
fn registered_password_is_accepted_at_login() {
    let mut auth = create_test_auth_manager();
    auth.register_user("carol".to_string(), "Carol-Pass-1".to_string(), UserRole::Guest).unwrap();
    assert!(auth.login("carol", "Carol-Pass-1", "ip".to_string(), "ua".to_string()).is_ok());
}

#[test]
fn role_permissions() {
    assert_eq!(
        get_default_permissions(&UserRole::Admin),
        vec![Permission::Read, Permission::Write, Permission::Execute, Permission::Manage]
    );
    assert_eq!(
        get_default_permissions(&UserRole::User),
        vec![Permission::Read, Permission::Write, Permission::Execute]
    );
    assert_eq!(get_default_permissions(&UserRole::Guest), vec![Permission::Read]);
}

#[test]
fn guest_may_only_read() {
    let mut auth = create_test_auth_manager();
    let guest = auth.register_user("g".to_string(), "pw".to_string(), UserRole::Guest).unwrap();
    assert_eq!(auth.check_permission(&guest.id, &Permission::Read), Ok(true));
    assert_eq!(auth.check_permission(&guest.id, &Permission::Write), Ok(false));
    assert_eq!(auth.check_permission(&guest.id, &Permission::Manage), Ok(false));
    assert_eq!(auth.check_permission("missing", &Permission::Read), Err("User not found".to_string()));
}

#[test]
fn logout_ends_the_session() {
    let mut auth = create_test_auth_manager();
    auth.register_user("dave".to_string(), "pw".to_string(), UserRole::User).unwrap();
    let (sid, _) = auth.login("dave", "pw", "ip".to_string(), "ua".to_string()).unwrap();
    let _ = auth.take_audit_logs();
    assert!(auth.logout(&sid).is_ok());
    let logs = auth.take_audit_logs();
    assert_eq!(logs.len(), 1);
    assert_eq!(logs[0].event_type, "logout");
    // A second logout finds no session and records nothing.
    assert!(auth.logout(&sid).is_ok());
    assert!(auth.take_audit_logs().is_empty());
}

#[test]
fn bad_token_is_refused() {
    let auth = create_test_auth_manager();
    assert!(auth.verify_token("not-a-token").is_err());
}

#[test]
fn audit_records_follow_events() {
    let mut auth = create_test_auth_manager();
    let u = auth.register_user("erin".to_string(), "pw".to_string(), UserRole::User).unwrap();
    let _ = auth.login("erin", "bad", "ip".to_string(), "ua".to_string());
    let logs = auth.take_audit_logs();
    assert_eq!(logs.len(), 2);
    assert_eq!(logs[0].event_type, "user_registration");
    assert_eq!(logs[0].user_id, u.id);
    assert_eq!(logs[1].event_type, "login_failed");
    assert_eq!(logs[1].status, "failed");
    assert!(auth.take_audit_logs().is_empty());
}

fn claims(sub: Option<&str>, exp: Option<u64>, iat: Option<u64>, role: Option<&str>) -> JwtClaims {
    JwtClaims {
        sub: sub.map(|s| s.to_string()),
        exp,
        iat,
        role: role.map(|s| s.to_string()),
    }
}

#[test]
fn decoded_subject_outcomes() {
    let mut auth = create_test_auth_manager();
    let u = auth.register_user("frank".to_string(), "pw".to_string(), UserRole::User).unwrap();
    assert_eq!(auth.user_for_subject(Err("bad signature".to_string())).unwrap_err(), "Invalid token: bad signature");
    assert_eq!(
        auth.user_for_subject(Ok(claims(None, Some(9), Some(1), Some("User")))).unwrap_err(),
        "Invalid token: malformed claims"
    );
    assert_eq!(
        auth.user_for_subject(Ok(claims(Some(&u.id), Some(9), None, Some("User")))).unwrap_err(),
        "Invalid token: malformed claims"
    );
    assert_eq!(
        auth.user_for_subject(Ok(claims(Some(&u.id), Some(9), Some(1), Some("Owner")))).unwrap_err(),
        "Invalid token: malformed claims"
    );
    assert_eq!(
        auth.user_for_subject(Ok(claims(Some("nobody"), Some(9), Some(1), Some("Guest")))).unwrap_err(),
        "User not found"
    );
    let found = auth.user_for_subject(Ok(claims(Some(&u.id), Some(9), Some(1), Some("Admin")))).unwrap();
    assert_eq!(found.username, "frank");
    assert_eq!(found.id, u.id);
}

#[test]
fn auth_counters_follow_events() {
    let mut auth = create_test_auth_manager();
    auth.register_user("fay".to_string(), "pw".to_string(), UserRole::User).unwrap();
    let _ = auth.register_user("fay".to_string(), "pw".to_string(), UserRole::User);
    let _ = auth.login("fay", "bad", "ip".to_string(), "ua".to_string());
    let _ = auth.login("nobody", "pw", "ip".to_string(), "ua".to_string());
    let (sid, _) = auth.login("fay", "pw", "ip".to_string(), "ua".to_string()).unwrap();
    auth.logout(&sid).unwrap();
    auth.logout(&sid).unwrap();
    let m = auth.metrics();
    assert_eq!(m.get_counter("auth.users.registered").unwrap(), 1);
    assert_eq!(m.get_counter("auth.login.failed").unwrap(), 1);
    assert_eq!(m.get_counter("auth.login.success").unwrap(), 1);
    assert_eq!(m.get_counter("auth.logout").unwrap(), 1);
}

#[test]
fn verify_token_hands_over_token_and_secret() {
    let mut auth = create_test_auth_manager();
    let u = auth.register_user("gus".to_string(), "pw".to_string(), UserRole::Guest).unwrap();
    let id = u.id.clone();
    let found = auth
        .verify_token_with("tok", |t: &str, k: &str| {
            if t == "tok" && k == "test_secret" {
                Ok(claims(Some(&id), Some(9), Some(1), Some("Guest")))
            } else {
                Err("wrong input".to_string())
            }
        })
        .unwrap();
    assert_eq!(found.id, u.id);
    let refused = auth.verify_token_with("tok", |_t: &str, _k: &str| Err("expired".to_string()));
    assert_eq!(refused.unwrap_err(), "Invalid token: expired");
}

fn base64url_decode(s: &str) -> Vec<u8> {
    let alphabet = b"ABCDEFGHIJKLMNOPQRSTUVWXYZabcdefghijklmnopqrstuvwxyz0123456789-_";
    let mut bits: u32 = 0;
    let mut count = 0;
    let mut out = Vec::new();
    for ch in s.bytes() {
        let v = alphabet.iter().position(|&a| a == ch).unwrap() as u32;
        bits = (bits << 6) | v;
        count += 6;
        if count >= 8 {
            count -= 8;
            out.push(((bits >> count) & 0xff) as u8);
        }
    }
    out
}

#[test]
fn token_payload_lists_claims_in_order() {
    let mut auth = create_test_auth_manager();
    let u = auth.register_user("hal".to_string(), "pw".to_string(), UserRole::Admin).unwrap();
    let (_, token) = auth.login("hal", "pw", "ip".to_string(), "ua".to_string()).unwrap();
    let parts: Vec<&str> = token.split('.').collect();
    assert_eq!(parts.len(), 3);
    let payload = String::from_utf8(base64url_decode(parts[1])).unwrap();
    let expected_start = format!("{{\"sub\":\"{}\",\"exp\":", u.id);
    assert!(payload.starts_with(&expected_start), "{}", payload);
    assert!(payload.contains(",\"iat\":"));
    assert!(payload.ends_with(",\"role\":\"Admin\"}"));
}

#[test]
fn decode_token_reads_issued_claims() {
    let mut auth = create_test_auth_manager();
    let u = auth.register_user("ivy".to_string(), "pw".to_string(), UserRole::User).unwrap();
    let (_, token) = auth.login("ivy", "pw", "ip".to_string(), "ua".to_string()).unwrap();
    let c = rustray::security::auth::decode_token(&token, "test_secret").unwrap();
    assert_eq!(c.sub.as_deref(), Some(u.id.as_str()));
    assert_eq!(c.role.as_deref(), Some("User"));
    assert_eq!(c.exp.unwrap(), c.iat.unwrap() + 3600);
    assert!(rustray::security::auth::decode_token(&token, "other_secret").is_err());
    assert!(rustray::security::auth::decode_token("not-a-token", "test_secret").is_err());
}
