use picbad::auth::{
    authorize_key_rotation, authorize_user_deletion, bearer_token, can_access_image,
    check_deletion_target, check_new_account, distinct_media, hash_password, list_scope, new_api_key, new_id,
    registration_role, require_admin, stats_user_count, requested_role, upload_key, user_is_admin, verify_password,
    ListScope, User,
};
use picbad::refusal::Refusal;

fn user(id: &str, role: &str) -> User {
    User { id: id.to_string(), username: format!("{id}-name"), role: role.to_string(), api_key: "pk_x".to_string() }
}

#[test]
fn new_account_checks() {
    assert_eq!(check_new_account("  alice ", "12345678"), Ok("alice".to_string()));
    assert_eq!(check_new_account("  al  ", "12345678"), Err(Refusal::CredentialsTooShort));
    assert_eq!(check_new_account("alice", "1234567"), Err(Refusal::CredentialsTooShort));
    // Lengths count UTF-8 bytes: two accented letters make four.
    assert_eq!(check_new_account("éé", "password"), Ok("éé".to_string()));
    assert_eq!(Refusal::CredentialsTooShort.status(), 400);
}

#[test]
fn first_account_administers() {
    assert_eq!(registration_role(0), "admin");
    assert_eq!(registration_role(1), "user");
    assert_eq!(registration_role(42), "user");
}

#[test]
fn requested_roles() {
    assert_eq!(requested_role(None), Ok("user".to_string()));
    assert_eq!(requested_role(Some("admin".to_string())), Ok("admin".to_string()));
    assert_eq!(requested_role(Some("user".to_string())), Ok("user".to_string()));
    assert_eq!(requested_role(Some("Admin".to_string())), Err(Refusal::InvalidRole));
    assert_eq!(requested_role(Some("root".to_string())), Err(Refusal::InvalidRole));
}

#[test]
fn administration_rights() {
    let admin = user("a1", "admin");
    let bob = user("b1", "user");
    assert!(user_is_admin(&admin));
    assert!(!user_is_admin(&bob));
    assert_eq!(require_admin(&admin), Ok(()));
    assert_eq!(require_admin(&bob), Err(Refusal::AdminRequired));
    assert_eq!(Refusal::AdminRequired.status(), 403);
    assert_eq!(authorize_key_rotation(&admin, "b1"), Ok(()));
    assert_eq!(authorize_key_rotation(&bob, "b1"), Ok(()));
    assert_eq!(authorize_key_rotation(&bob, "c1"), Err(Refusal::CannotRotateOthersKey));
    assert_eq!(authorize_user_deletion(&bob, "c1"), Err(Refusal::AdminRequired));
    assert_eq!(authorize_user_deletion(&bob, "b1"), Err(Refusal::AdminRequired));
    assert_eq!(authorize_user_deletion(&admin, "a1"), Err(Refusal::CannotDeleteSelf));
    assert_eq!(authorize_user_deletion(&admin, "b1"), Ok(()));
    assert_eq!(check_deletion_target("admin"), Err(Refusal::CannotDeleteAdmin));
    assert_eq!(check_deletion_target("user"), Ok(()));
    assert_eq!(Refusal::CannotDeleteAdmin.message(), "cannot delete another admin account");
}

#[test]
fn media_access() {
    let admin = user("a1", "admin");
    let bob = user("b1", "user");
    assert!(can_access_image(&admin, "b1"));
    assert!(can_access_image(&bob, "b1"));
    assert!(!can_access_image(&bob, "c1"));
}

#[test]
fn bearer_tokens() {
    assert_eq!(bearer_token(Some("Bearer abc ")), Ok("abc".to_string()));
    assert_eq!(bearer_token(Some("Bearer   x  y ")), Ok("x  y".to_string()));
    assert_eq!(bearer_token(Some("bearer abc")), Err(Refusal::MissingBearerToken));
    assert_eq!(bearer_token(Some("Bearer    ")), Err(Refusal::MissingBearerToken));
    assert_eq!(bearer_token(Some("Bearer")), Err(Refusal::MissingBearerToken));
    assert_eq!(bearer_token(None), Err(Refusal::MissingBearerToken));
    assert_eq!(Refusal::MissingBearerToken.status(), 401);
}

#[test]
fn upload_keys() {
    assert_eq!(upload_key(Some(Some(" k1 ")), None), Ok("k1".to_string()));
    assert_eq!(upload_key(Some(Some("k1")), Some(Some("k2"))), Ok("k1".to_string()));
    assert_eq!(upload_key(None, Some(Some("k2"))), Ok("k2".to_string()));
    assert_eq!(upload_key(Some(None), Some(Some("k2"))), Err(Refusal::MissingUploadKey));
    assert_eq!(upload_key(Some(Some("  ")), Some(Some("k2"))), Err(Refusal::MissingUploadKey));
    assert_eq!(upload_key(None, None), Err(Refusal::MissingUploadKey));
    assert_eq!(Refusal::MissingUploadKey.message(), "missing upload api key");
}

#[test]
fn media_of_deleted_account_once_per_hash() {
    let m: Vec<(String, String)> = [("s1", "png"), ("s2", "gif"), ("s1", "jpeg"), ("s3", "mp4"), ("s2", "png")]
        .iter()
        .map(|(a, b)| (a.to_string(), b.to_string()))
        .collect();
    let d = distinct_media(m);
    let expected: Vec<(String, String)> = [("s1", "png"), ("s2", "gif"), ("s3", "mp4")]
        .iter()
        .map(|(a, b)| (a.to_string(), b.to_string()))
        .collect();
    assert_eq!(d, expected);
    assert!(distinct_media(Vec::new()).is_empty());
}

#[test]
fn api_keys_are_fresh() {
    let a = new_api_key();
    let b = new_api_key();
    assert_eq!(a.len(), 35);
    assert!(a.starts_with("pk_"));
    assert!(a[3..].chars().all(|c| c.is_ascii_digit() || ('a'..='f').contains(&c)));
    // The UUID's version digit is 4 and its variant digit one of 8, 9, a, b.
    assert_eq!(a.as_bytes()[15], b'4');
    assert!(matches!(a.as_bytes()[19], b'8' | b'9' | b'a' | b'b'));
    assert_ne!(a, b);
}

#[test]
fn password_hash_round_trip() {
    let h = hash_password("StrongPass123!").ok().expect("hashes");
    assert!(h.starts_with("$argon2id$"));
    assert!(verify_password("StrongPass123!", &h));
    assert!(!verify_password("wrong password", &h));
    assert!(!verify_password("StrongPass123!", "not a phc string"));
    let h2 = hash_password("StrongPass123!").ok().expect("hashes");
    assert_ne!(h, h2);
    // The salt recorded in the PHC string is 16 bytes in 22 Base64 characters.
    let salt = h.split('$').nth(4).expect("salt field");
    assert_eq!(salt.len(), 22);
    assert!(matches!(salt.as_bytes()[21], b'A' | b'Q' | b'g' | b'w'));
    // Any password within the length limit hashes, the empty one included.
    let e = hash_password("").ok().expect("hashes");
    assert!(verify_password("", &e));
    assert!(!verify_password("x", &e));
}

#[test]
fn listing_scope_by_role() {
    match list_scope(&user("a1", "admin")) {
        ListScope::All { limit } => assert_eq!(limit, 500),
        other => panic!("unexpected {other:?}"),
    }
    match list_scope(&user("b1", "user")) {
        ListScope::Owner { owner_id, limit } => assert_eq!((owner_id.as_str(), limit), ("b1", 200)),
        other => panic!("unexpected {other:?}"),
    }
}

#[test]
fn ids_are_hyphenated_v4_uuids() {
    let a = new_id();
    let b = new_id();
    assert_eq!(a.len(), 36);
    for (i, c) in a.chars().enumerate() {
        if [8, 13, 18, 23].contains(&i) {
            assert_eq!(c, '-');
        } else {
            assert!(c.is_ascii_digit() || ('a'..='f').contains(&c));
        }
    }
    assert_eq!(a.as_bytes()[14], b'4');
    assert!(matches!(a.as_bytes()[19], b'8' | b'9' | b'a' | b'b'));
    assert_ne!(a, b);
}

#[test]
fn statistics_count_users_for_admins_only() {
    assert_eq!(stats_user_count(&user("a1", "admin"), 7), 7);
    assert_eq!(stats_user_count(&user("u1", "user"), 7), 1);
    assert_eq!(stats_user_count(&user("u2", "user"), 0), 1);
}
