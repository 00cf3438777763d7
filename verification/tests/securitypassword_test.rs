use zenth_utils::utils::security::securitypassword::{CharClass, SecurityPassword};

const GOOD: &str = "Xq7!Rm2#Tz9$wPkLs?vB";

fn msg(r: Result<(), String>) -> String {
    r.unwrap_err()
}

#[test]
fn validate_accepts_strong_password() {
    assert_eq!(SecurityPassword::validate(GOOD), Ok(()));
}

#[test]
fn validate_refuses_short_password() {
    assert_eq!(
        msg(SecurityPassword::validate("Xq7!Rm2#Tz")),
        "Le mot de passe doit contenir au moins 20 caractères."
    );
}

#[test]
fn validate_refuses_each_missing_class() {
    assert_eq!(
        msg(SecurityPassword::validate("xq7!rm2#tz9$wpkls?vbA")),
        "Le mot de passe doit contenir au moins 3 majuscules."
    );
    assert_eq!(
        msg(SecurityPassword::validate("XQ7!RM2#TZ9$WPKLS?VBa")),
        "Le mot de passe doit contenir au moins 3 minuscules."
    );
    assert_eq!(
        msg(SecurityPassword::validate("Xqe!Rmw#Tzr$wPkLs?v7")),
        "Le mot de passe doit contenir au moins 3 chiffres."
    );
    assert_eq!(
        msg(SecurityPassword::validate("Xq7kRm2hTz9jwPkLsyvB!")),
        "Le mot de passe doit contenir au moins 3 caractères spéciaux."
    );
}

#[test]
fn validate_refuses_three_identical_in_a_row() {
    assert_eq!(
        msg(SecurityPassword::validate("Xq7!Rm2#Tz9$wPkLLLs?vB")),
        "Le mot de passe ne doit pas contenir plus de 2 caractères identiques consécutifs."
    );
    assert!(!SecurityPassword::no_more_than_two_consecutive("aaa"));
    assert!(!SecurityPassword::no_more_than_two_consecutive("\0\0\0"));
    assert!(SecurityPassword::no_more_than_two_consecutive("aabbaa"));
    assert!(SecurityPassword::no_more_than_two_consecutive(""));
}

#[test]
fn validate_refuses_simple_sequences() {
    let expected = "Le mot de passe ne doit pas contenir de séquences simples comme abcd, 1234, dcba.";
    assert_eq!(msg(SecurityPassword::validate("Xq7!Rm2#Tz9$wPkLs?vBcDe")), expected);
    assert_eq!(msg(SecurityPassword::validate("Xq7!Rm2#Tz9$wPkLs?v4321")), expected);
    assert_eq!(msg(SecurityPassword::validate("Xq7!Rm2#Tz9$wPkLs?v:;|}")), expected);
}

#[test]
fn simple_sequences_are_found_in_any_case_and_direction() {
    // Lower-casing turns "aBcD" into "abcd".
    assert!(!SecurityPassword::no_simple_sequences("xaBcDx"));
    assert!(!SecurityPassword::no_simple_sequences("zyxw"));
    assert!(!SecurityPassword::no_simple_sequences("6789"));
    assert!(!SecurityPassword::no_simple_sequences("--^%$#"));
    assert!(SecurityPassword::no_simple_sequences("abdc1243"));
    assert!(SecurityPassword::no_simple_sequences("xyz"));
}

#[test]
fn class_counts() {
    assert!(SecurityPassword::has_min_count("ÉÀÇ", CharClass::Uppercase, 3));
    assert!(!SecurityPassword::has_min_count("ÉÀç", CharClass::Uppercase, 3));
    assert!(SecurityPassword::has_min_count("éàç", CharClass::Lowercase, 3));
    assert!(SecurityPassword::has_min_count("a1b2c3", CharClass::Digit, 3));
    assert!(!SecurityPassword::has_min_count("a1b2c", CharClass::Digit, 3));
    assert!(SecurityPassword::has_min_count("é !", CharClass::Special, 3));
    assert!(SecurityPassword::has_min_count("", CharClass::Special, 0));
    assert!(SecurityPassword::is_special('_'));
    assert!(!SecurityPassword::is_special('Z'));
}

#[test]
fn username_bounds() {
    assert_eq!(
        msg(SecurityPassword::check_username("")),
        "Le nom d'utilisateur ne peut pas être vide."
    );
    assert_eq!(
        msg(SecurityPassword::check_username("a")),
        "Le nom d'utilisateur doit contenir au moins 2 caractères."
    );
    assert_eq!(SecurityPassword::check_username("ab"), Ok(()));
    assert_eq!(SecurityPassword::check_username("é"), Err("Le nom d'utilisateur doit contenir au moins 2 caractères.".to_string()));
    assert_eq!(SecurityPassword::check_username(&"x".repeat(40)), Ok(()));
    assert_eq!(
        msg(SecurityPassword::check_username(&"x".repeat(41))),
        "Le nom d'utilisateur ne doit pas dépasser 40 caractères."
    );
}

#[test]
fn key_bounds() {
    assert_eq!(msg(SecurityPassword::check_key("")), "La clé ne peut pas être vide.");
    assert_eq!(
        msg(SecurityPassword::check_key(&"k".repeat(19989))),
        "La clé doit contenir au moins 19990 caractères."
    );
    assert_eq!(SecurityPassword::check_key(&"k".repeat(19990)), Ok(()));
    assert_eq!(SecurityPassword::check_key(&"k".repeat(40000)), Ok(()));
    assert_eq!(
        msg(SecurityPassword::check_key(&"k".repeat(40001))),
        "La clé ne doit pas dépasser 40000 caractères."
    );
}

#[test]
fn register_checks_in_order() {
    let key = "k".repeat(20000);
    assert_eq!(SecurityPassword::check_register_params(GOOD, "alice", &key), Ok(()));
    assert_eq!(
        msg(SecurityPassword::check_register_params("short", "", "")),
        "Le mot de passe doit contenir au moins 20 caractères."
    );
    assert_eq!(
        msg(SecurityPassword::check_register_params(GOOD, "", "")),
        "Le nom d'utilisateur ne peut pas être vide."
    );
    assert_eq!(
        msg(SecurityPassword::check_register_params(GOOD, "alice", "")),
        "La clé ne peut pas être vide."
    );
    assert_eq!(SecurityPassword::check_register_params_no_key(GOOD, "alice"), Ok(()));
    assert_eq!(
        msg(SecurityPassword::check_register_params_no_key(GOOD, "a")),
        "Le nom d'utilisateur doit contenir au moins 2 caractères."
    );
}
