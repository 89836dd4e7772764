use tyche::jwk::{assemble_jwk_keys, get_config, parse_max_age_value, select_key, validate_header,
    JwkKey, JwkKeys, PublicKeysError, VerificationError};

fn key(kid: &str) -> JwkKey {
    JwkKey {
        e: "AQAB".to_string(),
        alg: "RS256".to_string(),
        kty: "RSA".to_string(),
        kid: kid.to_string(),
        n: "modulus".to_string(),
    }
}

#[test]
fn reads_a_plain_max_age() {
    assert_eq!(parse_max_age_value("public, max-age=19456, must-revalidate"), Ok(19456));
    assert_eq!(parse_max_age_value("max-age=0"), Ok(0));
}

#[test]
fn max_age_key_is_case_insensitive_and_trimmed() {
    assert_eq!(parse_max_age_value("public,  Max-Age = 3600 "), Ok(3600));
    assert_eq!(parse_max_age_value("MAX-AGE=7"), Ok(7));
}

#[test]
fn missing_max_age_is_its_own_error() {
    assert_eq!(
        parse_max_age_value("public, no-store"),
        Err(PublicKeysError::NoMaxAgeSpecified)
    );
    assert_eq!(parse_max_age_value(""), Err(PublicKeysError::NoMaxAgeSpecified));
}

#[test]
fn non_numeric_max_age_is_its_own_error() {
    assert_eq!(
        parse_max_age_value("max-age=soon"),
        Err(PublicKeysError::NonNumericMaxAge)
    );
    assert_eq!(parse_max_age_value("max-age="), Err(PublicKeysError::NonNumericMaxAge));
    // A value past the representable range is no number either.
    assert_eq!(
        parse_max_age_value("max-age=99999999999999999999999"),
        Err(PublicKeysError::NonNumericMaxAge)
    );
}

#[test]
fn first_max_age_directive_wins() {
    assert_eq!(parse_max_age_value("max-age=10, max-age=20"), Ok(10));
}

#[test]
fn a_leading_plus_sign_is_a_number() {
    assert_eq!(parse_max_age_value("max-age=+5"), Ok(5));
}

#[test]
fn config_names_issuer_and_audience() {
    let c = get_config();
    assert_eq!(c.audience, "tyche-vtt");
    assert_eq!(c.issuer, "https://securetoken.google.com/tyche-vtt");
    assert!(c.jwk_url.starts_with("https://www.googleapis.com/"));
}

#[test]
fn selects_the_key_a_credential_names() {
    let keys = JwkKeys { keys: vec![key("alpha"), key("beta")], max_age_secs: 60 };
    let found = select_key(&keys, &"beta".to_string()).expect("beta is published");
    assert_eq!(found.kid, "beta");
    assert!(select_key(&keys, &"gamma".to_string()).is_none());
}

#[test]
fn unreadable_max_age_falls_back_to_a_minute() {
    let keys = assemble_jwk_keys(vec![key("a")], "no-store");
    assert_eq!(keys.max_age_secs, 60);
    let fresh = assemble_jwk_keys(Vec::new(), "max-age=90");
    assert_eq!(fresh.max_age_secs, 90);
}

#[test]
fn header_validation_reports_each_failure() {
    assert_eq!(
        validate_header(false, Some("kid".to_string())),
        Err(VerificationError::UnkownKeyAlgorithm)
    );
    assert_eq!(validate_header(true, None), Err(VerificationError::NoKidHeader));
    assert_eq!(validate_header(true, Some("kid".to_string())), Ok("kid".to_string()));
}
