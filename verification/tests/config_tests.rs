use nodelite::config::{
    check_decoded_totp_secret, check_parsed_url, clean_totp_secret, normalize_tags,
    normalize_totp_secret, pick_decoded_secret, secret_from_query_pairs, secret_query_source, validate_sha256, validate_totp_secret,
    validate_url, ConfigError, UrlParts, MAX_NODE_TAGS,
};

fn strings(values: &[&str]) -> Vec<String> {
    values.iter().map(|v| v.to_string()).collect()
}

#[test]
fn url_with_allowed_scheme_passes() {
    assert!(validate_url("server.url", "https://monitor.example.com", &["http", "https"]).is_ok());
    assert!(validate_url("server.url", "wss://monitor.example.com/ws", &["ws", "wss"]).is_ok());
}

#[test]
fn url_with_other_scheme_is_refused() {
    let err = validate_url("server.url", "ftp://monitor.example.com", &["http", "https"]).unwrap_err();
    assert_eq!(err.message(), "server.url must use one of these schemes: http, https");
}

#[test]
fn url_that_does_not_parse_is_refused_with_the_parser_message() {
    let err = validate_url("server.url", "not a url", &["http"]).unwrap_err();
    assert_eq!(err.message(), "invalid server.url: relative URL without a base");
}

#[test]
fn parsed_url_check_on_given_outcomes() {
    let ok = UrlParts { scheme: "http".to_string(), query: None };
    assert!(check_parsed_url("u", Ok(ok), &["http"]).is_ok());
    let other = UrlParts { scheme: "gopher".to_string(), query: Some("a=b".to_string()) };
    assert_eq!(
        check_parsed_url("u", Ok(other), &["http", "https", "ws"]).unwrap_err().message(),
        "u must use one of these schemes: http, https, ws"
    );
    assert_eq!(
        check_parsed_url("u", Err("boom".to_string()), &["http"]).unwrap_err().message(),
        "invalid u: boom"
    );
    let none = UrlParts { scheme: "http".to_string(), query: None };
    assert_eq!(
        check_parsed_url("u", Ok(none), &[]).unwrap_err().message(),
        "u must use one of these schemes: "
    );
}

#[test]
fn tags_are_normalized_then_limited() {
    let tags = normalize_tags("node.tags", strings(&[" edge", "apac", "edge "])).unwrap();
    assert_eq!(tags, strings(&["apac", "edge"]));

    let many: Vec<String> = (0..MAX_NODE_TAGS + 1).map(|i| format!("t{i}")).collect();
    let err = normalize_tags("node.tags", many).unwrap_err();
    assert_eq!(err.message(), format!("node.tags must contain at most {MAX_NODE_TAGS} tags"));

    // Repeats collapse before the count is checked.
    let repeats: Vec<String> = (0..MAX_NODE_TAGS + 5).map(|_| "same".to_string()).collect();
    assert_eq!(normalize_tags("node.tags", repeats).unwrap(), strings(&["same"]));
}

#[test]
fn sha256_digest_checks() {
    let good = "0123456789abcdef0123456789abcdef0123456789ABCDEF0123456789abcdef";
    assert!(validate_sha256("sha", good).is_ok());
    assert_eq!(validate_sha256("sha", " ").unwrap_err().message(), "sha must not be empty");
    let msg = "sha must be a 64-character hexadecimal SHA-256 digest";
    assert_eq!(validate_sha256("sha", &good[..63]).unwrap_err().message(), msg);
    assert_eq!(validate_sha256("sha", &format!("{good}0")).unwrap_err().message(), msg);
    let not_hex = format!("g{}", &good[1..]);
    assert_eq!(validate_sha256("sha", &not_hex).unwrap_err().message(), msg);
}

#[test]
fn totp_secret_forms_normalize_alike() {
    assert_eq!(normalize_totp_secret("JBSWY3DPEHPK3PXP"), "JBSWY3DPEHPK3PXP");
    assert_eq!(normalize_totp_secret("  jbsw y3dp-ehpk\t3pxp "), "JBSWY3DPEHPK3PXP");
    assert_eq!(
        normalize_totp_secret("otpauth://totp/XiMonitor:viewer?secret=jbswy3dpehpk3pxp&issuer=XiMonitor"),
        "JBSWY3DPEHPK3PXP"
    );
    assert_eq!(normalize_totp_secret("OTPAUTH://totp/x?SECRET=abc"), "ABC");
    assert_eq!(normalize_totp_secret("?secret=jbsw-y3dp&digits=6"), "JBSWY3DP");
    assert_eq!(normalize_totp_secret("issuer=x&secret=%20&secret=abcd"), "ABCD");
}

#[test]
fn totp_without_secret_in_url_is_kept_as_typed() {
    // An otpauth URL without a secret yields nothing; the trimmed input is cleaned.
    assert_eq!(normalize_totp_secret("otpauth://totp/x?issuer=a"), "OTPAUTH://TOTP/X?ISSUER=A");
    // A query piece whose secret is blank is cleaned as typed.
    assert_eq!(normalize_totp_secret("secret= "), "SECRET=");
}

#[test]
fn clean_secret_drops_ascii_whitespace_and_hyphens() {
    assert_eq!(clean_totp_secret("ab-cd ef\n"), "ABCDEF");
    assert_eq!(clean_totp_secret("\u{a0}x"), "\u{a0}X");
    assert_eq!(clean_totp_secret(""), "");
}

#[test]
fn first_named_secret_wins() {
    let pairs = vec![
        ("issuer".to_string(), "x".to_string()),
        ("Secret".to_string(), "  ".to_string()),
        ("SECRET".to_string(), "first".to_string()),
        ("secret".to_string(), "second".to_string()),
    ];
    assert_eq!(secret_from_query_pairs(&pairs), Some("first".to_string()));
    assert_eq!(secret_from_query_pairs(&Vec::new()), None);
}

#[test]
fn totp_secret_validation() {
    assert!(validate_totp_secret("totp", "JBSWY3DPEHPK3PXP").is_ok());
    assert!(validate_totp_secret("totp", "jbsw y3dp ehpk 3pxp").is_ok());
    assert!(validate_totp_secret("totp", "otpauth://totp/a?secret=JBSWY3DPEHPK3PXP").is_ok());
    assert_eq!(validate_totp_secret("totp", "  ").unwrap_err().message(), "totp must not be empty");
    assert_eq!(
        validate_totp_secret("totp", "JBSWY3DP").unwrap_err().message(),
        "totp must decode to at least 10 bytes"
    );
    // Twelve Base32 characters decode to seven bytes, too few.
    assert_eq!(
        validate_totp_secret("totp", "JBSWY3DPEHPK").unwrap_err().message(),
        "totp must decode to at least 10 bytes"
    );
    assert_eq!(
        validate_totp_secret("totp", "!!!!").unwrap_err().message(),
        "totp must be a valid RFC4648 base32 TOTP secret"
    );
}

#[test]
fn decoded_secret_check_on_given_outcomes() {
    assert!(check_decoded_totp_secret("t", Some(vec![0; 10])).is_ok());
    assert_eq!(
        check_decoded_totp_secret("t", Some(vec![0; 9])).unwrap_err().message(),
        "t must decode to at least 10 bytes"
    );
    assert_eq!(
        check_decoded_totp_secret("t", None).unwrap_err().message(),
        "t must be a valid RFC4648 base32 TOTP secret"
    );
}

#[test]
fn config_error_keeps_message() {
    assert_eq!(ConfigError::new("x".to_string()).message(), "x");
}

#[test]
fn secret_source_on_given_parse_outcomes() {
    let otp = UrlParts { scheme: "otpauth".to_string(), query: Some("secret=abc".to_string()) };
    assert_eq!(secret_query_source("otpauth://totp/x?secret=abc", Ok(otp)), Some("secret=abc".to_string()));
    let no_query = UrlParts { scheme: "otpauth".to_string(), query: None };
    assert_eq!(secret_query_source("otpauth://totp/x", Ok(no_query)), Some(String::new()));
    let http = UrlParts { scheme: "https".to_string(), query: Some("secret=abc".to_string()) };
    assert_eq!(secret_query_source("https://x/?secret=abc", Ok(http)), Some("https://x/?secret=abc".to_string()));
    assert_eq!(
        secret_query_source("??secret=abc", Err("relative URL without a base".to_string())),
        Some("secret=abc".to_string())
    );
    assert_eq!(secret_query_source("JBSWY3DP", Err("relative URL without a base".to_string())), None);
}

#[test]
fn unpadded_decoding_is_preferred() {
    assert_eq!(pick_decoded_secret(Some(vec![1]), Some(vec![2])), Some(vec![1]));
    assert_eq!(pick_decoded_secret(None, Some(vec![2])), Some(vec![2]));
    assert_eq!(pick_decoded_secret(None, None), None);
    // Padded input only decodes with the padding alphabet.
    assert!(validate_totp_secret("totp", "JBSWY3DPEHPK3PXPJBSWY===").is_ok());
}
