use base64::Engine;
use hookbuffer::ingress::{
    check_auth, check_decoded_credentials, check_user_agent, AuthorizationHeader, IngressError,
};

fn basic(credentials: &str) -> AuthorizationHeader {
    let encoded = base64::engine::general_purpose::STANDARD.encode(credentials);
    AuthorizationHeader::Text(format!("Basic {}", encoded))
}

#[test]
fn matching_credentials_pass() {
    assert!(check_auth("admin", "s3cret", basic("admin:s3cret")) == Ok(()));
}

#[test]
fn password_may_hold_colons() {
    assert!(check_auth("admin", "a:b", basic("admin:a:b")) == Ok(()));
}

#[test]
fn wrong_credentials_mismatch() {
    assert!(check_auth("admin", "s3cret", basic("admin:nope")) == Err(IngressError::AuthMismatch));
    assert!(check_auth("admin", "s3cret", basic("root:s3cret")) == Err(IngressError::AuthMismatch));
    assert!(check_auth("admin", "", basic("admin")) == Ok(()));
    assert!(check_auth("admin", "x", basic("admin")) == Err(IngressError::AuthMismatch));
    assert_eq!(IngressError::AuthMismatch.status(), 401);
}

#[test]
fn missing_header_is_unauthorized() {
    assert!(check_auth("admin", "s3cret", AuthorizationHeader::Missing) == Err(IngressError::AuthMissing));
    assert_eq!(IngressError::AuthMissing.status(), 401);
}

#[test]
fn malformed_headers_are_bad_format() {
    assert!(
        check_auth("admin", "s3cret", AuthorizationHeader::Unreadable) == Err(IngressError::AuthBadFormat)
    );
    assert!(
        check_auth("admin", "s3cret", AuthorizationHeader::Text("Bearer abc".to_string()))
            == Err(IngressError::AuthBadFormat)
    );
    assert!(
        check_auth("admin", "s3cret", AuthorizationHeader::Text("Basic !!!".to_string()))
            == Err(IngressError::AuthBadFormat)
    );
    // "/w==" decodes to the single byte 0xFF, which is not UTF-8
    assert!(
        check_auth("admin", "s3cret", AuthorizationHeader::Text("Basic /w==".to_string()))
            == Err(IngressError::AuthBadFormat)
    );
    assert_eq!(IngressError::AuthBadFormat.status(), 400);
}

#[test]
fn decoded_credentials_are_split_at_the_first_colon() {
    assert!(check_decoded_credentials(Some(b"u:p".to_vec()), "u", "p") == Ok(()));
    assert!(check_decoded_credentials(Some(b"u:p".to_vec()), "u:p", "") == Err(IngressError::AuthMismatch));
    assert!(check_decoded_credentials(None, "u", "p") == Err(IngressError::AuthBadFormat));
    assert!(check_decoded_credentials(Some(vec![0xC3]), "u", "p") == Err(IngressError::AuthBadFormat));
}

#[test]
fn user_agent_must_name_the_producer() {
    assert!(check_user_agent(Some("Sonarr/4.0.1")) == Ok(()));
    assert!(check_user_agent(Some("Radarr/5.0")) == Err(IngressError::BadUserAgent));
    assert!(check_user_agent(Some("Sonarr")) == Err(IngressError::BadUserAgent));
    assert!(check_user_agent(None) == Err(IngressError::BadUserAgent));
}
