use hmac::{Hmac, Mac};
use zero2prod::login::{
    error_tag, login_decision, AuthOutcome, HmacSecret, LoginError, QueryParam, VerifyError,
};
use zero2prod::pages::{dashboard_html, error_fragment, login_form};
use zero2prod::ApplicationBaseUrl;

#[test]
fn error_tag_matches_a_directly_computed_hmac() {
    let secret = HmacSecret("super-secret".to_string());
    let message = "Authentication failed & more";
    let query_string = format!("error={}", urlencoding::encode(message));
    let mut mac = Hmac::<sha2::Sha256>::new_from_slice(b"super-secret").unwrap();
    mac.update(query_string.as_bytes());
    let expected = hex::encode(mac.finalize().into_bytes());
    assert_eq!(error_tag(&secret, message), expected);
}

#[test]
fn verify_accepts_a_properly_signed_query() {
    let secret = HmacSecret("super-secret".to_string());
    let message = "Authentication failed";
    let tag = error_tag(&secret, message);
    let query = QueryParam::new(message.to_string(), tag);
    assert_eq!(query.verify(&secret).unwrap(), message);
}

#[test]
fn verify_rejects_a_tampered_message() {
    let secret = HmacSecret("super-secret".to_string());
    let tag = error_tag(&secret, "original message");
    let query = QueryParam::new("forged message".to_string(), tag);
    assert!(matches!(query.verify(&secret), Err(VerifyError::TagMismatch)));
}

#[test]
fn verify_rejects_a_wrong_secret() {
    let secret = HmacSecret("super-secret".to_string());
    let other = HmacSecret("other-secret".to_string());
    let tag = error_tag(&secret, "message");
    let query = QueryParam::new("message".to_string(), tag);
    assert!(matches!(query.verify(&other), Err(VerifyError::TagMismatch)));
}

#[test]
fn verify_rejects_malformed_hex() {
    let secret = HmacSecret("super-secret".to_string());
    let odd = QueryParam::new("m".to_string(), "abc".to_string());
    assert!(matches!(odd.verify(&secret), Err(VerifyError::InvalidTagEncoding)));
    let not_hex = QueryParam::new("m".to_string(), "zz".to_string());
    assert!(matches!(not_hex.verify(&secret), Err(VerifyError::InvalidTagEncoding)));
}

#[test]
fn error_fragment_escapes_html() {
    assert_eq!(
        error_fragment("<script>\"&'</script>"),
        "<p><i>&lt;script&gt;&quot;&amp;&#x27;&lt;/script&gt;</i></p>"
    );
}

#[test]
fn login_form_shows_a_verified_error_and_hides_a_forged_one() {
    let secret = HmacSecret("super-secret".to_string());
    let tag = error_tag(&secret, "Authentication failed");
    let query = QueryParam::new("Authentication failed".to_string(), tag);
    let page = login_form(&secret, Some(query));
    assert!(page.contains("<p><i>Authentication failed</i></p>"));

    let forged = QueryParam::new("Authentication failed".to_string(), "00ff".to_string());
    let page = login_form(&secret, Some(forged));
    assert!(!page.contains("Authentication failed"));
    assert!(page.contains("<form action=\"/login\" method=\"post\""));

    let page = login_form(&secret, None);
    assert!(!page.contains("<p><i>"));
}

#[test]
fn dashboard_greets_the_user() {
    let page = dashboard_html("ursula");
    assert!(page.contains("<p>Welcome ursula!</p>"));
    assert!(page.contains("<title>Admin dashboard</title>"));
}

#[test]
fn login_decision_redirects() {
    let ok = login_decision(AuthOutcome::Authenticated(42));
    assert_eq!(ok.status, 303);
    assert_eq!(ok.location, "/");
    assert!(ok.flash_error.is_none());

    let bad = login_decision(AuthOutcome::InvalidCredentials("no such user".to_string()));
    assert_eq!(bad.status, 303);
    assert_eq!(bad.location, "/login");
    assert_eq!(bad.flash_error.unwrap(), "Authentication failed");

    let ugly = login_decision(AuthOutcome::UnexpectedFailure("pool closed".to_string()));
    assert_eq!(ugly.status, 303);
    assert_eq!(ugly.location, "/login");
    assert_eq!(ugly.flash_error.unwrap(), "Something went wrong");
}

#[test]
fn login_error_describes_itself() {
    let auth = LoginError::AuthError("bad password".to_string());
    assert_eq!(auth.status_code(), 303);
    assert_eq!(auth.message(), "Authentication failed");
    let other = LoginError::UnexpectedError("pool closed".to_string());
    assert_eq!(other.status_code(), 303);
    assert_eq!(other.message(), "Something went wrong");
}

#[test]
fn base_url_is_kept() {
    let base = ApplicationBaseUrl("http://127.0.0.1:8000".to_string());
    assert_eq!(base.0, "http://127.0.0.1:8000");
}
