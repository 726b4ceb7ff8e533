use hmac::{Hmac, Mac};
use portal_api::webhook::verify_signature;
use sha2::Sha256;

type HmacSha256 = Hmac<Sha256>;

fn compute_signature(secret: &str, body: &[u8]) -> String {
    let mut mac = HmacSha256::new_from_slice(secret.as_bytes()).expect("slice");
    mac.update(body);
    let result = mac.finalize().into_bytes();
    result
        .iter()
        .map(|b| format!("{b:02x}"))
        .collect::<String>()
}

#[test]
fn verify_signature_scenarios() {
    let secret = "correct-horse-battery-staple";
    let body = b"hello from gitea webhook";
    let valid_sig = compute_signature(secret, body);

    // 1. Correct signature passes
    assert!(verify_signature(secret, body, &valid_sig));

    // Uppercase hex passes
    assert!(verify_signature(
        secret,
        body,
        &valid_sig.to_ascii_uppercase()
    ));

    // Surrounding whitespace in signature passes
    assert!(verify_signature(secret, body, &format!("  {valid_sig}  ")));

    // 2. Wrong signature fails
    let wrong_sig = format!("00{}", &valid_sig[2..]);
    assert!(!verify_signature(secret, body, &wrong_sig));

    // Different body fails
    assert!(!verify_signature(secret, b"tampered payload", &valid_sig));

    // Different secret fails
    assert!(!verify_signature("wrong-secret", body, &valid_sig));

    // 3. Non-hex string fails
    assert!(!verify_signature(
        secret,
        body,
        "this-is-not-a-valid-hex-string!"
    ));

    // 4. Empty presented value fails
    assert!(!verify_signature(secret, body, ""));
    assert!(!verify_signature(secret, body, "   "));

    // Odd length hex fails
    assert!(!verify_signature(
        secret,
        body,
        &valid_sig[..valid_sig.len() - 1]
    ));
}
