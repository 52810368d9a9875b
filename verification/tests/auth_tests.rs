use front_run_vanilla::auth::{build_signed_query, generate_signature, get_timestamp};

#[test]
fn test_generate_signature() {
    let secret = "test_secret_key";
    let query = "symbol=BTCUSDT&side=BUY&type=MARKET&quantity=0.001&timestamp=1234567890";

    let signature = generate_signature(secret, query);

    // Signature should be 64 character hex string
    assert_eq!(signature.len(), 64);

    // Same input should produce same signature
    let signature2 = generate_signature(secret, query);
    assert_eq!(signature, signature2);
}

#[test]
fn test_generate_signature_depends_on_inputs() {
    let a = generate_signature("key_one", "payload");
    let b = generate_signature("key_two", "payload");
    let c = generate_signature("key_one", "payload2");
    assert_ne!(a, b);
    assert_ne!(a, c);
}

#[test]
fn test_build_signed_query() {
    let params = vec![
        ("symbol", "BTCUSDT"),
        ("side", "BUY"),
        ("type", "MARKET"),
        ("quantity", "0.001"),
    ];

    let query = build_signed_query(&params, "secret");

    // Should contain all parameters
    assert!(query.contains("symbol=BTCUSDT"));
    assert!(query.contains("side=BUY"));
    assert!(query.contains("type=MARKET"));
    assert!(query.contains("quantity=0.001"));
    assert!(query.contains("timestamp="));
    assert!(query.contains("signature="));
}

#[test]
fn test_timestamp() {
    let ts1 = get_timestamp();
    // wait for the clock to advance
    let mut ts2 = get_timestamp();
    while ts2 <= ts1 {
        ts2 = get_timestamp();
    }

    assert!(ts2 > ts1);
}
