use tsukuyomi::websocket::{handshake, HandshakeError, WsExtractor};

#[test]
fn test_handshake() {
    let ws = handshake(
        Some("websocket"),
        Some("upgrade"),
        Some("13"),
        Some("dGhlIHNhbXBsZSBub25jZQ=="),
    )
    .unwrap();
    assert_eq!(ws.accept_hash, "s3pPLMBiTxaQ9kYGzzhZRbK+xOo=");
}

#[test]
fn handshake_capitalized_values() {
    let ws = handshake(
        Some("Websocket"),
        Some("Upgrade"),
        Some("13"),
        Some("dGhlIHNhbXBsZSBub25jZQ=="),
    )
    .unwrap();
    assert_eq!(ws.accept_hash, "s3pPLMBiTxaQ9kYGzzhZRbK+xOo=");
}

#[test]
fn handshake_via_extractor() {
    let ws = WsExtractor
        .extract(
            Some("websocket"),
            Some("upgrade"),
            Some("13"),
            Some("dGhlIHNhbXBsZSBub25jZQ=="),
        )
        .unwrap();
    assert_eq!(ws.accept_hash, "s3pPLMBiTxaQ9kYGzzhZRbK+xOo=");
}

#[test]
fn handshake_failcase_missing_upgrade() {
    let r = handshake(None, Some("upgrade"), Some("13"), Some("dGhlIHNhbXBsZSBub25jZQ=="));
    assert!(matches!(r, Err(HandshakeError::MissingHeader { name: "Upgrade" })));
}

#[test]
fn handshake_failcase_invalid_upgrade() {
    let r = handshake(
        Some("h2c"),
        Some("upgrade"),
        Some("13"),
        Some("dGhlIHNhbXBsZSBub25jZQ=="),
    );
    assert!(matches!(r, Err(HandshakeError::InvalidHeader { name: "Upgrade" })));
}

#[test]
fn handshake_failcase_missing_connection() {
    let r = handshake(Some("websocket"), None, Some("13"), Some("dGhlIHNhbXBsZSBub25jZQ=="));
    assert!(matches!(r, Err(HandshakeError::MissingHeader { name: "Connection" })));
}

#[test]
fn handshake_failcase_invalid_connection() {
    let r = handshake(
        Some("websocket"),
        Some("close"),
        Some("13"),
        Some("dGhlIHNhbXBsZSBub25jZQ=="),
    );
    assert!(matches!(r, Err(HandshakeError::InvalidHeader { name: "Connection" })));
}

#[test]
fn handshake_failcase_version() {
    let r = handshake(
        Some("websocket"),
        Some("upgrade"),
        Some("8"),
        Some("dGhlIHNhbXBsZSBub25jZQ=="),
    );
    assert!(matches!(r, Err(HandshakeError::InvalidSecWebSocketVersion)));
    let r = handshake(
        Some("websocket"),
        Some("upgrade"),
        None,
        Some("dGhlIHNhbXBsZSBub25jZQ=="),
    );
    assert!(matches!(r, Err(HandshakeError::InvalidSecWebSocketVersion)));
}

#[test]
fn handshake_failcase_missing_key() {
    let r = handshake(Some("websocket"), Some("upgrade"), Some("13"), None);
    assert!(matches!(
        r,
        Err(HandshakeError::MissingHeader { name: "Sec-WebSocket-Key" })
    ));
}

#[test]
fn handshake_failcase_bad_key() {
    // Not base64 at all.
    let r = handshake(Some("websocket"), Some("upgrade"), Some("13"), Some("?!"));
    assert!(matches!(r, Err(HandshakeError::InvalidSecWebSocketKey)));
    // Valid base64, but not a 16-byte nonce.
    let r = handshake(Some("websocket"), Some("upgrade"), Some("13"), Some("c2hvcnQ="));
    assert!(matches!(r, Err(HandshakeError::InvalidSecWebSocketKey)));
}
