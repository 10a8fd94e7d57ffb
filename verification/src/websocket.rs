//! The WebSocket opening handshake: validation of the upgrade request
//! and computation of the accept token.
//!
//! The caller reads the four relevant header values off the request and
//! hands them over as plain text; what comes back is either the value
//! for `Sec-WebSocket-Accept` or the first reason the handshake is
//! refused.

use vstd::prelude::*;
use vstd::string::StringSliceAdditionalSpecFns;

use base64::Engine;
use sha1::{Digest, Sha1};

verus! {

/// The name for what the SHA-1 digest of a byte string is: a function
/// of the input alone.
pub uninterp spec fn sha1_of(input: Seq<u8>) -> Seq<u8>;

/// The name for the standard padded base64 encoding of a byte string.
pub uninterp spec fn base64_of(input: Seq<u8>) -> Seq<char>;

/// The name for the standard padded base64 decoding of a byte string:
/// `None` exactly on text that is not valid base64.
pub uninterp spec fn base64_decoded(input: Seq<u8>) -> Option<Seq<u8>>;

/// Relies on the `sha1` crate's `Sha1`: the digest is a function of the
/// input bytes alone and is always 20 bytes long.
#[verifier::external_body]
fn sha1_digest(input: &[u8]) -> (r: Vec<u8>)
    ensures
        r@ == sha1_of(input@),
        r@.len() == 20,
{
    Sha1::digest(input).to_vec()
}

/// Relies on the `base64` crate's standard engine: the encoding is a
/// function of the input bytes alone.
#[verifier::external_body]
fn base64_encode(input: &[u8]) -> (r: String)
    ensures
        r@ == base64_of(input@),
{
    base64::engine::general_purpose::STANDARD.encode(input)
}

/// Relies on the `base64` crate's standard engine: decoding is a
/// function of the input bytes alone, and rejects exactly the inputs
/// that are not valid padded standard base64.
#[verifier::external_body]
fn base64_decode(input: &[u8]) -> (r: Option<Vec<u8>>)
    ensures
        match r {
            Option::Some(v) => base64_decoded(input@) == Some(v@),
            Option::None => base64_decoded(input@) is None,
        },
{
    base64::engine::general_purpose::STANDARD.decode(input).ok()
}

/// Why a handshake request was refused.
#[derive(Debug)]
pub enum HandshakeError {
    /// A required header is absent.
    MissingHeader { name: &'static str },
    /// A header carries a value the handshake does not accept.
    InvalidHeader { name: &'static str },
    /// The value of `Sec-WebSocket-Key` is not base64 text for a
    /// 16-byte nonce.
    InvalidSecWebSocketKey,
    /// The value of `Sec-WebSocket-Version` is not `13`.
    InvalidSecWebSocketVersion,
}

/// The accepted values of the `Upgrade` header.
pub open spec fn upgrade_value_ok(v: Seq<char>) -> bool {
    v == "Websocket"@ || v == "websocket"@
}

/// The accepted values of the `Connection` header.
pub open spec fn connection_value_ok(v: Seq<char>) -> bool {
    v == "Upgrade"@ || v == "upgrade"@
}

/// The accepted value of the `Sec-WebSocket-Version` header.
pub open spec fn version_value_ok(v: Seq<char>) -> bool {
    v == "13"@
}

/// The accepted values of the `Sec-WebSocket-Key` header: base64 text
/// for a 16-byte nonce.
pub open spec fn key_value_ok(k: &str) -> bool {
    match base64_decoded(k.spec_bytes()) {
        Option::Some(d) => d.len() == 16,
        Option::None => false,
    }
}

/// The bytes of the globally unique identifier the accept token mixes
/// into the key.
pub open spec fn websocket_guid_bytes() -> Seq<u8> {
    "258EAFA5-E914-47DA-95CA-C5AB0DC85B11".spec_bytes()
}

/// The accept token owed for a key: the base64 encoding of the SHA-1
/// digest of the key text followed by the handshake identifier.
pub open spec fn accept_of(key: &str) -> Seq<char> {
    base64_of(sha1_of(key.spec_bytes() + websocket_guid_bytes()))
}

/// All four headers carry accepted values.
pub open spec fn handshake_ok(
    upgrade: Option<&str>,
    connection: Option<&str>,
    version: Option<&str>,
    key: Option<&str>,
) -> bool {
    &&& upgrade matches Some(u) && upgrade_value_ok(u@)
    &&& connection matches Some(c) && connection_value_ok(c@)
    &&& version matches Some(v) && version_value_ok(v@)
    &&& key matches Some(k) && key_value_ok(k)
}

/// The response half of an accepted handshake: the value to send back
/// as `Sec-WebSocket-Accept`.
#[derive(Debug)]
pub struct Ws {
    pub accept_hash: String,
}

/// An extractor which validates the handshake request.
#[derive(Debug)]
pub struct WsExtractor;

impl WsExtractor {
    /// Validates the four relevant header values of an upgrade request
    /// and computes the accept token.  The checks run in header order —
    /// `Upgrade`, `Connection`, `Sec-WebSocket-Version`,
    /// `Sec-WebSocket-Key` — and the first failing one is reported.
    pub fn extract(
        &self,
        upgrade: Option<&str>,
        connection: Option<&str>,
        version: Option<&str>,
        key: Option<&str>,
    ) -> (r: Result<Ws, HandshakeError>)
        ensures
            r.is_ok() <==> handshake_ok(upgrade, connection, version, key),
            r matches Ok(ws) ==> key matches Some(k) && ws.accept_hash@ == accept_of(k),
            r matches Err(e) ==> match e {
                HandshakeError::MissingHeader { name } => (name@ == "Upgrade"@ && upgrade
                    is None) || (name@ == "Connection"@ && (upgrade matches Some(u)
                    && upgrade_value_ok(u@)) && connection is None) || (name@
                    == "Sec-WebSocket-Key"@ && (upgrade matches Some(u)
                    && upgrade_value_ok(u@)) && (connection matches Some(c)
                    && connection_value_ok(c@)) && (version matches Some(v)
                    && version_value_ok(v@)) && key is None),
                HandshakeError::InvalidHeader { name } => (name@ == "Upgrade"@ && (
                upgrade matches Some(u) && !upgrade_value_ok(u@))) || (name@
                    == "Connection"@ && (upgrade matches Some(u) && upgrade_value_ok(u@))
                    && (connection matches Some(c) && !connection_value_ok(c@))),
                HandshakeError::InvalidSecWebSocketVersion => (upgrade matches Some(u)
                    && upgrade_value_ok(u@)) && (connection matches Some(c)
                    && connection_value_ok(c@)) && !(version matches Some(v)
                    && version_value_ok(v@)),
                HandshakeError::InvalidSecWebSocketKey => (upgrade matches Some(u)
                    && upgrade_value_ok(u@)) && (connection matches Some(c)
                    && connection_value_ok(c@)) && (version matches Some(v)
                    && version_value_ok(v@)) && (key matches Some(k) && !key_value_ok(k)),
            },
    {
        handshake(upgrade, connection, version, key)
    }
}

/// Validates an upgrade request and computes the accept token; see
/// [`WsExtractor::extract`] for the order of the checks.
pub fn handshake(
    upgrade: Option<&str>,
    connection: Option<&str>,
    version: Option<&str>,
    key: Option<&str>,
) -> (r: Result<Ws, HandshakeError>)
    ensures
        r.is_ok() <==> handshake_ok(upgrade, connection, version, key),
        r matches Ok(ws) ==> key matches Some(k) && ws.accept_hash@ == accept_of(k),
        r matches Err(e) ==> match e {
            HandshakeError::MissingHeader { name } => (name@ == "Upgrade"@ && upgrade
                is None) || (name@ == "Connection"@ && (upgrade matches Some(u)
                && upgrade_value_ok(u@)) && connection is None) || (name@
                == "Sec-WebSocket-Key"@ && (upgrade matches Some(u)
                && upgrade_value_ok(u@)) && (connection matches Some(c)
                && connection_value_ok(c@)) && (version matches Some(v)
                && version_value_ok(v@)) && key is None),
            HandshakeError::InvalidHeader { name } => (name@ == "Upgrade"@ && (upgrade
                matches Some(u) && !upgrade_value_ok(u@))) || (name@ == "Connection"@
                && (upgrade matches Some(u) && upgrade_value_ok(u@)) && (connection
                matches Some(c) && !connection_value_ok(c@))),
            HandshakeError::InvalidSecWebSocketVersion => (upgrade matches Some(u)
                && upgrade_value_ok(u@)) && (connection matches Some(c)
                && connection_value_ok(c@)) && !(version matches Some(v)
                && version_value_ok(v@)),
            HandshakeError::InvalidSecWebSocketKey => (upgrade matches Some(u)
                && upgrade_value_ok(u@)) && (connection matches Some(c)
                && connection_value_ok(c@)) && (version matches Some(v)
                && version_value_ok(v@)) && (key matches Some(k) && !key_value_ok(k)),
        },
{
    let u = match upgrade {
        Some(u) => u,
        None => {
            return Err(HandshakeError::MissingHeader { name: "Upgrade" });
        },
    };
    if !(crate::text::str_eq(u, "Websocket") || crate::text::str_eq(u, "websocket")) {
        return Err(HandshakeError::InvalidHeader { name: "Upgrade" });
    }
    let c = match connection {
        Some(c) => c,
        None => {
            return Err(HandshakeError::MissingHeader { name: "Connection" });
        },
    };
    if !(crate::text::str_eq(c, "Upgrade") || crate::text::str_eq(c, "upgrade")) {
        return Err(HandshakeError::InvalidHeader { name: "Connection" });
    }
    let ok_version = match version {
        Some(v) => crate::text::str_eq(v, "13"),
        None => false,
    };
    if !ok_version {
        return Err(HandshakeError::InvalidSecWebSocketVersion);
    }
    let k = match key {
        Some(k) => k,
        None => {
            return Err(HandshakeError::MissingHeader { name: "Sec-WebSocket-Key" });
        },
    };
    let decoded = match base64_decode(k.as_bytes()) {
        Some(d) => d,
        None => {
            return Err(HandshakeError::InvalidSecWebSocketKey);
        },
    };
    if decoded.len() != 16 {
        return Err(HandshakeError::InvalidSecWebSocketKey);
    }
    let mut material = k.as_bytes_vec();
    let mut guid = "258EAFA5-E914-47DA-95CA-C5AB0DC85B11".as_bytes_vec();
    material.append(&mut guid);
    proof {
        assert(material@ == k.spec_bytes() + websocket_guid_bytes());
    }
    let digest = sha1_digest(material.as_slice());
    let accept_hash = base64_encode(digest.as_slice());
    Ok(Ws { accept_hash })
}

} // verus!
