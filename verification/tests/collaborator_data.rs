use quicksilver_utils_async::request::{RequestError, ServiceClientImpl};
use quicksilver_utils_async::websocket::WebSocketError;

#[test]
fn new_client_has_no_token() {
    let client = ServiceClientImpl::new();
    assert!(!client.has_auth_token());
}

#[test]
fn set_auth_token_is_recorded() {
    let mut client = ServiceClientImpl::new();
    client.set_auth_token("sample-token");
    assert!(client.has_auth_token());
}

#[test]
fn request_error_carries_description() {
    let err = RequestError::NativeError("connection refused".to_string());
    assert!(matches!(err, RequestError::NativeError(ref msg) if msg == "connection refused"));
}

#[test]
fn websocket_error_variants() {
    let native = WebSocketError::NativeError("broken pipe".to_string());
    assert!(matches!(native, WebSocketError::NativeError(_)));
    assert!(matches!(WebSocketError::StateInit, WebSocketError::StateInit));
    let state = WebSocketError::StateError("handshake".to_string());
    assert!(matches!(state, WebSocketError::StateError(ref msg) if msg == "handshake"));
    assert!(matches!(WebSocketError::StateClosed, WebSocketError::StateClosed));
}
