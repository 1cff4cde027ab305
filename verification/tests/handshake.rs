//! Scenario tests of the handshake machine.

use rfb_proxy::handshake::{HandshakeState, HsForward};
use rfb_proxy::rfb::{
    ClientInit, PixelFormat, RfbString, SecurityResult, SecurityType, SecurityTypes, ServerInit,
    Version,
};
use rfb_proxy::Error;

fn v38() -> Version {
    Version(b"RFB 003.008\n".to_vec())
}

fn v33() -> Version {
    Version(b"RFB 003.003\n".to_vec())
}

fn sample_pf() -> PixelFormat {
    PixelFormat {
        bits_per_pixel: 32,
        depth: 24,
        big_endian: false,
        true_colour: true,
        red_max: 255,
        green_max: 255,
        blue_max: 255,
        red_shift: 16,
        green_shift: 8,
        blue_shift: 0,
    }
}

#[test]
fn refusal_reason_becomes_protocol_error() {
    // The upstream advertises no security types, then gives the reason
    // "bad". The empty list is forwarded to the client first; the
    // connection fails with a protocol error carrying "bad".
    let st = HandshakeState::start();
    let (st, fwd) = st.on_server_version(&v38());
    assert_eq!(fwd, HsForward::ToClient);
    let (st, fwd) = st.on_client_version(&v38());
    assert_eq!(fwd, HsForward::ToServer);
    assert_eq!(st, HandshakeState::ExpectSecurityTypes { v38: true });

    let (st, fwd) = st.on_security_types(&SecurityTypes(Vec::new()));
    assert_eq!(fwd, HsForward::ToClient, "client must see the empty list");
    assert_eq!(st, HandshakeState::ExpectReason);

    let (st, err) = st.on_reason(RfbString(b"bad".to_vec()));
    assert_eq!(st, HandshakeState::Failed);
    assert_eq!(err, Error::Protocol(b"bad".to_vec()));
}

#[test]
fn happy_path_v33() {
    let st = HandshakeState::start();
    let (st, _) = st.on_server_version(&v33());
    let (st, _) = st.on_client_version(&v38());
    // min(3.3, 3.8) is 3.3: a single security word follows.
    assert_eq!(st, HandshakeState::ExpectSecurity33);

    let (st, fwd) = st.on_security33(SecurityResult(1));
    assert_eq!(fwd, HsForward::ToClient);
    assert_eq!(st, HandshakeState::ExpectClientInit);

    let (st, fwd) = st.on_client_init(ClientInit { shared: true });
    assert_eq!(fwd, HsForward::ToServer);
    assert_eq!(st, HandshakeState::ExpectServerInit);

    let si = ServerInit {
        framebuffer_width: 640,
        framebuffer_height: 480,
        pixel_format: sample_pf(),
        name: b"d".to_vec(),
    };
    let (st, fwd) = st.on_server_init(&si);
    assert_eq!(fwd, HsForward::ToClient);
    assert_eq!(st, HandshakeState::Done { pixel_format: sample_pf() });
}

#[test]
fn refusal_in_v33_reads_reason() {
    let st = HandshakeState::start();
    let (st, _) = st.on_server_version(&v33());
    let (st, _) = st.on_client_version(&v33());
    let (st, _) = st.on_security33(SecurityResult(0));
    assert_eq!(st, HandshakeState::ExpectReason);
}

#[test]
fn happy_path_v38_reads_final_result() {
    let st = HandshakeState::start();
    let (st, _) = st.on_server_version(&v38());
    let (st, _) = st.on_client_version(&v38());
    let (st, _) = st.on_security_types(&SecurityTypes(vec![1]));
    assert_eq!(st, HandshakeState::ExpectClientSecurity { v38: true });

    let (st, fwd) = st.on_client_security(SecurityType(1));
    assert_eq!(fwd, HsForward::ToServer);
    assert_eq!(st, HandshakeState::ExpectFinalResult);

    let (st, fwd) = st.on_final_result(SecurityResult(0));
    assert_eq!(fwd, HsForward::ToClient);
    assert_eq!(st, HandshakeState::ExpectClientInit);
}

#[test]
fn v37_skips_final_result() {
    let st = HandshakeState::start();
    let (st, _) = st.on_server_version(&Version(b"RFB 003.007\n".to_vec()));
    let (st, _) = st.on_client_version(&v38());
    assert_eq!(st, HandshakeState::ExpectSecurityTypes { v38: false });
    let (st, _) = st.on_security_types(&SecurityTypes(vec![1]));
    let (st, _) = st.on_client_security(SecurityType(1));
    assert_eq!(st, HandshakeState::ExpectClientInit);
}

#[test]
fn unknown_version_falls_back_to_v33() {
    let st = HandshakeState::start();
    let (st, _) = st.on_server_version(&Version(b"RFB 004.000\n".to_vec()));
    let (st, _) = st.on_client_version(&v38());
    assert_eq!(st, HandshakeState::ExpectSecurity33);
}
