//! The handshake driver: a spliced conversation run once per client,
//! before the relays start.
//!
//! The machine names, in each state, the message that must be read next
//! and from which side. Every step returns the next state and where the
//! just-read message is forwarded, unchanged. The surrounding loop does
//! the reads and writes.

use vstd::prelude::*;

verus! {

use crate::Error;
use crate::rfb::{ClientInit, PixelFormat, RfbString, SecurityResult, SecurityType, SecurityTypes,
    ServerInit, Version};

/// Where the handshake stands.
#[derive(Debug, Clone, Copy, PartialEq, Eq, Structural)]
pub enum HandshakeState {
    /// Read the server's `Version` next.
    ExpectServerVersion,
    /// Read the client's `Version` next; the server's minor is kept for
    /// negotiation.
    ExpectClientVersion { server_minor: u8 },
    /// Negotiated 3.3: read the server-chosen 4-byte security word.
    ExpectSecurity33,
    /// Negotiated 3.7 or 3.8: read the server's security-type list.
    ExpectSecurityTypes { v38: bool },
    /// The server refused; read its reason string, which becomes the
    /// connection's protocol error.
    ExpectReason,
    /// Read the client's chosen security type.
    ExpectClientSecurity { v38: bool },
    /// Negotiated 3.8: read the final `SecurityResult`.
    ExpectFinalResult,
    /// Read the client's `ClientInit`.
    ExpectClientInit,
    /// Read the server's `ServerInit`.
    ExpectServerInit,
    /// Handshake finished; the session starts with this pixel format.
    Done { pixel_format: PixelFormat },
    /// The server refused the connection.
    Failed,
}

/// Which peer a just-read message is forwarded to, unchanged.
#[derive(Debug, Clone, Copy, PartialEq, Eq, Structural)]
pub enum HsForward {
    ToClient,
    ToServer,
}

/// The 12 bytes of `RFB 003.00<minor>\n`.
pub open spec fn rfb_version_bytes(minor: u8) -> Seq<u8> {
    seq![
        82u8,
        70u8,
        66u8,
        32u8,
        48u8,
        48u8,
        51u8,
        46u8,
        48u8,
        48u8,
        (48 + minor) as u8,
        10u8,
    ]
}

/// The protocol minor a version string announces. Anything but the
/// versions the proxy distinguishes is taken as the 3.3 floor.
pub open spec fn version_minor(v: Seq<u8>) -> u8 {
    if v == rfb_version_bytes(8) {
        8u8
    } else if v == rfb_version_bytes(7) {
        7u8
    } else {
        3u8
    }
}

/// The minor both sides can speak: the lower of the two.
pub open spec fn negotiated_minor(server_minor: u8, client: Seq<u8>) -> u8 {
    if server_minor <= version_minor(client) {
        server_minor
    } else {
        version_minor(client)
    }
}

fn version_template(minor: u8) -> (t: Vec<u8>)
    requires
        minor < 10,
    ensures
        t@ == rfb_version_bytes(minor),
{
    let mut t: Vec<u8> = Vec::new();
    t.push(82);
    t.push(70);
    t.push(66);
    t.push(32);
    t.push(48);
    t.push(48);
    t.push(51);
    t.push(46);
    t.push(48);
    t.push(48);
    t.push(48 + minor);
    t.push(10);
    proof {
        assert(t@ =~= rfb_version_bytes(minor));
    }
    t
}

fn matches_version(v: &Vec<u8>, minor: u8) -> (r: bool)
    requires
        minor < 10,
    ensures
        r == (v@ == rfb_version_bytes(minor)),
{
    let t = version_template(minor);
    if v.len() != 12 {
        return false;
    }
    let mut i: usize = 0;
    while i < 12
        invariant
            i <= 12,
            v@.len() == 12,
            t@ == rfb_version_bytes(minor),
            t@.len() == 12,
            forall|j: int| 0 <= j < i ==> v@[j] == t@[j],
        decreases 12 - i,
    {
        if v[i] != t[i] {
            return false;
        }
        i = i + 1;
    }
    proof {
        assert(v@ =~= rfb_version_bytes(minor));
    }
    true
}

/// The protocol minor a version message announces.
pub fn version_minor_of(v: &Version) -> (m: u8)
    ensures
        m == version_minor(v@),
{
    if matches_version(&v.0, 8) {
        8
    } else if matches_version(&v.0, 7) {
        7
    } else {
        3
    }
}

/// Next state once the client's version is in.
pub open spec fn after_client_version(st: HandshakeState, client: Seq<u8>) -> HandshakeState {
    match st {
        HandshakeState::ExpectClientVersion { server_minor } => {
            let neg = negotiated_minor(server_minor, client);
            if neg == 3 {
                HandshakeState::ExpectSecurity33
            } else {
                HandshakeState::ExpectSecurityTypes { v38: neg == 8 }
            }
        },
        _ => st,
    }
}

/// Next state once the 3.3 security word is in.
pub open spec fn after_security33(st: HandshakeState, status: u32) -> HandshakeState {
    match st {
        HandshakeState::ExpectSecurity33 => if status == 0 {
            HandshakeState::ExpectReason
        } else {
            HandshakeState::ExpectClientInit
        },
        _ => st,
    }
}

/// Next state once the security-type list is in.
pub open spec fn after_security_types(st: HandshakeState, count: int) -> HandshakeState {
    match st {
        HandshakeState::ExpectSecurityTypes { v38 } => if count == 0 {
            HandshakeState::ExpectReason
        } else {
            HandshakeState::ExpectClientSecurity { v38 }
        },
        _ => st,
    }
}

/// Next state once the client chose its security type.
pub open spec fn after_client_security(st: HandshakeState) -> HandshakeState {
    match st {
        HandshakeState::ExpectClientSecurity { v38 } => if v38 {
            HandshakeState::ExpectFinalResult
        } else {
            HandshakeState::ExpectClientInit
        },
        _ => st,
    }
}

impl HandshakeState {
    /// Start of the handshake.
    pub fn start() -> (st: HandshakeState)
        ensures
            st == HandshakeState::ExpectServerVersion,
    {
        HandshakeState::ExpectServerVersion
    }

    /// The server announced its version: forward it to the client and
    /// wait for the client's answer.
    pub fn on_server_version(self, v: &Version) -> (r: (HandshakeState, HsForward))
        requires
            self is ExpectServerVersion,
        ensures
            r.0 == (HandshakeState::ExpectClientVersion { server_minor: version_minor(v@) }),
            r.1 == HsForward::ToClient,
    {
        (
            HandshakeState::ExpectClientVersion { server_minor: version_minor_of(v) },
            HsForward::ToClient,
        )
    }

    /// The client answered with its version: forward it to the server
    /// and branch on the lower of the two versions. 3.3 negotiates
    /// security with a single server word; 3.7 and 3.8 with a list.
    pub fn on_client_version(self, v: &Version) -> (r: (HandshakeState, HsForward))
        requires
            self is ExpectClientVersion,
        ensures
            r.0 == after_client_version(self, v@),
            r.1 == HsForward::ToServer,
    {
        match self {
            HandshakeState::ExpectClientVersion { server_minor } => {
                let cm = version_minor_of(v);
                let neg = if server_minor <= cm {
                    server_minor
                } else {
                    cm
                };
                if neg == 3 {
                    (HandshakeState::ExpectSecurity33, HsForward::ToServer)
                } else {
                    (HandshakeState::ExpectSecurityTypes { v38: neg == 8 }, HsForward::ToServer)
                }
            },
            _ => {
                proof {
                    assert(false);
                }
                (HandshakeState::Failed, HsForward::ToServer)
            },
        }
    }

    /// 3.3: the server chose the security word; forward it to the
    /// client. Zero announces refusal and a reason follows. The proxy
    /// only implements type 1 ("None"); a caller must treat any other
    /// value as a fatal fault, as the contract requires.
    pub fn on_security33(self, res: SecurityResult) -> (r: (HandshakeState, HsForward))
        requires
            self is ExpectSecurity33,
            res.0 == 0 || res.0 == 1,
        ensures
            r.0 == after_security33(self, res.0),
            r.1 == HsForward::ToClient,
    {
        if res.0 == 0 {
            (HandshakeState::ExpectReason, HsForward::ToClient)
        } else {
            (HandshakeState::ExpectClientInit, HsForward::ToClient)
        }
    }

    /// 3.7+: the server listed its security types; forward the list to
    /// the client. An empty list is the refusal sentinel and a reason
    /// follows; otherwise the client answers with its choice.
    pub fn on_security_types(self, types: &SecurityTypes) -> (r: (HandshakeState, HsForward))
        requires
            self is ExpectSecurityTypes,
        ensures
            r.0 == after_security_types(self, types@.len() as int),
            r.1 == HsForward::ToClient,
    {
        match self {
            HandshakeState::ExpectSecurityTypes { v38 } => {
                if types.0.len() == 0 {
                    (HandshakeState::ExpectReason, HsForward::ToClient)
                } else {
                    (HandshakeState::ExpectClientSecurity { v38 }, HsForward::ToClient)
                }
            },
            _ => {
                proof {
                    assert(false);
                }
                (HandshakeState::Failed, HsForward::ToClient)
            },
        }
    }

    /// The server refused and gave this reason: the handshake fails
    /// with a protocol error carrying the reason bytes.
    pub fn on_reason(self, reason: RfbString) -> (r: (HandshakeState, Error))
        requires
            self is ExpectReason,
        ensures
            r.0 is Failed,
            r.1 == Error::Protocol(reason.0),
    {
        (HandshakeState::Failed, Error::Protocol(reason.0))
    }

    /// The client chose its security type; forward it to the server.
    /// The proxy only implements type 1 ("None"); the contract keeps
    /// any other choice out, and a caller must treat one as a fatal
    /// fault. Under 3.8 a final security result follows.
    pub fn on_client_security(self, t: SecurityType) -> (r: (HandshakeState, HsForward))
        requires
            self is ExpectClientSecurity,
            t.0 == 1,
        ensures
            r.0 == after_client_security(self),
            r.1 == HsForward::ToServer,
    {
        match self {
            HandshakeState::ExpectClientSecurity { v38 } => {
                if v38 {
                    (HandshakeState::ExpectFinalResult, HsForward::ToServer)
                } else {
                    (HandshakeState::ExpectClientInit, HsForward::ToServer)
                }
            },
            _ => {
                proof {
                    assert(false);
                }
                (HandshakeState::Failed, HsForward::ToServer)
            },
        }
    }

    /// 3.8: the final security result; forwarded to the client as-is.
    pub fn on_final_result(self, res: SecurityResult) -> (r: (HandshakeState, HsForward))
        requires
            self is ExpectFinalResult,
        ensures
            r.0 == HandshakeState::ExpectClientInit,
            r.1 == HsForward::ToClient,
    {
        let _ = res;
        (HandshakeState::ExpectClientInit, HsForward::ToClient)
    }

    /// The client's init byte; forwarded to the server.
    pub fn on_client_init(self, ci: ClientInit) -> (r: (HandshakeState, HsForward))
        requires
            self is ExpectClientInit,
        ensures
            r.0 == HandshakeState::ExpectServerInit,
            r.1 == HsForward::ToServer,
    {
        let _ = ci;
        (HandshakeState::ExpectServerInit, HsForward::ToServer)
    }

    /// The server's init message; forwarded to the client. Its pixel
    /// format becomes the session's initial format.
    pub fn on_server_init(self, si: &ServerInit) -> (r: (HandshakeState, HsForward))
        requires
            self is ExpectServerInit,
        ensures
            r.0 == (HandshakeState::Done { pixel_format: si.pixel_format }),
            r.1 == HsForward::ToClient,
    {
        (HandshakeState::Done { pixel_format: si.pixel_format }, HsForward::ToClient)
    }
}

} // verus!
