//! The RFB wire codec: every message the proxy reads or writes, with a
//! byte-exact specification of its encoding (RFC 6143).
//!
//! Each message type has `read_from` / `write_to` on the cursor and buffer
//! types of [`crate::wire`], a spec serializer `ser_*`, and a spec decoder
//! `dec_*`. Decoding a prefix of a message reports `InsufficientBytes`
//! and leaves the buffer unchanged, so a caller can retry once more bytes
//! arrive.

use vstd::prelude::*;

verus! {

use crate::wire::{
    ReadBuf, be16_at, be32_at, hi8, i32_at, lo8, put_bytes, put_i32, put_u16, put_u32, put_u8,
    ser_i32, ser_u16, ser_u32, lemma_be16_ser, lemma_be32_ser, lemma_i32_ser,
};
use vstd::arithmetic::div_mod::lemma_fundamental_div_mod;

/// Why a decode did not produce a message.
#[derive(Debug, Clone, Copy, PartialEq, Eq, Structural)]
pub enum DecodeError {
    /// The buffer holds a proper prefix of a message; retry with more
    /// bytes.
    InsufficientBytes,
    /// An unknown client-to-server message-type byte; fatal.
    UnsupportedC2S(u8),
    /// An unknown server-to-client message-type byte; fatal.
    UnsupportedS2C(u8),
}

/// Outcome of decoding the front of a byte sequence: a value together
/// with the number of bytes it occupied, or one of the two failures.
pub enum SpecDec<V> {
    Got { v: V, n: int },
    Underrun,
    Bad { err: DecodeError },
}

/// The decode `d` of `pre` committed value `v`, leaving `post`.
pub open spec fn dec_commits<V>(d: SpecDec<V>, v: V, pre: Seq<u8>, post: Seq<u8>) -> bool {
    &&& d matches SpecDec::Got { v: dv, n } && dv == v && 0 <= n <= pre.len() && post == pre.skip(
        n,
    )
}

/// The decode `d` fails exactly as error `e` reports.
pub open spec fn dec_fails<V>(d: SpecDec<V>, e: DecodeError) -> bool {
    match e {
        DecodeError::InsufficientBytes => d is Underrun,
        _ => d matches SpecDec::Bad { err } && err == e,
    }
}

// ---------------------------------------------------------------------------
// PixelFormat
// ---------------------------------------------------------------------------

/// The 16-byte pixel layout declared by the server and latched by
/// `SetPixelFormat`: bits-per-pixel, depth, byte order, true-colour flag,
/// and the three channel ranges and shifts.
#[derive(Debug, Clone, Copy, PartialEq, Eq, Structural)]
pub struct PixelFormat {
    pub bits_per_pixel: u8,
    pub depth: u8,
    pub big_endian: bool,
    pub true_colour: bool,
    pub red_max: u16,
    pub green_max: u16,
    pub blue_max: u16,
    pub red_shift: u8,
    pub green_shift: u8,
    pub blue_shift: u8,
}

/// Byte `k` of the 16-byte wire form of a pixel format.
pub open spec fn pf_byte(pf: PixelFormat, k: int) -> u8 {
    if k == 0 {
        pf.bits_per_pixel
    } else if k == 1 {
        pf.depth
    } else if k == 2 {
        if pf.big_endian { 1u8 } else { 0u8 }
    } else if k == 3 {
        if pf.true_colour { 1u8 } else { 0u8 }
    } else if k == 4 {
        hi8(pf.red_max)
    } else if k == 5 {
        lo8(pf.red_max)
    } else if k == 6 {
        hi8(pf.green_max)
    } else if k == 7 {
        lo8(pf.green_max)
    } else if k == 8 {
        hi8(pf.blue_max)
    } else if k == 9 {
        lo8(pf.blue_max)
    } else if k == 10 {
        pf.red_shift
    } else if k == 11 {
        pf.green_shift
    } else if k == 12 {
        pf.blue_shift
    } else {
        0u8
    }
}

/// The 16 wire bytes of a pixel format, including the 3-byte pad.
pub open spec fn ser_pf(pf: PixelFormat) -> Seq<u8> {
    Seq::new(16, |k: int| pf_byte(pf, k))
}

/// The pixel format whose 16 wire bytes sit at offset `i` of `s`.
pub open spec fn dec_pf_at(s: Seq<u8>, i: int) -> PixelFormat {
    PixelFormat {
        bits_per_pixel: s[i],
        depth: s[i + 1],
        big_endian: s[i + 2] != 0,
        true_colour: s[i + 3] != 0,
        red_max: be16_at(s, i + 4),
        green_max: be16_at(s, i + 6),
        blue_max: be16_at(s, i + 8),
        red_shift: s[i + 10],
        green_shift: s[i + 11],
        blue_shift: s[i + 12],
    }
}

/// Decode of a standalone `PixelFormat` message.
pub open spec fn dec_pixel_format(s: Seq<u8>) -> SpecDec<PixelFormat> {
    if s.len() < 16 {
        SpecDec::Underrun
    } else {
        SpecDec::Got { v: dec_pf_at(s, 0), n: 16 }
    }
}

/// A pixel format decodes back from its own wire bytes, wherever they
/// sit.
pub proof fn lemma_pf_at_ser(s: Seq<u8>, i: int, pf: PixelFormat)
    requires
        0 <= i,
        i + 16 <= s.len(),
        forall|k: int| 0 <= k < 16 ==> s[i + k] == #[trigger] ser_pf(pf)[k],
    ensures
        dec_pf_at(s, i) == pf,
{
    assert(s[i + 4] == ser_pf(pf)[4] && s[i + 5] == ser_pf(pf)[5]);
    lemma_be16_ser(s, i + 4, pf.red_max);
    assert(s[i + 6] == ser_pf(pf)[6] && s[i + 7] == ser_pf(pf)[7]);
    lemma_be16_ser(s, i + 6, pf.green_max);
    assert(s[i + 8] == ser_pf(pf)[8] && s[i + 9] == ser_pf(pf)[9]);
    lemma_be16_ser(s, i + 8, pf.blue_max);
    assert(s[i] == ser_pf(pf)[0] && s[i + 1] == ser_pf(pf)[1]);
    assert(s[i + 2] == ser_pf(pf)[2] && s[i + 3] == ser_pf(pf)[3]);
    assert(s[i + 10] == ser_pf(pf)[10] && s[i + 11] == ser_pf(pf)[11]);
    assert(s[i + 12] == ser_pf(pf)[12]);
}

/// Round-trip: a serialized pixel format, followed by anything, decodes
/// to itself and consumes exactly its 16 bytes.
pub proof fn lemma_pixel_format_round_trip(pf: PixelFormat, rest: Seq<u8>)
    ensures
        dec_pixel_format(ser_pf(pf) + rest) == (SpecDec::Got { v: pf, n: 16int }),
        ser_pf(pf).len() == 16,
{
    let s = ser_pf(pf) + rest;
    assert forall|k: int| 0 <= k < 16 implies s[k] == ser_pf(pf)[k] by {}
    lemma_pf_at_ser(s, 0, pf);
}

/// Underrun safety: every strict prefix of a serialized pixel format
/// decodes to `InsufficientBytes`.
pub proof fn lemma_pixel_format_underrun(pf: PixelFormat, n: int)
    requires
        0 <= n < ser_pf(pf).len(),
    ensures
        dec_pixel_format(ser_pf(pf).take(n)) is Underrun,
{
}

/// Read the 16 pixel-format bytes sitting at offset `i` of the cursor.
fn pf_read_at(buf: &ReadBuf, i: usize) -> (pf: PixelFormat)
    requires
        i + 16 <= buf@.len(),
    ensures
        pf == dec_pf_at(buf@, i as int),
{
    let _n = buf.remaining();
    PixelFormat {
        bits_per_pixel: buf.byte_at(i),
        depth: buf.byte_at(i + 1),
        big_endian: buf.byte_at(i + 2) != 0,
        true_colour: buf.byte_at(i + 3) != 0,
        red_max: buf.get_u16_at(i + 4),
        green_max: buf.get_u16_at(i + 6),
        blue_max: buf.get_u16_at(i + 8),
        red_shift: buf.byte_at(i + 10),
        green_shift: buf.byte_at(i + 11),
        blue_shift: buf.byte_at(i + 12),
    }
}

impl PixelFormat {
    pub fn read_from(buf: &mut ReadBuf) -> (r: Result<PixelFormat, DecodeError>)
        ensures
            match r {
                Ok(m) => dec_commits(dec_pixel_format(old(buf)@), m, old(buf)@, final(buf)@),
                Err(e) => *final(buf) == *old(buf) && dec_fails(dec_pixel_format(old(buf)@), e),
            },
    {
        let n = buf.remaining();
        if n < 16 {
            return Err(DecodeError::InsufficientBytes);
        }
        let pf = pf_read_at(buf, 0);
        buf.advance(16);
        Ok(pf)
    }

    pub fn write_to(&self, buf: &mut Vec<u8>)
        ensures
            final(buf)@ == old(buf)@ + ser_pf(*self),
    {
        put_u8(buf, self.bits_per_pixel);
        put_u8(buf, self.depth);
        put_u8(buf, if self.big_endian { 1 } else { 0 });
        put_u8(buf, if self.true_colour { 1 } else { 0 });
        put_u16(buf, self.red_max);
        put_u16(buf, self.green_max);
        put_u16(buf, self.blue_max);
        put_u8(buf, self.red_shift);
        put_u8(buf, self.green_shift);
        put_u8(buf, self.blue_shift);
        put_u8(buf, 0);
        put_u8(buf, 0);
        put_u8(buf, 0);
        proof {
            assert(buf@ =~= old(buf)@ + ser_pf(*self));
        }
    }
}

// ---------------------------------------------------------------------------
// Version
// ---------------------------------------------------------------------------

/// The 12-byte protocol version string, e.g. `RFB 003.008\n`.
#[derive(Debug, Clone, PartialEq, Eq)]
pub struct Version(pub Vec<u8>);

impl View for Version {
    type V = Seq<u8>;

    open spec fn view(&self) -> Seq<u8> {
        self.0@
    }
}

/// A version message is exactly 12 bytes.
pub open spec fn version_wf(v: Seq<u8>) -> bool {
    v.len() == 12
}

/// A version goes on the wire as its bytes, nothing more.
pub open spec fn ser_version(v: Seq<u8>) -> Seq<u8> {
    v
}

pub open spec fn dec_version(s: Seq<u8>) -> SpecDec<Seq<u8>> {
    if s.len() < 12 {
        SpecDec::Underrun
    } else {
        SpecDec::Got { v: s.take(12), n: 12 }
    }
}

pub proof fn lemma_version_round_trip(v: Seq<u8>, rest: Seq<u8>)
    requires
        version_wf(v),
    ensures
        dec_version(ser_version(v) + rest) == (SpecDec::Got { v, n: 12int }),
{
    assert((v + rest).take(12) =~= v);
}

pub proof fn lemma_version_underrun(v: Seq<u8>, n: int)
    requires
        version_wf(v),
        0 <= n < ser_version(v).len(),
    ensures
        dec_version(ser_version(v).take(n)) is Underrun,
{
}

impl Version {
    pub fn read_from(buf: &mut ReadBuf) -> (r: Result<Version, DecodeError>)
        ensures
            match r {
                Ok(m) => dec_commits(dec_version(old(buf)@), m@, old(buf)@, final(buf)@)
                    && version_wf(m@),
                Err(e) => *final(buf) == *old(buf) && dec_fails(dec_version(old(buf)@), e),
            },
    {
        let n = buf.remaining();
        if n < 12 {
            return Err(DecodeError::InsufficientBytes);
        }
        let bytes = buf.take_vec(0, 12);
        buf.advance(12);
        Ok(Version(bytes))
    }

    pub fn write_to(&self, buf: &mut Vec<u8>)
        ensures
            final(buf)@ == old(buf)@ + ser_version(self@),
    {
        put_bytes(buf, &self.0);
    }
}

// ---------------------------------------------------------------------------
// SecurityTypes
// ---------------------------------------------------------------------------

/// The server's security-type list: a 1-byte count then that many type
/// bytes. An empty list is the server's refusal sentinel and is followed
/// on the wire by a reason string.
#[derive(Debug, Clone, PartialEq, Eq)]
pub struct SecurityTypes(pub Vec<u8>);

impl View for SecurityTypes {
    type V = Seq<u8>;

    open spec fn view(&self) -> Seq<u8> {
        self.0@
    }
}

/// At most 255 security types fit behind the 1-byte count.
pub open spec fn security_types_wf(v: Seq<u8>) -> bool {
    v.len() <= 255
}

pub open spec fn ser_security_types(v: Seq<u8>) -> Seq<u8> {
    seq![v.len() as u8] + v
}

pub open spec fn dec_security_types(s: Seq<u8>) -> SpecDec<Seq<u8>> {
    if s.len() < 1 {
        SpecDec::Underrun
    } else {
        let c = s[0] as int;
        if s.len() < 1 + c {
            SpecDec::Underrun
        } else {
            SpecDec::Got { v: s.subrange(1, 1 + c), n: 1 + c }
        }
    }
}

pub proof fn lemma_security_types_round_trip(v: Seq<u8>, rest: Seq<u8>)
    requires
        security_types_wf(v),
    ensures
        dec_security_types(ser_security_types(v) + rest) == (SpecDec::Got {
            v,
            n: 1 + v.len() as int,
        }),
{
    let s = ser_security_types(v) + rest;
    assert(s[0] == v.len() as u8);
    assert(s.subrange(1, 1 + v.len() as int) =~= v);
}

pub proof fn lemma_security_types_underrun(v: Seq<u8>, n: int)
    requires
        security_types_wf(v),
        0 <= n < ser_security_types(v).len(),
    ensures
        dec_security_types(ser_security_types(v).take(n)) is Underrun,
{
    let p = ser_security_types(v).take(n);
    if n >= 1 {
        assert(p[0] == v.len() as u8);
    }
}

impl SecurityTypes {
    pub fn read_from(buf: &mut ReadBuf) -> (r: Result<SecurityTypes, DecodeError>)
        ensures
            match r {
                Ok(m) => dec_commits(dec_security_types(old(buf)@), m@, old(buf)@, final(buf)@)
                    && security_types_wf(m@),
                Err(e) => *final(buf) == *old(buf) && dec_fails(dec_security_types(old(buf)@), e),
            },
    {
        let n = buf.remaining();
        if n < 1 {
            return Err(DecodeError::InsufficientBytes);
        }
        let c = buf.byte_at(0) as usize;
        if n < 1 + c {
            return Err(DecodeError::InsufficientBytes);
        }
        let bytes = buf.take_vec(1, c);
        buf.advance(1 + c);
        Ok(SecurityTypes(bytes))
    }

    pub fn write_to(&self, buf: &mut Vec<u8>)
        requires
            security_types_wf(self@),
        ensures
            final(buf)@ == old(buf)@ + ser_security_types(self@),
    {
        put_u8(buf, self.0.len() as u8);
        put_bytes(buf, &self.0);
        proof {
            assert(buf@ =~= old(buf)@ + ser_security_types(self@));
        }
    }
}

// ---------------------------------------------------------------------------
// SecurityType
// ---------------------------------------------------------------------------

/// The client's chosen security type, one byte. Type 1 is "None".
#[derive(Debug, Clone, Copy, PartialEq, Eq, Structural)]
pub struct SecurityType(pub u8);

pub open spec fn ser_security_type(m: SecurityType) -> Seq<u8> {
    seq![m.0]
}

pub open spec fn dec_security_type(s: Seq<u8>) -> SpecDec<SecurityType> {
    if s.len() < 1 {
        SpecDec::Underrun
    } else {
        SpecDec::Got { v: SecurityType(s[0]), n: 1 }
    }
}

pub proof fn lemma_security_type_round_trip(m: SecurityType, rest: Seq<u8>)
    ensures
        dec_security_type(ser_security_type(m) + rest) == (SpecDec::Got { v: m, n: 1int }),
{
}

pub proof fn lemma_security_type_underrun(m: SecurityType, n: int)
    requires
        0 <= n < ser_security_type(m).len(),
    ensures
        dec_security_type(ser_security_type(m).take(n)) is Underrun,
{
}

impl SecurityType {
    pub fn read_from(buf: &mut ReadBuf) -> (r: Result<SecurityType, DecodeError>)
        ensures
            match r {
                Ok(m) => dec_commits(dec_security_type(old(buf)@), m, old(buf)@, final(buf)@),
                Err(e) => *final(buf) == *old(buf) && dec_fails(dec_security_type(old(buf)@), e),
            },
    {
        let n = buf.remaining();
        if n < 1 {
            return Err(DecodeError::InsufficientBytes);
        }
        let b = buf.byte_at(0);
        buf.advance(1);
        Ok(SecurityType(b))
    }

    pub fn write_to(&self, buf: &mut Vec<u8>)
        ensures
            final(buf)@ == old(buf)@ + ser_security_type(*self),
    {
        put_u8(buf, self.0);
    }
}

// ---------------------------------------------------------------------------
// SecurityResult
// ---------------------------------------------------------------------------

/// The server's 4-byte security status: 0 is OK, 1 is failed. In the
/// 3.3 handshake the same shape carries the server-chosen security type,
/// where 0 means refusal.
#[derive(Debug, Clone, Copy, PartialEq, Eq, Structural)]
pub struct SecurityResult(pub u32);

pub open spec fn ser_security_result(m: SecurityResult) -> Seq<u8> {
    ser_u32(m.0)
}

pub open spec fn dec_security_result(s: Seq<u8>) -> SpecDec<SecurityResult> {
    if s.len() < 4 {
        SpecDec::Underrun
    } else {
        SpecDec::Got { v: SecurityResult(be32_at(s, 0)), n: 4 }
    }
}

pub proof fn lemma_security_result_round_trip(m: SecurityResult, rest: Seq<u8>)
    ensures
        dec_security_result(ser_security_result(m) + rest) == (SpecDec::Got { v: m, n: 4int }),
{
    let s = ser_security_result(m) + rest;
    lemma_be32_ser(s, 0, m.0);
}

pub proof fn lemma_security_result_underrun(m: SecurityResult, n: int)
    requires
        0 <= n < ser_security_result(m).len(),
    ensures
        dec_security_result(ser_security_result(m).take(n)) is Underrun,
{
}

impl SecurityResult {
    pub fn read_from(buf: &mut ReadBuf) -> (r: Result<SecurityResult, DecodeError>)
        ensures
            match r {
                Ok(m) => dec_commits(dec_security_result(old(buf)@), m, old(buf)@, final(buf)@),
                Err(e) => *final(buf) == *old(buf) && dec_fails(dec_security_result(old(buf)@), e),
            },
    {
        let n = buf.remaining();
        if n < 4 {
            return Err(DecodeError::InsufficientBytes);
        }
        let v = buf.get_u32_at(0);
        buf.advance(4);
        Ok(SecurityResult(v))
    }

    pub fn write_to(&self, buf: &mut Vec<u8>)
        ensures
            final(buf)@ == old(buf)@ + ser_security_result(*self),
    {
        put_u32(buf, self.0);
    }
}

// ---------------------------------------------------------------------------
// ClientInit
// ---------------------------------------------------------------------------

/// The client's 1-byte shared-session flag.
#[derive(Debug, Clone, Copy, PartialEq, Eq, Structural)]
pub struct ClientInit {
    pub shared: bool,
}

pub open spec fn ser_client_init(m: ClientInit) -> Seq<u8> {
    seq![if m.shared { 1u8 } else { 0u8 }]
}

pub open spec fn dec_client_init(s: Seq<u8>) -> SpecDec<ClientInit> {
    if s.len() < 1 {
        SpecDec::Underrun
    } else {
        SpecDec::Got { v: ClientInit { shared: s[0] != 0 }, n: 1 }
    }
}

pub proof fn lemma_client_init_round_trip(m: ClientInit, rest: Seq<u8>)
    ensures
        dec_client_init(ser_client_init(m) + rest) == (SpecDec::Got { v: m, n: 1int }),
{
    let s = ser_client_init(m) + rest;
    assert(s[0] == (if m.shared { 1u8 } else { 0u8 }));
}

pub proof fn lemma_client_init_underrun(m: ClientInit, n: int)
    requires
        0 <= n < ser_client_init(m).len(),
    ensures
        dec_client_init(ser_client_init(m).take(n)) is Underrun,
{
}

impl ClientInit {
    pub fn read_from(buf: &mut ReadBuf) -> (r: Result<ClientInit, DecodeError>)
        ensures
            match r {
                Ok(m) => dec_commits(dec_client_init(old(buf)@), m, old(buf)@, final(buf)@),
                Err(e) => *final(buf) == *old(buf) && dec_fails(dec_client_init(old(buf)@), e),
            },
    {
        let n = buf.remaining();
        if n < 1 {
            return Err(DecodeError::InsufficientBytes);
        }
        let b = buf.byte_at(0);
        buf.advance(1);
        Ok(ClientInit { shared: b != 0 })
    }

    pub fn write_to(&self, buf: &mut Vec<u8>)
        ensures
            final(buf)@ == old(buf)@ + ser_client_init(*self),
    {
        put_u8(buf, if self.shared { 1 } else { 0 });
    }
}

// ---------------------------------------------------------------------------
// ServerInit
// ---------------------------------------------------------------------------

/// The server's opening message: framebuffer size, pixel format, and the
/// desktop name (arbitrary bytes behind a 4-byte length).
#[derive(Debug, Clone, PartialEq, Eq)]
pub struct ServerInit {
    pub framebuffer_width: u16,
    pub framebuffer_height: u16,
    pub pixel_format: PixelFormat,
    pub name: Vec<u8>,
}

/// Mathematical image of a [`ServerInit`].
pub struct ServerInitV {
    pub framebuffer_width: u16,
    pub framebuffer_height: u16,
    pub pixel_format: PixelFormat,
    pub name: Seq<u8>,
}

impl View for ServerInit {
    type V = ServerInitV;

    open spec fn view(&self) -> ServerInitV {
        ServerInitV {
            framebuffer_width: self.framebuffer_width,
            framebuffer_height: self.framebuffer_height,
            pixel_format: self.pixel_format,
            name: self.name@,
        }
    }
}

/// The name must fit behind its 4-byte length prefix.
pub open spec fn server_init_wf(v: ServerInitV) -> bool {
    v.name.len() < 0x1_0000_0000
}

pub open spec fn ser_server_init(v: ServerInitV) -> Seq<u8> {
    ser_u16(v.framebuffer_width) + ser_u16(v.framebuffer_height) + ser_pf(v.pixel_format)
        + ser_u32(v.name.len() as u32) + v.name
}

pub open spec fn dec_server_init(s: Seq<u8>) -> SpecDec<ServerInitV> {
    if s.len() < 24 {
        SpecDec::Underrun
    } else {
        let nlen = be32_at(s, 20) as int;
        if s.len() < 24 + nlen {
            SpecDec::Underrun
        } else {
            SpecDec::Got {
                v: ServerInitV {
                    framebuffer_width: be16_at(s, 0),
                    framebuffer_height: be16_at(s, 2),
                    pixel_format: dec_pf_at(s, 4),
                    name: s.subrange(24, 24 + nlen),
                },
                n: 24 + nlen,
            }
        }
    }
}

pub proof fn lemma_server_init_round_trip(v: ServerInitV, rest: Seq<u8>)
    requires
        server_init_wf(v),
    ensures
        dec_server_init(ser_server_init(v) + rest) == (SpecDec::Got {
            v,
            n: 24 + v.name.len() as int,
        }),
{
    let t = ser_server_init(v);
    let s = t + rest;
    let nl = v.name.len() as u32;
    assert(t.len() == 24 + v.name.len());
    assert(s[0] == hi8(v.framebuffer_width) && s[1] == lo8(v.framebuffer_width));
    lemma_be16_ser(s, 0, v.framebuffer_width);
    assert(s[2] == hi8(v.framebuffer_height) && s[3] == lo8(v.framebuffer_height));
    lemma_be16_ser(s, 2, v.framebuffer_height);
    assert(s[20] == ser_u32(nl)[0] && s[21] == ser_u32(nl)[1] && s[22] == ser_u32(nl)[2] && s[23]
        == ser_u32(nl)[3]);
    lemma_be32_ser(s, 20, nl);
    assert(forall|k: int| 0 <= k < 16 ==> s[4 + k] == #[trigger] ser_pf(v.pixel_format)[k]);
    lemma_pf_at_ser(s, 4, v.pixel_format);
    assert(s.subrange(24, 24 + v.name.len() as int) =~= v.name);
}

pub proof fn lemma_server_init_underrun(v: ServerInitV, n: int)
    requires
        server_init_wf(v),
        0 <= n < ser_server_init(v).len(),
    ensures
        dec_server_init(ser_server_init(v).take(n)) is Underrun,
{
    let t = ser_server_init(v);
    let p = t.take(n);
    let nl = v.name.len() as u32;
    if n >= 24 {
        assert(p[20] == ser_u32(nl)[0] && p[21] == ser_u32(nl)[1] && p[22] == ser_u32(nl)[2]
            && p[23] == ser_u32(nl)[3]);
        lemma_be32_ser(p, 20, nl);
    }
}

impl ServerInit {
    pub fn read_from(buf: &mut ReadBuf) -> (r: Result<ServerInit, DecodeError>)
        ensures
            match r {
                Ok(m) => dec_commits(dec_server_init(old(buf)@), m@, old(buf)@, final(buf)@)
                    && server_init_wf(m@),
                Err(e) => *final(buf) == *old(buf) && dec_fails(dec_server_init(old(buf)@), e),
            },
    {
        let n = buf.remaining();
        if n < 24 {
            return Err(DecodeError::InsufficientBytes);
        }
        let nlen = buf.get_u32_at(20) as usize;
        if n - 24 < nlen {
            return Err(DecodeError::InsufficientBytes);
        }
        let m = ServerInit {
            framebuffer_width: buf.get_u16_at(0),
            framebuffer_height: buf.get_u16_at(2),
            pixel_format: pf_read_at(buf, 4),
            name: buf.take_vec(24, nlen),
        };
        buf.advance(24 + nlen);
        Ok(m)
    }

    pub fn write_to(&self, buf: &mut Vec<u8>)
        requires
            server_init_wf(self@),
        ensures
            final(buf)@ == old(buf)@ + ser_server_init(self@),
    {
        put_u16(buf, self.framebuffer_width);
        put_u16(buf, self.framebuffer_height);
        self.pixel_format.write_to(buf);
        put_u32(buf, self.name.len() as u32);
        put_bytes(buf, &self.name);
        proof {
            assert(buf@ =~= old(buf)@ + ser_server_init(self@));
        }
    }
}

// ---------------------------------------------------------------------------
// CopyRect payload
// ---------------------------------------------------------------------------

/// The 4-byte payload of a `CopyRect` rectangle: the source position.
#[derive(Debug, Clone, Copy, PartialEq, Eq, Structural)]
pub struct CopyRect {
    pub src_x: u16,
    pub src_y: u16,
}

pub open spec fn ser_copy_rect(m: CopyRect) -> Seq<u8> {
    ser_u16(m.src_x) + ser_u16(m.src_y)
}

pub open spec fn dec_copy_rect(s: Seq<u8>) -> SpecDec<CopyRect> {
    if s.len() < 4 {
        SpecDec::Underrun
    } else {
        SpecDec::Got { v: CopyRect { src_x: be16_at(s, 0), src_y: be16_at(s, 2) }, n: 4 }
    }
}

pub proof fn lemma_copy_rect_round_trip(m: CopyRect, rest: Seq<u8>)
    ensures
        dec_copy_rect(ser_copy_rect(m) + rest) == (SpecDec::Got { v: m, n: 4int }),
{
    let s = ser_copy_rect(m) + rest;
    lemma_be16_ser(s, 0, m.src_x);
    lemma_be16_ser(s, 2, m.src_y);
}

pub proof fn lemma_copy_rect_underrun(m: CopyRect, n: int)
    requires
        0 <= n < ser_copy_rect(m).len(),
    ensures
        dec_copy_rect(ser_copy_rect(m).take(n)) is Underrun,
{
}

impl CopyRect {
    pub fn read_from(buf: &mut ReadBuf) -> (r: Result<CopyRect, DecodeError>)
        ensures
            match r {
                Ok(m) => dec_commits(dec_copy_rect(old(buf)@), m, old(buf)@, final(buf)@),
                Err(e) => *final(buf) == *old(buf) && dec_fails(dec_copy_rect(old(buf)@), e),
            },
    {
        let n = buf.remaining();
        if n < 4 {
            return Err(DecodeError::InsufficientBytes);
        }
        let m = CopyRect { src_x: buf.get_u16_at(0), src_y: buf.get_u16_at(2) };
        buf.advance(4);
        Ok(m)
    }

    pub fn write_to(&self, buf: &mut Vec<u8>)
        ensures
            final(buf)@ == old(buf)@ + ser_copy_rect(*self),
    {
        put_u16(buf, self.src_x);
        put_u16(buf, self.src_y);
        proof {
            assert(buf@ =~= old(buf)@ + ser_copy_rect(*self));
        }
    }
}

// ---------------------------------------------------------------------------
// Encoding
// ---------------------------------------------------------------------------

/// A rectangle encoding tag. Known tags get their own variant; every
/// other wire value is preserved as `Unknown`.
#[derive(Debug, Clone, Copy, PartialEq, Eq, Structural)]
pub enum Encoding {
    Unknown(i32),
    Raw,
    CopyRect,
    Rre,
    Hextile,
    Trle,
    Zrle,
    Cursor,
    DesktopSize,
}

/// The wire integer of an encoding.
pub open spec fn enc_code(e: Encoding) -> i32 {
    match e {
        Encoding::Raw => 0i32,
        Encoding::CopyRect => 1i32,
        Encoding::Rre => 2i32,
        Encoding::Hextile => 5i32,
        Encoding::Trle => 15i32,
        Encoding::Zrle => 16i32,
        Encoding::Cursor => -239i32,
        Encoding::DesktopSize => -223i32,
        Encoding::Unknown(n) => n,
    }
}

/// The encoding a wire integer denotes.
pub open spec fn enc_of_code(c: i32) -> Encoding {
    if c == 0 {
        Encoding::Raw
    } else if c == 1 {
        Encoding::CopyRect
    } else if c == 2 {
        Encoding::Rre
    } else if c == 5 {
        Encoding::Hextile
    } else if c == 15 {
        Encoding::Trle
    } else if c == 16 {
        Encoding::Zrle
    } else if c == -239 {
        Encoding::Cursor
    } else if c == -223 {
        Encoding::DesktopSize
    } else {
        Encoding::Unknown(c)
    }
}

/// Canonical form: `Unknown` never shadows a known tag.
pub open spec fn encoding_wf(e: Encoding) -> bool {
    e matches Encoding::Unknown(n) ==> enc_of_code(n) is Unknown
}

/// The wire integer maps back to the encoding it came from.
pub proof fn lemma_encoding_code_round(e: Encoding)
    requires
        encoding_wf(e),
    ensures
        enc_of_code(enc_code(e)) == e,
{
}

pub open spec fn ser_encoding(e: Encoding) -> Seq<u8> {
    ser_i32(enc_code(e))
}

pub open spec fn dec_encoding(s: Seq<u8>) -> SpecDec<Encoding> {
    if s.len() < 4 {
        SpecDec::Underrun
    } else {
        SpecDec::Got { v: enc_of_code(i32_at(s, 0)), n: 4 }
    }
}

pub proof fn lemma_encoding_round_trip(e: Encoding, rest: Seq<u8>)
    requires
        encoding_wf(e),
    ensures
        dec_encoding(ser_encoding(e) + rest) == (SpecDec::Got { v: e, n: 4int }),
{
    let s = ser_encoding(e) + rest;
    lemma_i32_ser(s, 0, enc_code(e));
    lemma_encoding_code_round(e);
}

pub proof fn lemma_encoding_underrun(e: Encoding, n: int)
    requires
        0 <= n < ser_encoding(e).len(),
    ensures
        dec_encoding(ser_encoding(e).take(n)) is Underrun,
{
}

/// The encoding denoted by wire integer `c`.
fn encoding_from_code(c: i32) -> (e: Encoding)
    ensures
        e == enc_of_code(c),
        encoding_wf(e),
{
    if c == 0 {
        Encoding::Raw
    } else if c == 1 {
        Encoding::CopyRect
    } else if c == 2 {
        Encoding::Rre
    } else if c == 5 {
        Encoding::Hextile
    } else if c == 15 {
        Encoding::Trle
    } else if c == 16 {
        Encoding::Zrle
    } else if c == -239 {
        Encoding::Cursor
    } else if c == -223 {
        Encoding::DesktopSize
    } else {
        Encoding::Unknown(c)
    }
}

impl Encoding {
    /// The wire integer of this encoding.
    pub fn code(&self) -> (c: i32)
        ensures
            c == enc_code(*self),
    {
        match self {
            Encoding::Raw => 0,
            Encoding::CopyRect => 1,
            Encoding::Rre => 2,
            Encoding::Hextile => 5,
            Encoding::Trle => 15,
            Encoding::Zrle => 16,
            Encoding::Cursor => -239,
            Encoding::DesktopSize => -223,
            Encoding::Unknown(n) => *n,
        }
    }

    pub fn read_from(buf: &mut ReadBuf) -> (r: Result<Encoding, DecodeError>)
        ensures
            match r {
                Ok(m) => dec_commits(dec_encoding(old(buf)@), m, old(buf)@, final(buf)@)
                    && encoding_wf(m),
                Err(e) => *final(buf) == *old(buf) && dec_fails(dec_encoding(old(buf)@), e),
            },
    {
        let n = buf.remaining();
        if n < 4 {
            return Err(DecodeError::InsufficientBytes);
        }
        let c = buf.get_i32_at(0);
        buf.advance(4);
        Ok(encoding_from_code(c))
    }

    pub fn write_to(&self, buf: &mut Vec<u8>)
        ensures
            final(buf)@ == old(buf)@ + ser_encoding(*self),
    {
        put_i32(buf, self.code());
    }
}

// ---------------------------------------------------------------------------
// Rectangle
// ---------------------------------------------------------------------------

/// One framebuffer-update rectangle header: position, size, encoding.
#[derive(Debug, Clone, Copy, PartialEq, Eq, Structural)]
pub struct Rectangle {
    pub x: u16,
    pub y: u16,
    pub width: u16,
    pub height: u16,
    pub encoding: Encoding,
}

pub open spec fn rectangle_wf(m: Rectangle) -> bool {
    encoding_wf(m.encoding)
}

pub open spec fn ser_rectangle(m: Rectangle) -> Seq<u8> {
    ser_u16(m.x) + ser_u16(m.y) + ser_u16(m.width) + ser_u16(m.height) + ser_i32(
        enc_code(m.encoding),
    )
}

pub open spec fn dec_rectangle(s: Seq<u8>) -> SpecDec<Rectangle> {
    if s.len() < 12 {
        SpecDec::Underrun
    } else {
        SpecDec::Got {
            v: Rectangle {
                x: be16_at(s, 0),
                y: be16_at(s, 2),
                width: be16_at(s, 4),
                height: be16_at(s, 6),
                encoding: enc_of_code(i32_at(s, 8)),
            },
            n: 12,
        }
    }
}

pub proof fn lemma_rectangle_round_trip(m: Rectangle, rest: Seq<u8>)
    requires
        rectangle_wf(m),
    ensures
        dec_rectangle(ser_rectangle(m) + rest) == (SpecDec::Got { v: m, n: 12int }),
{
    let s = ser_rectangle(m) + rest;
    lemma_be16_ser(s, 0, m.x);
    lemma_be16_ser(s, 2, m.y);
    lemma_be16_ser(s, 4, m.width);
    lemma_be16_ser(s, 6, m.height);
    let c = enc_code(m.encoding);
    assert(s[8] == ser_i32(c)[0] && s[9] == ser_i32(c)[1] && s[10] == ser_i32(c)[2] && s[11]
        == ser_i32(c)[3]);
    lemma_i32_ser(s, 8, c);
    lemma_encoding_code_round(m.encoding);
}

pub proof fn lemma_rectangle_underrun(m: Rectangle, n: int)
    requires
        rectangle_wf(m),
        0 <= n < ser_rectangle(m).len(),
    ensures
        dec_rectangle(ser_rectangle(m).take(n)) is Underrun,
{
}

impl Rectangle {
    pub fn read_from(buf: &mut ReadBuf) -> (r: Result<Rectangle, DecodeError>)
        ensures
            match r {
                Ok(m) => dec_commits(dec_rectangle(old(buf)@), m, old(buf)@, final(buf)@)
                    && rectangle_wf(m),
                Err(e) => *final(buf) == *old(buf) && dec_fails(dec_rectangle(old(buf)@), e),
            },
    {
        let n = buf.remaining();
        if n < 12 {
            return Err(DecodeError::InsufficientBytes);
        }
        let m = Rectangle {
            x: buf.get_u16_at(0),
            y: buf.get_u16_at(2),
            width: buf.get_u16_at(4),
            height: buf.get_u16_at(6),
            encoding: encoding_from_code(buf.get_i32_at(8)),
        };
        buf.advance(12);
        Ok(m)
    }

    pub fn write_to(&self, buf: &mut Vec<u8>)
        ensures
            final(buf)@ == old(buf)@ + ser_rectangle(*self),
    {
        put_u16(buf, self.x);
        put_u16(buf, self.y);
        put_u16(buf, self.width);
        put_u16(buf, self.height);
        put_i32(buf, self.encoding.code());
        proof {
            assert(buf@ =~= old(buf)@ + ser_rectangle(*self));
        }
    }

    /// Number of payload bytes that follow this rectangle's header, for
    /// the encodings the proxy sizes itself.
    pub open spec fn spec_payload_size(&self, format: PixelFormat) -> int {
        match self.encoding {
            Encoding::Raw => self.width * self.height * (format.bits_per_pixel / 8),
            Encoding::Cursor => self.width * self.height * (format.bits_per_pixel / 8) + ((
            self.width + 7) / 8) * self.height,
            Encoding::CopyRect => 4,
            _ => 0,
        }
    }

    /// Exact payload size of a `Raw`, `Cursor` or `CopyRect` rectangle:
    /// `Raw` carries `width*height*(bpp/8)` bytes, `Cursor` additionally
    /// a `ceil(width/8)*height` bitmask, `CopyRect` a 4-byte source
    /// position.
    pub fn payload_size(&self, format: &PixelFormat) -> (n: u64)
        requires
            self.encoding is Raw || self.encoding is Cursor || self.encoding is CopyRect,
        ensures
            n == self.spec_payload_size(*format),
    {
        let ghost w = self.width as int;
        let ghost h = self.height as int;
        let ghost b = format.bits_per_pixel as int / 8;
        proof {
            crate::wire::lemma_div_le_num(format.bits_per_pixel as int, 8);
            assert(w * h <= 0xffff * 0xffff) by (nonlinear_arith)
                requires
                    0 <= w <= 0xffff,
                    0 <= h <= 0xffff,
            ;
            assert(w * h * b <= 0xffff * 0xffff * 255) by (nonlinear_arith)
                requires
                    0 <= w <= 0xffff,
                    0 <= h <= 0xffff,
                    0 <= b <= 255,
            ;
        }
        let bytes_pp = (format.bits_per_pixel / 8) as u64;
        match self.encoding {
            Encoding::Raw => (self.width as u64) * (self.height as u64) * bytes_pp,
            Encoding::Cursor => {
                let mask_row = ((self.width as u64) + 7) / 8;
                proof {
                    crate::wire::lemma_div_le_num(w + 7, 8);
                    assert(mask_row * h <= 65542 * 0xffff) by (nonlinear_arith)
                        requires
                            0 <= mask_row <= 65542,
                            0 <= h <= 0xffff,
                    ;
                }
                (self.width as u64) * (self.height as u64) * bytes_pp + mask_row * (
                self.height as u64)
            },
            Encoding::CopyRect => 4,
            _ => {
                proof {
                    assert(false);
                }
                0
            },
        }
    }
}

// ---------------------------------------------------------------------------
// Zrle
// ---------------------------------------------------------------------------

/// A self-delimiting ZRLE payload: 4-byte length then opaque zlib data,
/// relayed without inspection.
#[derive(Debug, Clone, PartialEq, Eq)]
pub struct Zrle(pub Vec<u8>);

impl View for Zrle {
    type V = Seq<u8>;

    open spec fn view(&self) -> Seq<u8> {
        self.0@
    }
}

pub open spec fn zrle_wf(v: Seq<u8>) -> bool {
    v.len() < 0x1_0000_0000
}

pub open spec fn ser_zrle(v: Seq<u8>) -> Seq<u8> {
    ser_u32(v.len() as u32) + v
}

pub open spec fn dec_zrle(s: Seq<u8>) -> SpecDec<Seq<u8>> {
    if s.len() < 4 {
        SpecDec::Underrun
    } else {
        let l = be32_at(s, 0) as int;
        if s.len() < 4 + l {
            SpecDec::Underrun
        } else {
            SpecDec::Got { v: s.subrange(4, 4 + l), n: 4 + l }
        }
    }
}

pub proof fn lemma_zrle_round_trip(v: Seq<u8>, rest: Seq<u8>)
    requires
        zrle_wf(v),
    ensures
        dec_zrle(ser_zrle(v) + rest) == (SpecDec::Got { v, n: 4 + v.len() as int }),
{
    let s = ser_zrle(v) + rest;
    let l = v.len() as u32;
    assert(s[0] == ser_u32(l)[0] && s[1] == ser_u32(l)[1] && s[2] == ser_u32(l)[2] && s[3]
        == ser_u32(l)[3]);
    lemma_be32_ser(s, 0, l);
    assert(s.subrange(4, 4 + v.len() as int) =~= v);
}

pub proof fn lemma_zrle_underrun(v: Seq<u8>, n: int)
    requires
        zrle_wf(v),
        0 <= n < ser_zrle(v).len(),
    ensures
        dec_zrle(ser_zrle(v).take(n)) is Underrun,
{
    let p = ser_zrle(v).take(n);
    let l = v.len() as u32;
    if n >= 4 {
        assert(p[0] == ser_u32(l)[0] && p[1] == ser_u32(l)[1] && p[2] == ser_u32(l)[2] && p[3]
            == ser_u32(l)[3]);
        lemma_be32_ser(p, 0, l);
    }
}

impl Zrle {
    pub fn read_from(buf: &mut ReadBuf) -> (r: Result<Zrle, DecodeError>)
        ensures
            match r {
                Ok(m) => dec_commits(dec_zrle(old(buf)@), m@, old(buf)@, final(buf)@) && zrle_wf(
                    m@,
                ),
                Err(e) => *final(buf) == *old(buf) && dec_fails(dec_zrle(old(buf)@), e),
            },
    {
        let n = buf.remaining();
        if n < 4 {
            return Err(DecodeError::InsufficientBytes);
        }
        let l = buf.get_u32_at(0) as usize;
        if n - 4 < l {
            return Err(DecodeError::InsufficientBytes);
        }
        let data = buf.take_vec(4, l);
        buf.advance(4 + l);
        Ok(Zrle(data))
    }

    pub fn write_to(&self, buf: &mut Vec<u8>)
        requires
            zrle_wf(self@),
        ensures
            final(buf)@ == old(buf)@ + ser_zrle(self@),
    {
        put_u32(buf, self.0.len() as u32);
        put_bytes(buf, &self.0);
        proof {
            assert(buf@ =~= old(buf)@ + ser_zrle(self@));
        }
    }
}

// ---------------------------------------------------------------------------
// Length-prefixed strings
// ---------------------------------------------------------------------------

/// A length-prefixed string as RFB writes one: a 4-byte big-endian
/// length then that many bytes. The bytes are Latin-1 on the wire and
/// are accepted and relayed as they are.
#[derive(Debug, Clone, PartialEq, Eq)]
pub struct RfbString(pub Vec<u8>);

impl View for RfbString {
    type V = Seq<u8>;

    open spec fn view(&self) -> Seq<u8> {
        self.0@
    }
}

pub open spec fn string_wf(v: Seq<u8>) -> bool {
    v.len() < 0x1_0000_0000
}

pub open spec fn ser_string(v: Seq<u8>) -> Seq<u8> {
    ser_u32(v.len() as u32) + v
}

pub open spec fn dec_string(s: Seq<u8>) -> SpecDec<Seq<u8>> {
    if s.len() < 4 {
        SpecDec::Underrun
    } else {
        let l = be32_at(s, 0) as int;
        if s.len() < 4 + l {
            SpecDec::Underrun
        } else {
            SpecDec::Got { v: s.subrange(4, 4 + l), n: 4 + l }
        }
    }
}

pub proof fn lemma_string_round_trip(v: Seq<u8>, rest: Seq<u8>)
    requires
        string_wf(v),
    ensures
        dec_string(ser_string(v) + rest) == (SpecDec::Got { v, n: 4 + v.len() as int }),
{
    let s = ser_string(v) + rest;
    let l = v.len() as u32;
    assert(s[0] == ser_u32(l)[0] && s[1] == ser_u32(l)[1] && s[2] == ser_u32(l)[2] && s[3]
        == ser_u32(l)[3]);
    lemma_be32_ser(s, 0, l);
    assert(s.subrange(4, 4 + v.len() as int) =~= v);
}

pub proof fn lemma_string_underrun(v: Seq<u8>, n: int)
    requires
        string_wf(v),
        0 <= n < ser_string(v).len(),
    ensures
        dec_string(ser_string(v).take(n)) is Underrun,
{
    let p = ser_string(v).take(n);
    let l = v.len() as u32;
    if n >= 4 {
        assert(p[0] == ser_u32(l)[0] && p[1] == ser_u32(l)[1] && p[2] == ser_u32(l)[2] && p[3]
            == ser_u32(l)[3]);
        lemma_be32_ser(p, 0, l);
    }
}

impl RfbString {
    pub fn read_from(buf: &mut ReadBuf) -> (r: Result<RfbString, DecodeError>)
        ensures
            match r {
                Ok(m) => dec_commits(dec_string(old(buf)@), m@, old(buf)@, final(buf)@)
                    && string_wf(m@),
                Err(e) => *final(buf) == *old(buf) && dec_fails(dec_string(old(buf)@), e),
            },
    {
        let n = buf.remaining();
        if n < 4 {
            return Err(DecodeError::InsufficientBytes);
        }
        let l = buf.get_u32_at(0) as usize;
        if n - 4 < l {
            return Err(DecodeError::InsufficientBytes);
        }
        let data = buf.take_vec(4, l);
        buf.advance(4 + l);
        Ok(RfbString(data))
    }

    pub fn write_to(&self, buf: &mut Vec<u8>)
        requires
            string_wf(self@),
        ensures
            final(buf)@ == old(buf)@ + ser_string(self@),
    {
        put_u32(buf, self.0.len() as u32);
        put_bytes(buf, &self.0);
        proof {
            assert(buf@ =~= old(buf)@ + ser_string(self@));
        }
    }
}

// ---------------------------------------------------------------------------
// C2S messages
// ---------------------------------------------------------------------------

/// A client-to-server message.
#[derive(Debug, Clone, PartialEq, Eq)]
pub enum C2S {
    /// Type 0: replace the session pixel format (3 pad bytes, then 16).
    SetPixelFormat(PixelFormat),
    /// Type 2: the encodings the client can handle (1 pad, u16 count,
    /// count signed 32-bit tags).
    SetEncodings(Vec<Encoding>),
    /// Type 3: ask for a framebuffer update of a region (9 bytes).
    FramebufferUpdateRequest { incremental: bool, x: u16, y: u16, width: u16, height: u16 },
    /// Type 4: a key went down or up (1 flag, 2 pad, 4 keysym).
    KeyEvent { down: bool, key: u32 },
    /// Type 5: pointer moved or buttons changed (1 mask, 2 x, 2 y).
    PointerEvent { button_mask: u8, x: u16, y: u16 },
    /// Type 6: clipboard text (3 pad, then length-prefixed bytes).
    CutText(Vec<u8>),
}

/// Mathematical image of a [`C2S`] message.
pub enum C2SV {
    SetPixelFormat(PixelFormat),
    SetEncodings(Seq<Encoding>),
    FramebufferUpdateRequest { incremental: bool, x: u16, y: u16, width: u16, height: u16 },
    KeyEvent { down: bool, key: u32 },
    PointerEvent { button_mask: u8, x: u16, y: u16 },
    CutText(Seq<u8>),
}

impl View for C2S {
    type V = C2SV;

    open spec fn view(&self) -> C2SV {
        match self {
            C2S::SetPixelFormat(pf) => C2SV::SetPixelFormat(*pf),
            C2S::SetEncodings(l) => C2SV::SetEncodings(l@),
            C2S::FramebufferUpdateRequest { incremental, x, y, width, height } => (
            C2SV::FramebufferUpdateRequest {
                incremental: *incremental,
                x: *x,
                y: *y,
                width: *width,
                height: *height,
            }),
            C2S::KeyEvent { down, key } => C2SV::KeyEvent { down: *down, key: *key },
            C2S::PointerEvent { button_mask, x, y } => (C2SV::PointerEvent {
                button_mask: *button_mask,
                x: *x,
                y: *y,
            }),
            C2S::CutText(t) => C2SV::CutText(t@),
        }
    }
}

/// Encoding lists fit their u16 count and are in canonical form; cut
/// text fits its u32 length.
pub open spec fn c2s_wf(v: C2SV) -> bool {
    match v {
        C2SV::SetEncodings(l) => l.len() <= 0xffff && (forall|i: int|
            0 <= i < l.len() ==> encoding_wf(#[trigger] l[i])),
        C2SV::CutText(t) => t.len() < 0x1_0000_0000,
        _ => true,
    }
}

/// Wire bytes of a list of encoding tags, one 4-byte tag each.
pub open spec fn ser_encs(l: Seq<Encoding>) -> Seq<u8>
    decreases l.len(),
{
    if l.len() == 0 {
        Seq::empty()
    } else {
        ser_i32(enc_code(l[0])) + ser_encs(l.skip(1))
    }
}

pub proof fn lemma_ser_encs_len(l: Seq<Encoding>)
    ensures
        ser_encs(l).len() == 4 * l.len(),
    decreases l.len(),
{
    if l.len() > 0 {
        lemma_ser_encs_len(l.skip(1));
    }
}

/// Appending one tag appends its four bytes.
pub proof fn lemma_ser_encs_snoc(l: Seq<Encoding>, e: Encoding)
    ensures
        ser_encs(l.push(e)) == ser_encs(l) + ser_i32(enc_code(e)),
    decreases l.len(),
{
    if l.len() == 0 {
        let tail = l.push(e).skip(1);
        assert(l.push(e)[0] == e);
        assert(tail =~= Seq::<Encoding>::empty());
        lemma_ser_encs_len(tail);
        assert(ser_encs(tail) =~= Seq::<u8>::empty());
        assert(ser_encs(l.push(e)) =~= ser_encs(l) + ser_i32(enc_code(e)));
    } else {
        assert(l.push(e)[0] == l[0]);
        assert(l.push(e).skip(1) =~= l.skip(1).push(e));
        lemma_ser_encs_snoc(l.skip(1), e);
        assert(ser_encs(l.push(e)) =~= ser_encs(l) + ser_i32(enc_code(e)));
    }
}

/// Byte `b` of tag `j` sits at offset `4*j + b`.
pub proof fn lemma_ser_encs_index(l: Seq<Encoding>, j: int, b: int)
    requires
        0 <= j < l.len(),
        0 <= b < 4,
    ensures
        ser_encs(l)[4 * j + b] == ser_i32(enc_code(l[j]))[b],
    decreases j,
{
    lemma_ser_encs_len(l.skip(1));
    if j > 0 {
        lemma_ser_encs_index(l.skip(1), j - 1, b);
        assert(l.skip(1)[j - 1] == l[j]);
    }
}

pub open spec fn ser_c2s(v: C2SV) -> Seq<u8> {
    match v {
        C2SV::SetPixelFormat(pf) => seq![0u8, 0u8, 0u8, 0u8] + ser_pf(pf),
        C2SV::SetEncodings(l) => seq![2u8, 0u8] + ser_u16(l.len() as u16) + ser_encs(l),
        C2SV::FramebufferUpdateRequest { incremental, x, y, width, height } => seq![
            3u8,
            if incremental { 1u8 } else { 0u8 },
        ] + ser_u16(x) + ser_u16(y) + ser_u16(width) + ser_u16(height),
        C2SV::KeyEvent { down, key } => seq![4u8, if down { 1u8 } else { 0u8 }, 0u8, 0u8]
            + ser_u32(key),
        C2SV::PointerEvent { button_mask, x, y } => seq![5u8, button_mask] + ser_u16(x) + ser_u16(
            y,
        ),
        C2SV::CutText(t) => seq![6u8, 0u8, 0u8, 0u8] + ser_u32(t.len() as u32) + t,
    }
}

pub open spec fn dec_c2s(s: Seq<u8>) -> SpecDec<C2SV> {
    if s.len() < 1 {
        SpecDec::Underrun
    } else if s[0] == 0 {
        if s.len() < 20 {
            SpecDec::Underrun
        } else {
            SpecDec::Got { v: C2SV::SetPixelFormat(dec_pf_at(s, 4)), n: 20 }
        }
    } else if s[0] == 2 {
        if s.len() < 4 {
            SpecDec::Underrun
        } else {
            let c = be16_at(s, 2) as int;
            if s.len() < 4 + 4 * c {
                SpecDec::Underrun
            } else {
                SpecDec::Got {
                    v: C2SV::SetEncodings(
                        Seq::new(c as nat, |k: int| enc_of_code(i32_at(s, 4 + 4 * k))),
                    ),
                    n: 4 + 4 * c,
                }
            }
        }
    } else if s[0] == 3 {
        if s.len() < 10 {
            SpecDec::Underrun
        } else {
            SpecDec::Got {
                v: C2SV::FramebufferUpdateRequest {
                    incremental: s[1] != 0,
                    x: be16_at(s, 2),
                    y: be16_at(s, 4),
                    width: be16_at(s, 6),
                    height: be16_at(s, 8),
                },
                n: 10,
            }
        }
    } else if s[0] == 4 {
        if s.len() < 8 {
            SpecDec::Underrun
        } else {
            SpecDec::Got { v: C2SV::KeyEvent { down: s[1] != 0, key: be32_at(s, 4) }, n: 8 }
        }
    } else if s[0] == 5 {
        if s.len() < 6 {
            SpecDec::Underrun
        } else {
            SpecDec::Got {
                v: C2SV::PointerEvent { button_mask: s[1], x: be16_at(s, 2), y: be16_at(s, 4) },
                n: 6,
            }
        }
    } else if s[0] == 6 {
        if s.len() < 8 {
            SpecDec::Underrun
        } else {
            let tl = be32_at(s, 4) as int;
            if s.len() < 8 + tl {
                SpecDec::Underrun
            } else {
                SpecDec::Got { v: C2SV::CutText(s.subrange(8, 8 + tl)), n: 8 + tl }
            }
        }
    } else {
        SpecDec::Bad { err: DecodeError::UnsupportedC2S(s[0]) }
    }
}

/// Round-trip: every well-formed client message decodes back from its
/// own wire bytes, whatever follows them.
pub proof fn lemma_c2s_round_trip(v: C2SV, rest: Seq<u8>)
    requires
        c2s_wf(v),
    ensures
        dec_c2s(ser_c2s(v) + rest) == (SpecDec::Got { v, n: ser_c2s(v).len() as int }),
{
    let t = ser_c2s(v);
    let s = t + rest;
    match v {
        C2SV::SetPixelFormat(pf) => {
            assert(t.len() == 20);
            assert(s[0] == 0);
            assert(forall|k: int| 0 <= k < 16 ==> s[4 + k] == #[trigger] ser_pf(pf)[k]);
            lemma_pf_at_ser(s, 4, pf);
        },
        C2SV::SetEncodings(l) => {
            lemma_ser_encs_len(l);
            assert(t.len() == 4 + 4 * l.len());
            assert(s[0] == 2);
            let c16 = l.len() as u16;
            assert(s[2] == ser_u16(c16)[0] && s[3] == ser_u16(c16)[1]);
            lemma_be16_ser(s, 2, c16);
            assert forall|k: int| 0 <= k < l.len() implies enc_of_code(i32_at(s, 4 + 4 * k))
                == l[k] by {
                assert forall|b: int| 0 <= b < 4 implies s[4 + 4 * k + b] == ser_i32(
                    enc_code(l[k]),
                )[b] by {
                    lemma_ser_encs_index(l, k, b);
                    assert(s[4 + 4 * k + b] == ser_encs(l)[4 * k + b]);
                }
                assert(s[4 + 4 * k] == ser_i32(enc_code(l[k]))[0]);
                assert(s[4 + 4 * k + 1] == ser_i32(enc_code(l[k]))[1]);
                assert(s[4 + 4 * k + 2] == ser_i32(enc_code(l[k]))[2]);
                assert(s[4 + 4 * k + 3] == ser_i32(enc_code(l[k]))[3]);
                lemma_i32_ser(s, 4 + 4 * k, enc_code(l[k]));
                assert(encoding_wf(l[k]));
                lemma_encoding_code_round(l[k]);
            }
            assert(Seq::new(l.len() as nat, |k: int| enc_of_code(i32_at(s, 4 + 4 * k))) =~= l);
        },
        C2SV::FramebufferUpdateRequest { incremental, x, y, width, height } => {
            assert(t.len() == 10);
            assert(s[0] == 3);
            assert(s[1] == (if incremental { 1u8 } else { 0u8 }));
            lemma_be16_ser(s, 2, x);
            lemma_be16_ser(s, 4, y);
            lemma_be16_ser(s, 6, width);
            lemma_be16_ser(s, 8, height);
        },
        C2SV::KeyEvent { down, key } => {
            assert(t.len() == 8);
            assert(s[0] == 4);
            assert(s[1] == (if down { 1u8 } else { 0u8 }));
            assert(s[4] == ser_u32(key)[0] && s[5] == ser_u32(key)[1] && s[6] == ser_u32(key)[2]
                && s[7] == ser_u32(key)[3]);
            lemma_be32_ser(s, 4, key);
        },
        C2SV::PointerEvent { button_mask, x, y } => {
            assert(t.len() == 6);
            assert(s[0] == 5);
            lemma_be16_ser(s, 2, x);
            lemma_be16_ser(s, 4, y);
        },
        C2SV::CutText(txt) => {
            assert(t.len() == 8 + txt.len());
            assert(s[0] == 6);
            let tl = txt.len() as u32;
            assert(s[4] == ser_u32(tl)[0] && s[5] == ser_u32(tl)[1] && s[6] == ser_u32(tl)[2]
                && s[7] == ser_u32(tl)[3]);
            lemma_be32_ser(s, 4, tl);
            assert(s.subrange(8, 8 + txt.len() as int) =~= txt);
        },
    }
}

/// Underrun safety: every strict prefix of a well-formed client message
/// decodes to `InsufficientBytes`.
pub proof fn lemma_c2s_underrun(v: C2SV, n: int)
    requires
        c2s_wf(v),
        0 <= n < ser_c2s(v).len(),
    ensures
        dec_c2s(ser_c2s(v).take(n)) is Underrun,
{
    let t = ser_c2s(v);
    let p = t.take(n);
    match v {
        C2SV::SetPixelFormat(pf) => {
            if n >= 1 {
                assert(p[0] == 0);
            }
        },
        C2SV::SetEncodings(l) => {
            lemma_ser_encs_len(l);
            if n >= 1 {
                assert(p[0] == 2);
                if n >= 4 {
                    let c16 = l.len() as u16;
                    assert(p[2] == ser_u16(c16)[0] && p[3] == ser_u16(c16)[1]);
                    lemma_be16_ser(p, 2, c16);
                }
            }
        },
        C2SV::FramebufferUpdateRequest { .. } => {
            if n >= 1 {
                assert(p[0] == 3);
            }
        },
        C2SV::KeyEvent { .. } => {
            if n >= 1 {
                assert(p[0] == 4);
            }
        },
        C2SV::PointerEvent { .. } => {
            if n >= 1 {
                assert(p[0] == 5);
            }
        },
        C2SV::CutText(txt) => {
            if n >= 1 {
                assert(p[0] == 6);
                if n >= 8 {
                    let tl = txt.len() as u32;
                    assert(p[4] == ser_u32(tl)[0] && p[5] == ser_u32(tl)[1] && p[6] == ser_u32(
                        tl,
                    )[2] && p[7] == ser_u32(tl)[3]);
                    lemma_be32_ser(p, 4, tl);
                }
            }
        },
    }
}

impl C2S {
    pub fn read_from(buf: &mut ReadBuf) -> (r: Result<C2S, DecodeError>)
        ensures
            match r {
                Ok(m) => dec_commits(dec_c2s(old(buf)@), m@, old(buf)@, final(buf)@) && c2s_wf(
                    m@,
                ),
                Err(e) => *final(buf) == *old(buf) && dec_fails(dec_c2s(old(buf)@), e),
            },
    {
        let n = buf.remaining();
        if n < 1 {
            return Err(DecodeError::InsufficientBytes);
        }
        let t = buf.byte_at(0);
        if t == 0 {
            if n < 20 {
                return Err(DecodeError::InsufficientBytes);
            }
            let pf = pf_read_at(buf, 4);
            buf.advance(20);
            Ok(C2S::SetPixelFormat(pf))
        } else if t == 2 {
            if n < 4 {
                return Err(DecodeError::InsufficientBytes);
            }
            let c = buf.get_u16_at(2) as usize;
            if n - 4 < 4 * c {
                return Err(DecodeError::InsufficientBytes);
            }
            let mut encodings: Vec<Encoding> = Vec::new();
            let mut k: usize = 0;
            while k < c
                invariant
                    k <= c,
                    c <= 0xffff,
                    4 + 4 * c <= buf@.len(),
                    encodings@.len() == k,
                    forall|j: int|
                        0 <= j < k ==> #[trigger] encodings@[j] == enc_of_code(
                            i32_at(buf@, 4 + 4 * j),
                        ),
                decreases c - k,
            {
                let code = buf.get_i32_at(4 + 4 * k);
                encodings.push(encoding_from_code(code));
                k = k + 1;
            }
            proof {
                assert(encodings@ =~= Seq::new(
                    c as nat,
                    |j: int| enc_of_code(i32_at(buf@, 4 + 4 * j)),
                ));
            }
            buf.advance(4 + 4 * c);
            Ok(C2S::SetEncodings(encodings))
        } else if t == 3 {
            if n < 10 {
                return Err(DecodeError::InsufficientBytes);
            }
            let m = C2S::FramebufferUpdateRequest {
                incremental: buf.byte_at(1) != 0,
                x: buf.get_u16_at(2),
                y: buf.get_u16_at(4),
                width: buf.get_u16_at(6),
                height: buf.get_u16_at(8),
            };
            buf.advance(10);
            Ok(m)
        } else if t == 4 {
            if n < 8 {
                return Err(DecodeError::InsufficientBytes);
            }
            let m = C2S::KeyEvent { down: buf.byte_at(1) != 0, key: buf.get_u32_at(4) };
            buf.advance(8);
            Ok(m)
        } else if t == 5 {
            if n < 6 {
                return Err(DecodeError::InsufficientBytes);
            }
            let m = C2S::PointerEvent {
                button_mask: buf.byte_at(1),
                x: buf.get_u16_at(2),
                y: buf.get_u16_at(4),
            };
            buf.advance(6);
            Ok(m)
        } else if t == 6 {
            if n < 8 {
                return Err(DecodeError::InsufficientBytes);
            }
            let tl = buf.get_u32_at(4) as usize;
            if n - 8 < tl {
                return Err(DecodeError::InsufficientBytes);
            }
            let txt = buf.take_vec(8, tl);
            buf.advance(8 + tl);
            Ok(C2S::CutText(txt))
        } else {
            Err(DecodeError::UnsupportedC2S(t))
        }
    }

    pub fn write_to(&self, buf: &mut Vec<u8>)
        requires
            c2s_wf(self@),
        ensures
            final(buf)@ == old(buf)@ + ser_c2s(self@),
    {
        match self {
            C2S::SetPixelFormat(pf) => {
                put_u8(buf, 0);
                put_u8(buf, 0);
                put_u8(buf, 0);
                put_u8(buf, 0);
                pf.write_to(buf);
                proof {
                    assert(buf@ =~= old(buf)@ + ser_c2s(self@));
                }
            },
            C2S::SetEncodings(encodings) => {
                put_u8(buf, 2);
                put_u8(buf, 0);
                put_u16(buf, encodings.len() as u16);
                let ghost l = encodings@;
                let ghost head = old(buf)@ + seq![2u8, 0u8] + ser_u16(l.len() as u16);
                proof {
                    assert(l.take(0) =~= Seq::<Encoding>::empty());
                    assert(buf@ =~= head + ser_encs(l.take(0)));
                }
                let mut k: usize = 0;
                while k < encodings.len()
                    invariant
                        k <= encodings.len(),
                        encodings@ == l,
                        buf@ == head + ser_encs(l.take(k as int)),
                    decreases encodings.len() - k,
                {
                    let e = encodings[k];
                    put_i32(buf, e.code());
                    proof {
                        lemma_ser_encs_snoc(l.take(k as int), l[k as int]);
                        assert(l.take(k as int).push(l[k as int]) =~= l.take(k as int + 1));
                        assert(buf@ =~= head + ser_encs(l.take(k as int + 1)));
                    }
                    k = k + 1;
                }
                proof {
                    assert(l.take(encodings.len() as int) =~= l);
                    assert(buf@ =~= old(buf)@ + ser_c2s(self@));
                }
            },
            C2S::FramebufferUpdateRequest { incremental, x, y, width, height } => {
                put_u8(buf, 3);
                put_u8(buf, if *incremental { 1 } else { 0 });
                put_u16(buf, *x);
                put_u16(buf, *y);
                put_u16(buf, *width);
                put_u16(buf, *height);
                proof {
                    assert(buf@ =~= old(buf)@ + ser_c2s(self@));
                }
            },
            C2S::KeyEvent { down, key } => {
                put_u8(buf, 4);
                put_u8(buf, if *down { 1 } else { 0 });
                put_u8(buf, 0);
                put_u8(buf, 0);
                put_u32(buf, *key);
                proof {
                    assert(buf@ =~= old(buf)@ + ser_c2s(self@));
                }
            },
            C2S::PointerEvent { button_mask, x, y } => {
                put_u8(buf, 5);
                put_u8(buf, *button_mask);
                put_u16(buf, *x);
                put_u16(buf, *y);
                proof {
                    assert(buf@ =~= old(buf)@ + ser_c2s(self@));
                }
            },
            C2S::CutText(txt) => {
                put_u8(buf, 6);
                put_u8(buf, 0);
                put_u8(buf, 0);
                put_u8(buf, 0);
                put_u32(buf, txt.len() as u32);
                put_bytes(buf, txt);
                proof {
                    assert(buf@ =~= old(buf)@ + ser_c2s(self@));
                }
            },
        }
    }
}

// ---------------------------------------------------------------------------
// S2C messages
// ---------------------------------------------------------------------------

/// A server-to-client message header. A `FramebufferUpdate` announces
/// `count` rectangles which follow as separate reads.
#[derive(Debug, Clone, PartialEq, Eq)]
pub enum S2C {
    /// Type 0: `count` rectangles follow.
    FramebufferUpdate { count: u16 },
    /// Type 1: palette entries; `colors` holds 6 bytes per colour.
    SetColorMapEntries { first_color: u16, colors: Vec<u8> },
    /// Type 2: ring the bell.
    Bell,
    /// Type 3: clipboard text.
    CutText(Vec<u8>),
}

/// Mathematical image of an [`S2C`] message.
pub enum S2CV {
    FramebufferUpdate { count: u16 },
    SetColorMapEntries { first_color: u16, colors: Seq<u8> },
    Bell,
    CutText(Seq<u8>),
}

impl View for S2C {
    type V = S2CV;

    open spec fn view(&self) -> S2CV {
        match self {
            S2C::FramebufferUpdate { count } => S2CV::FramebufferUpdate { count: *count },
            S2C::SetColorMapEntries { first_color, colors } => (S2CV::SetColorMapEntries {
                first_color: *first_color,
                colors: colors@,
            }),
            S2C::Bell => S2CV::Bell,
            S2C::CutText(t) => S2CV::CutText(t@),
        }
    }
}

/// Colour payloads hold whole 6-byte entries and fit their u16 count;
/// cut text fits its u32 length.
pub open spec fn s2c_wf(v: S2CV) -> bool {
    match v {
        S2CV::SetColorMapEntries { colors, .. } => colors.len() % 6 == 0 && colors.len() / 6
            <= 0xffff,
        S2CV::CutText(t) => t.len() < 0x1_0000_0000,
        _ => true,
    }
}

pub open spec fn ser_s2c(v: S2CV) -> Seq<u8> {
    match v {
        S2CV::FramebufferUpdate { count } => seq![0u8, 0u8] + ser_u16(count),
        S2CV::SetColorMapEntries { first_color, colors } => seq![1u8, 0u8] + ser_u16(first_color)
            + ser_u16((colors.len() / 6) as u16) + colors,
        S2CV::Bell => seq![2u8],
        S2CV::CutText(t) => seq![3u8, 0u8, 0u8, 0u8] + ser_u32(t.len() as u32) + t,
    }
}

pub open spec fn dec_s2c(s: Seq<u8>) -> SpecDec<S2CV> {
    if s.len() < 1 {
        SpecDec::Underrun
    } else if s[0] == 0 {
        if s.len() < 4 {
            SpecDec::Underrun
        } else {
            SpecDec::Got { v: S2CV::FramebufferUpdate { count: be16_at(s, 2) }, n: 4 }
        }
    } else if s[0] == 1 {
        if s.len() < 6 {
            SpecDec::Underrun
        } else {
            let c = be16_at(s, 4) as int;
            if s.len() < 6 + 6 * c {
                SpecDec::Underrun
            } else {
                SpecDec::Got {
                    v: S2CV::SetColorMapEntries {
                        first_color: be16_at(s, 2),
                        colors: s.subrange(6, 6 + 6 * c),
                    },
                    n: 6 + 6 * c,
                }
            }
        }
    } else if s[0] == 2 {
        SpecDec::Got { v: S2CV::Bell, n: 1 }
    } else if s[0] == 3 {
        if s.len() < 8 {
            SpecDec::Underrun
        } else {
            let tl = be32_at(s, 4) as int;
            if s.len() < 8 + tl {
                SpecDec::Underrun
            } else {
                SpecDec::Got { v: S2CV::CutText(s.subrange(8, 8 + tl)), n: 8 + tl }
            }
        }
    } else {
        SpecDec::Bad { err: DecodeError::UnsupportedS2C(s[0]) }
    }
}

/// Round-trip: every well-formed server message decodes back from its
/// own wire bytes, whatever follows them.
pub proof fn lemma_s2c_round_trip(v: S2CV, rest: Seq<u8>)
    requires
        s2c_wf(v),
    ensures
        dec_s2c(ser_s2c(v) + rest) == (SpecDec::Got { v, n: ser_s2c(v).len() as int }),
{
    let t = ser_s2c(v);
    let s = t + rest;
    match v {
        S2CV::FramebufferUpdate { count } => {
            assert(t.len() == 4);
            assert(s[0] == 0);
            lemma_be16_ser(s, 2, count);
        },
        S2CV::SetColorMapEntries { first_color, colors } => {
            assert(t.len() == 6 + colors.len());
            assert(s[0] == 1);
            lemma_be16_ser(s, 2, first_color);
            let c16 = (colors.len() / 6) as u16;
            assert(s[4] == ser_u16(c16)[0] && s[5] == ser_u16(c16)[1]);
            lemma_be16_ser(s, 4, c16);
            lemma_fundamental_div_mod(colors.len() as int, 6);
            assert(6 * (colors.len() as int / 6) == colors.len());
            assert(s.subrange(6, 6 + colors.len() as int) =~= colors);
        },
        S2CV::Bell => {
            assert(s[0] == 2);
        },
        S2CV::CutText(txt) => {
            assert(t.len() == 8 + txt.len());
            assert(s[0] == 3);
            let tl = txt.len() as u32;
            assert(s[4] == ser_u32(tl)[0] && s[5] == ser_u32(tl)[1] && s[6] == ser_u32(tl)[2]
                && s[7] == ser_u32(tl)[3]);
            lemma_be32_ser(s, 4, tl);
            assert(s.subrange(8, 8 + txt.len() as int) =~= txt);
        },
    }
}

/// Underrun safety: every strict prefix of a well-formed server message
/// decodes to `InsufficientBytes`.
pub proof fn lemma_s2c_underrun(v: S2CV, n: int)
    requires
        s2c_wf(v),
        0 <= n < ser_s2c(v).len(),
    ensures
        dec_s2c(ser_s2c(v).take(n)) is Underrun,
{
    let t = ser_s2c(v);
    let p = t.take(n);
    match v {
        S2CV::FramebufferUpdate { .. } => {
            if n >= 1 {
                assert(p[0] == 0);
            }
        },
        S2CV::SetColorMapEntries { first_color, colors } => {
            if n >= 1 {
                assert(p[0] == 1);
                if n >= 6 {
                    let c16 = (colors.len() / 6) as u16;
                    assert(p[4] == ser_u16(c16)[0] && p[5] == ser_u16(c16)[1]);
                    lemma_be16_ser(p, 4, c16);
                    lemma_fundamental_div_mod(colors.len() as int, 6);
                }
            }
        },
        S2CV::Bell => {
        },
        S2CV::CutText(txt) => {
            if n >= 1 {
                assert(p[0] == 3);
                if n >= 8 {
                    let tl = txt.len() as u32;
                    assert(p[4] == ser_u32(tl)[0] && p[5] == ser_u32(tl)[1] && p[6] == ser_u32(
                        tl,
                    )[2] && p[7] == ser_u32(tl)[3]);
                    lemma_be32_ser(p, 4, tl);
                }
            }
        },
    }
}

impl S2C {
    pub fn read_from(buf: &mut ReadBuf) -> (r: Result<S2C, DecodeError>)
        ensures
            match r {
                Ok(m) => dec_commits(dec_s2c(old(buf)@), m@, old(buf)@, final(buf)@) && s2c_wf(
                    m@,
                ),
                Err(e) => *final(buf) == *old(buf) && dec_fails(dec_s2c(old(buf)@), e),
            },
    {
        let n = buf.remaining();
        if n < 1 {
            return Err(DecodeError::InsufficientBytes);
        }
        let t = buf.byte_at(0);
        if t == 0 {
            if n < 4 {
                return Err(DecodeError::InsufficientBytes);
            }
            let m = S2C::FramebufferUpdate { count: buf.get_u16_at(2) };
            buf.advance(4);
            Ok(m)
        } else if t == 1 {
            if n < 6 {
                return Err(DecodeError::InsufficientBytes);
            }
            let c = buf.get_u16_at(4) as usize;
            if n - 6 < 6 * c {
                return Err(DecodeError::InsufficientBytes);
            }
            let first_color = buf.get_u16_at(2);
            let colors = buf.take_vec(6, 6 * c);
            buf.advance(6 + 6 * c);
            proof {
                lemma_fundamental_div_mod(6 * c as int, 6);
            }
            Ok(S2C::SetColorMapEntries { first_color, colors })
        } else if t == 2 {
            buf.advance(1);
            Ok(S2C::Bell)
        } else if t == 3 {
            if n < 8 {
                return Err(DecodeError::InsufficientBytes);
            }
            let tl = buf.get_u32_at(4) as usize;
            if n - 8 < tl {
                return Err(DecodeError::InsufficientBytes);
            }
            let txt = buf.take_vec(8, tl);
            buf.advance(8 + tl);
            Ok(S2C::CutText(txt))
        } else {
            Err(DecodeError::UnsupportedS2C(t))
        }
    }

    pub fn write_to(&self, buf: &mut Vec<u8>)
        requires
            s2c_wf(self@),
        ensures
            final(buf)@ == old(buf)@ + ser_s2c(self@),
    {
        match self {
            S2C::FramebufferUpdate { count } => {
                put_u8(buf, 0);
                put_u8(buf, 0);
                put_u16(buf, *count);
                proof {
                    assert(buf@ =~= old(buf)@ + ser_s2c(self@));
                }
            },
            S2C::SetColorMapEntries { first_color, colors } => {
                put_u8(buf, 1);
                put_u8(buf, 0);
                put_u16(buf, *first_color);
                put_u16(buf, (colors.len() / 6) as u16);
                put_bytes(buf, colors);
                proof {
                    assert(buf@ =~= old(buf)@ + ser_s2c(self@));
                }
            },
            S2C::Bell => {
                put_u8(buf, 2);
                proof {
                    assert(buf@ =~= old(buf)@ + ser_s2c(self@));
                }
            },
            S2C::CutText(txt) => {
                put_u8(buf, 3);
                put_u8(buf, 0);
                put_u8(buf, 0);
                put_u8(buf, 0);
                put_u32(buf, txt.len() as u32);
                put_bytes(buf, txt);
                proof {
                    assert(buf@ =~= old(buf)@ + ser_s2c(self@));
                }
            },
        }
    }
}

} // verus!
