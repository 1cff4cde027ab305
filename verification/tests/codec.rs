//! Wire-level tests of the codec: exact byte images, round trips,
//! underrun behaviour and decode errors.

use rfb_proxy::rfb::{
    C2S, ClientInit, CopyRect, DecodeError, Encoding, PixelFormat, Rectangle, RfbString, S2C,
    SecurityResult, SecurityType, SecurityTypes, ServerInit, Version, Zrle,
};
use rfb_proxy::wire::ReadBuf;

fn sample_pf() -> PixelFormat {
    PixelFormat {
        bits_per_pixel: 32,
        depth: 24,
        big_endian: false,
        true_colour: true,
        red_max: 255,
        green_max: 255,
        blue_max: 255,
        red_shift: 16,
        green_shift: 8,
        blue_shift: 0,
    }
}

fn sample_pf_bytes() -> Vec<u8> {
    vec![32, 24, 0, 1, 0, 255, 0, 255, 0, 255, 16, 8, 0, 0, 0, 0]
}

/// Every strict prefix of `bytes` must decode to `InsufficientBytes`
/// and leave the buffer untouched.
fn check_underrun<T>(bytes: &[u8], read: fn(&mut ReadBuf) -> Result<T, DecodeError>) {
    for n in 0..bytes.len() {
        let mut buf = ReadBuf::new(bytes[..n].to_vec());
        match read(&mut buf) {
            Err(DecodeError::InsufficientBytes) => {}
            Err(e) => panic!("prefix of {} bytes: unexpected error {:?}", n, e),
            Ok(_) => panic!("prefix of {} bytes decoded", n),
        }
        assert_eq!(buf.consumed_len(), 0, "buffer moved on underrun");
        assert_eq!(buf.remaining(), n, "buffer changed on underrun");
    }
}

#[test]
fn pixel_format_bytes_and_round_trip() {
    let pf = sample_pf();
    let mut buf: Vec<u8> = Vec::new();
    pf.write_to(&mut buf);
    assert_eq!(buf, sample_pf_bytes());
    let mut rb = ReadBuf::new(buf);
    assert_eq!(PixelFormat::read_from(&mut rb).unwrap(), pf);
    assert_eq!(rb.remaining(), 0);
}

#[test]
fn pixel_format_underrun() {
    check_underrun(&sample_pf_bytes(), PixelFormat::read_from);
}

#[test]
fn version_bytes_and_round_trip() {
    let v = Version(b"RFB 003.008\n".to_vec());
    let mut buf: Vec<u8> = Vec::new();
    v.write_to(&mut buf);
    assert_eq!(buf, b"RFB 003.008\n".to_vec());
    check_underrun(&buf, Version::read_from);
    let mut rb = ReadBuf::new(buf);
    assert_eq!(Version::read_from(&mut rb).unwrap(), v);
}

#[test]
fn security_types_round_trip() {
    let m = SecurityTypes(vec![1, 2]);
    let mut buf: Vec<u8> = Vec::new();
    m.write_to(&mut buf);
    assert_eq!(buf, vec![2, 1, 2]);
    check_underrun(&buf, SecurityTypes::read_from);
    let mut rb = ReadBuf::new(buf);
    assert_eq!(SecurityTypes::read_from(&mut rb).unwrap(), m);
}

#[test]
fn security_types_empty_is_one_byte() {
    let m = SecurityTypes(Vec::new());
    let mut buf: Vec<u8> = Vec::new();
    m.write_to(&mut buf);
    assert_eq!(buf, vec![0]);
    let mut rb = ReadBuf::new(buf);
    assert_eq!(SecurityTypes::read_from(&mut rb).unwrap(), m);
}

#[test]
fn security_type_and_result_round_trip() {
    let t = SecurityType(1);
    let mut buf: Vec<u8> = Vec::new();
    t.write_to(&mut buf);
    assert_eq!(buf, vec![1]);
    let mut rb = ReadBuf::new(buf);
    assert_eq!(SecurityType::read_from(&mut rb).unwrap(), t);

    let r = SecurityResult(1);
    let mut buf2: Vec<u8> = Vec::new();
    r.write_to(&mut buf2);
    assert_eq!(buf2, vec![0, 0, 0, 1]);
    check_underrun(&buf2, SecurityResult::read_from);
    let mut rb2 = ReadBuf::new(buf2);
    assert_eq!(SecurityResult::read_from(&mut rb2).unwrap(), r);
}

#[test]
fn client_init_round_trip() {
    let m = ClientInit { shared: true };
    let mut buf: Vec<u8> = Vec::new();
    m.write_to(&mut buf);
    assert_eq!(buf, vec![1]);
    let mut rb = ReadBuf::new(buf);
    assert_eq!(ClientInit::read_from(&mut rb).unwrap(), m);
}

#[test]
fn server_init_bytes_and_round_trip() {
    let m = ServerInit {
        framebuffer_width: 800,
        framebuffer_height: 600,
        pixel_format: sample_pf(),
        name: b"vnc".to_vec(),
    };
    let mut buf: Vec<u8> = Vec::new();
    m.write_to(&mut buf);
    let mut expected = vec![3, 32, 2, 88];
    expected.extend_from_slice(&sample_pf_bytes());
    expected.extend_from_slice(&[0, 0, 0, 3, 118, 110, 99]);
    assert_eq!(buf, expected);
    check_underrun(&buf, ServerInit::read_from);
    let mut rb = ReadBuf::new(buf);
    assert_eq!(ServerInit::read_from(&mut rb).unwrap(), m);
}

#[test]
fn copy_rect_round_trip() {
    let m = CopyRect { src_x: 7, src_y: 9 };
    let mut buf: Vec<u8> = Vec::new();
    m.write_to(&mut buf);
    assert_eq!(buf, vec![0, 7, 0, 9]);
    check_underrun(&buf, CopyRect::read_from);
    let mut rb = ReadBuf::new(buf);
    assert_eq!(CopyRect::read_from(&mut rb).unwrap(), m);
}

#[test]
fn encoding_codes() {
    let cases: Vec<(Encoding, Vec<u8>)> = vec![
        (Encoding::Raw, vec![0, 0, 0, 0]),
        (Encoding::CopyRect, vec![0, 0, 0, 1]),
        (Encoding::Rre, vec![0, 0, 0, 2]),
        (Encoding::Hextile, vec![0, 0, 0, 5]),
        (Encoding::Trle, vec![0, 0, 0, 15]),
        (Encoding::Zrle, vec![0, 0, 0, 16]),
        (Encoding::Cursor, vec![255, 255, 255, 17]),
        (Encoding::DesktopSize, vec![255, 255, 255, 33]),
        (Encoding::Unknown(7), vec![0, 0, 0, 7]),
        (Encoding::Unknown(-1), vec![255, 255, 255, 255]),
    ];
    for (e, bytes) in cases {
        let mut buf: Vec<u8> = Vec::new();
        e.write_to(&mut buf);
        assert_eq!(buf, bytes, "bytes of {:?}", e);
        let mut rb = ReadBuf::new(buf);
        assert_eq!(Encoding::read_from(&mut rb).unwrap(), e);
    }
}

#[test]
fn rectangle_round_trip() {
    let m = Rectangle { x: 1, y: 2, width: 3, height: 4, encoding: Encoding::Cursor };
    let mut buf: Vec<u8> = Vec::new();
    m.write_to(&mut buf);
    assert_eq!(buf, vec![0, 1, 0, 2, 0, 3, 0, 4, 255, 255, 255, 17]);
    check_underrun(&buf, Rectangle::read_from);
    let mut rb = ReadBuf::new(buf);
    assert_eq!(Rectangle::read_from(&mut rb).unwrap(), m);
}

#[test]
fn payload_sizes() {
    let mut pf = sample_pf();
    let raw = Rectangle { x: 0, y: 0, width: 10, height: 10, encoding: Encoding::Raw };
    assert_eq!(raw.payload_size(&pf), 400);
    pf.bits_per_pixel = 16;
    assert_eq!(raw.payload_size(&pf), 200);
    pf.bits_per_pixel = 8;
    assert_eq!(raw.payload_size(&pf), 100);

    pf.bits_per_pixel = 16;
    let cursor = Rectangle { x: 0, y: 0, width: 10, height: 5, encoding: Encoding::Cursor };
    assert_eq!(cursor.payload_size(&pf), 10 * 5 * 2 + 2 * 5);

    let copy = Rectangle { x: 0, y: 0, width: 9, height: 9, encoding: Encoding::CopyRect };
    assert_eq!(copy.payload_size(&pf), 4);
}

#[test]
fn c2s_set_pixel_format_bytes() {
    let m = C2S::SetPixelFormat(sample_pf());
    let mut buf: Vec<u8> = Vec::new();
    m.write_to(&mut buf);
    let mut expected = vec![0, 0, 0, 0];
    expected.extend_from_slice(&sample_pf_bytes());
    assert_eq!(buf, expected);
    check_underrun(&buf, C2S::read_from);
    let mut rb = ReadBuf::new(buf);
    assert_eq!(C2S::read_from(&mut rb).unwrap(), m);
}

#[test]
fn c2s_set_encodings_bytes() {
    let m = C2S::SetEncodings(vec![Encoding::Raw, Encoding::Zrle]);
    let mut buf: Vec<u8> = Vec::new();
    m.write_to(&mut buf);
    assert_eq!(buf, vec![2, 0, 0, 2, 0, 0, 0, 0, 0, 0, 0, 16]);
    check_underrun(&buf, C2S::read_from);
    let mut rb = ReadBuf::new(buf);
    assert_eq!(C2S::read_from(&mut rb).unwrap(), m);
}

#[test]
fn c2s_update_request_bytes() {
    let m = C2S::FramebufferUpdateRequest { incremental: true, x: 1, y: 2, width: 3, height: 4 };
    let mut buf: Vec<u8> = Vec::new();
    m.write_to(&mut buf);
    assert_eq!(buf, vec![3, 1, 0, 1, 0, 2, 0, 3, 0, 4]);
    check_underrun(&buf, C2S::read_from);
    let mut rb = ReadBuf::new(buf);
    assert_eq!(C2S::read_from(&mut rb).unwrap(), m);
}

#[test]
fn c2s_key_event_bytes() {
    let m = C2S::KeyEvent { down: true, key: 0x12345678 };
    let mut buf: Vec<u8> = Vec::new();
    m.write_to(&mut buf);
    assert_eq!(buf, vec![4, 1, 0, 0, 0x12, 0x34, 0x56, 0x78]);
    check_underrun(&buf, C2S::read_from);
    let mut rb = ReadBuf::new(buf);
    assert_eq!(C2S::read_from(&mut rb).unwrap(), m);
}

#[test]
fn c2s_pointer_event_bytes() {
    let m = C2S::PointerEvent { button_mask: 1, x: 5, y: 5 };
    let mut buf: Vec<u8> = Vec::new();
    m.write_to(&mut buf);
    assert_eq!(buf, vec![5, 1, 0, 5, 0, 5]);
    check_underrun(&buf, C2S::read_from);
    let mut rb = ReadBuf::new(buf);
    assert_eq!(C2S::read_from(&mut rb).unwrap(), m);
}

#[test]
fn c2s_cut_text_bytes() {
    let m = C2S::CutText(b"hi".to_vec());
    let mut buf: Vec<u8> = Vec::new();
    m.write_to(&mut buf);
    assert_eq!(buf, vec![6, 0, 0, 0, 0, 0, 0, 2, 104, 105]);
    check_underrun(&buf, C2S::read_from);
    let mut rb = ReadBuf::new(buf);
    assert_eq!(C2S::read_from(&mut rb).unwrap(), m);
}

#[test]
fn c2s_unknown_type_is_fatal() {
    let mut rb = ReadBuf::new(vec![9, 0, 0]);
    assert_eq!(C2S::read_from(&mut rb), Err(DecodeError::UnsupportedC2S(9)));
}

#[test]
fn s2c_framebuffer_update_bytes() {
    let m = S2C::FramebufferUpdate { count: 2 };
    let mut buf: Vec<u8> = Vec::new();
    m.write_to(&mut buf);
    assert_eq!(buf, vec![0, 0, 0, 2]);
    check_underrun(&buf, S2C::read_from);
    let mut rb = ReadBuf::new(buf);
    assert_eq!(S2C::read_from(&mut rb).unwrap(), m);
}

#[test]
fn s2c_color_map_bytes() {
    let m = S2C::SetColorMapEntries { first_color: 1, colors: vec![1, 2, 3, 4, 5, 6] };
    let mut buf: Vec<u8> = Vec::new();
    m.write_to(&mut buf);
    assert_eq!(buf, vec![1, 0, 0, 1, 0, 1, 1, 2, 3, 4, 5, 6]);
    check_underrun(&buf, S2C::read_from);
    let mut rb = ReadBuf::new(buf);
    assert_eq!(S2C::read_from(&mut rb).unwrap(), m);
}

#[test]
fn s2c_bell_and_cut_text() {
    let mut buf: Vec<u8> = Vec::new();
    S2C::Bell.write_to(&mut buf);
    assert_eq!(buf, vec![2]);
    let mut rb = ReadBuf::new(buf);
    assert_eq!(S2C::read_from(&mut rb).unwrap(), S2C::Bell);

    let m = S2C::CutText(b"ok".to_vec());
    let mut buf2: Vec<u8> = Vec::new();
    m.write_to(&mut buf2);
    assert_eq!(buf2, vec![3, 0, 0, 0, 0, 0, 0, 2, 111, 107]);
    check_underrun(&buf2, S2C::read_from);
    let mut rb2 = ReadBuf::new(buf2);
    assert_eq!(S2C::read_from(&mut rb2).unwrap(), m);
}

#[test]
fn s2c_unknown_type_is_fatal() {
    let mut rb = ReadBuf::new(vec![9]);
    assert_eq!(S2C::read_from(&mut rb), Err(DecodeError::UnsupportedS2C(9)));
}

#[test]
fn zrle_round_trip() {
    let m = Zrle(vec![97, 98, 99]);
    let mut buf: Vec<u8> = Vec::new();
    m.write_to(&mut buf);
    assert_eq!(buf, vec![0, 0, 0, 3, 97, 98, 99]);
    check_underrun(&buf, Zrle::read_from);
    let mut rb = ReadBuf::new(buf);
    assert_eq!(Zrle::read_from(&mut rb).unwrap(), m);
}

#[test]
fn string_round_trip() {
    let m = RfbString(b"bad".to_vec());
    let mut buf: Vec<u8> = Vec::new();
    m.write_to(&mut buf);
    assert_eq!(buf, vec![0, 0, 0, 3, 98, 97, 100]);
    check_underrun(&buf, RfbString::read_from);
    let mut rb = ReadBuf::new(buf);
    assert_eq!(RfbString::read_from(&mut rb).unwrap(), m);
}

#[test]
fn decode_leaves_trailing_bytes() {
    let mut bytes: Vec<u8> = vec![5, 1, 0, 5, 0, 5];
    bytes.extend_from_slice(&[0xAA, 0xBB]);
    let mut rb = ReadBuf::new(bytes);
    assert_eq!(
        C2S::read_from(&mut rb).unwrap(),
        C2S::PointerEvent { button_mask: 1, x: 5, y: 5 }
    );
    assert_eq!(rb.remaining(), 2);
    assert_eq!(rb.consumed_len(), 6);
}

#[test]
fn payload_size_of_largest_rectangle() {
    let pf = PixelFormat {
        bits_per_pixel: 32,
        depth: 24,
        big_endian: false,
        true_colour: true,
        red_max: 255,
        green_max: 255,
        blue_max: 255,
        red_shift: 16,
        green_shift: 8,
        blue_shift: 0,
    };
    let raw = Rectangle { x: 0, y: 0, width: 65535, height: 65535, encoding: Encoding::Raw };
    assert_eq!(raw.payload_size(&pf), 65535u64 * 65535 * 4);
    let cursor = Rectangle { x: 0, y: 0, width: 65535, height: 65535, encoding: Encoding::Cursor };
    assert_eq!(cursor.payload_size(&pf), 65535u64 * 65535 * 4 + 8192 * 65535);
}
