//! Scenario tests of the relay decision machines.

use rfb_proxy::relay::{c2s_step, s2c_step, Emit, S2cEvent, S2cState};
use rfb_proxy::rfb::{C2S, Encoding, PixelFormat, Rectangle, S2C};
use rfb_proxy::{Error, Icon};

fn icon_16() -> Icon {
    Icon { x: 0, y: 0, width: 16, height: 16, rgba_data: vec![0u8; 16 * 16 * 4] }
}

fn icon_10() -> Icon {
    Icon { x: 0, y: 0, width: 10, height: 10, rgba_data: vec![0u8; 10 * 10 * 4] }
}

fn pf_bpp(bits_per_pixel: u8) -> PixelFormat {
    PixelFormat {
        bits_per_pixel,
        depth: 24,
        big_endian: false,
        true_colour: true,
        red_max: 255,
        green_max: 255,
        blue_max: 255,
        red_shift: 16,
        green_shift: 8,
        blue_shift: 0,
    }
}

#[test]
fn encodings_are_rewritten() {
    // The client offers Tight (unknown to the proxy) and Hextile; the
    // server must see exactly Raw, Cursor, CopyRect, ZRLE.
    let offered = C2S::SetEncodings(vec![Encoding::Unknown(7), Encoding::Hextile]);
    let o = c2s_step(offered, false, &icon_16(), true);
    assert_eq!(
        o.forward,
        Some(C2S::SetEncodings(vec![
            Encoding::Raw,
            Encoding::Cursor,
            Encoding::CopyRect,
            Encoding::Zrle,
        ]))
    );
    assert!(o.publish_format.is_none());
    assert!(o.publish_request.is_none());
    assert!(!o.emit_action);
}

#[test]
fn set_pixel_format_is_published_and_forwarded() {
    let pf = pf_bpp(16);
    let o = c2s_step(C2S::SetPixelFormat(pf.clone()), false, &icon_16(), true);
    assert_eq!(o.publish_format, Some(pf.clone()));
    assert_eq!(o.forward, Some(C2S::SetPixelFormat(pf)));
}

#[test]
fn click_inside_icon_is_captured() {
    // Press then release at (5, 5), inside the 16x16 icon: the press is
    // forwarded, the release is swallowed and exactly one action comes
    // out.
    let icon = icon_16();
    let press = C2S::PointerEvent { button_mask: 1, x: 5, y: 5 };
    let o1 = c2s_step(press.clone(), false, &icon, true);
    assert_eq!(o1.forward, Some(press));
    assert!(!o1.emit_action);
    assert!(o1.mouse_pressed);

    let release = C2S::PointerEvent { button_mask: 0, x: 5, y: 5 };
    let o2 = c2s_step(release, o1.mouse_pressed, &icon, true);
    assert!(o2.emit_action);
    assert!(o2.forward.is_none());
    assert!(!o2.mouse_pressed);
}

#[test]
fn click_outside_icon_is_forwarded() {
    let icon = icon_16();
    let press = C2S::PointerEvent { button_mask: 1, x: 100, y: 100 };
    let o1 = c2s_step(press.clone(), false, &icon, true);
    assert_eq!(o1.forward, Some(press));

    let release = C2S::PointerEvent { button_mask: 0, x: 100, y: 100 };
    let o2 = c2s_step(release.clone(), o1.mouse_pressed, &icon, true);
    assert!(!o2.emit_action);
    assert_eq!(o2.forward, Some(release));
}

#[test]
fn update_request_is_gated() {
    let req = C2S::FramebufferUpdateRequest { incremental: true, x: 0, y: 0, width: 10, height: 10 };
    let o = c2s_step(req.clone(), false, &icon_16(), true);
    assert_eq!(o.publish_request, Some(req.clone()));
    assert_eq!(o.forward, Some(req.clone()));

    let o2 = c2s_step(req.clone(), false, &icon_16(), false);
    assert_eq!(o2.publish_request, Some(req));
    assert!(o2.forward.is_none());
}

#[test]
fn key_events_pass_through() {
    let m = C2S::KeyEvent { down: true, key: 65 };
    let o = c2s_step(m.clone(), true, &icon_16(), true);
    assert_eq!(o.forward, Some(m));
    assert!(o.mouse_pressed);
}

#[test]
fn frame_at_32bpp_injects_icon() {
    // The server announces 1 rectangle of 10x10 Raw at 32bpp; the
    // client must see a header announcing 2, the relayed rectangle with
    // its 400 payload bytes, and the icon rectangle with its data,
    // last.
    let fmt = pf_bpp(32);
    let icon = icon_10();
    let st = S2cState::Idle;
    let h = s2c_step(st, S2cEvent::Message(S2C::FramebufferUpdate { count: 1 }), &fmt, &icon)
        .unwrap();
    assert!(h.consume_request);
    assert_eq!(h.emits.len(), 1);
    match &h.emits[0] {
        Emit::Message(S2C::FramebufferUpdate { count }) => assert_eq!(*count, 2),
        other => panic!("unexpected first emit {:?}", header_kind(other)),
    }

    let rect = Rectangle { x: 0, y: 0, width: 10, height: 10, encoding: Encoding::Raw };
    let r = s2c_step(h.next, S2cEvent::Rect(rect.clone()), &fmt, &icon).unwrap();
    assert!(!r.consume_request);
    assert_eq!(r.emits.len(), 4);
    match &r.emits[0] {
        Emit::Rect(got) => assert_eq!(*got, rect),
        other => panic!("unexpected emit {:?}", header_kind(other)),
    }
    match &r.emits[1] {
        Emit::RelayBytes(n) => assert_eq!(*n, 400),
        other => panic!("unexpected emit {:?}", header_kind(other)),
    }
    match &r.emits[2] {
        Emit::Rect(got) => {
            assert_eq!(
                *got,
                Rectangle { x: 0, y: 0, width: 10, height: 10, encoding: Encoding::Raw }
            );
        }
        other => panic!("unexpected emit {:?}", header_kind(other)),
    }
    assert!(matches!(r.emits[3], Emit::IconData));
    assert_eq!(r.next, S2cState::Idle);
}

fn header_kind(e: &Emit) -> &'static str {
    match e {
        Emit::Message(_) => "message",
        Emit::Rect(_) => "rect",
        Emit::RelayZrle => "zrle",
        Emit::RelayBytes(_) => "bytes",
        Emit::IconData => "icon-data",
    }
}

#[test]
fn frame_at_16bpp_is_not_rewritten() {
    let fmt = pf_bpp(16);
    let icon = icon_10();
    let h = s2c_step(
        S2cState::Idle,
        S2cEvent::Message(S2C::FramebufferUpdate { count: 1 }),
        &fmt,
        &icon,
    )
    .unwrap();
    match &h.emits[0] {
        Emit::Message(S2C::FramebufferUpdate { count }) => assert_eq!(*count, 1),
        other => panic!("unexpected first emit {:?}", header_kind(other)),
    }
    let rect = Rectangle { x: 0, y: 0, width: 4, height: 4, encoding: Encoding::Raw };
    let r = s2c_step(h.next, S2cEvent::Rect(rect), &fmt, &icon).unwrap();
    // No icon rectangle appended: header, payload relay, nothing more.
    assert_eq!(r.emits.len(), 2);
    match &r.emits[1] {
        Emit::RelayBytes(n) => assert_eq!(*n, 4 * 4 * 2),
        other => panic!("unexpected emit {:?}", header_kind(other)),
    }
    assert_eq!(r.next, S2cState::Idle);
}

#[test]
fn zrle_and_desktop_size_payloads() {
    let fmt = pf_bpp(32);
    let icon = icon_10();
    let h = s2c_step(
        S2cState::Idle,
        S2cEvent::Message(S2C::FramebufferUpdate { count: 2 }),
        &fmt,
        &icon,
    )
    .unwrap();
    let zrle_rect = Rectangle { x: 0, y: 0, width: 8, height: 8, encoding: Encoding::Zrle };
    let r1 = s2c_step(h.next, S2cEvent::Rect(zrle_rect), &fmt, &icon).unwrap();
    assert_eq!(r1.emits.len(), 2);
    assert!(matches!(r1.emits[1], Emit::RelayZrle));

    let ds_rect = Rectangle { x: 0, y: 0, width: 8, height: 8, encoding: Encoding::DesktopSize };
    let r2 = s2c_step(r1.next, S2cEvent::Rect(ds_rect), &fmt, &icon).unwrap();
    // Last rectangle: its header (no payload), then the icon pair.
    assert_eq!(r2.emits.len(), 3);
    assert!(matches!(r2.emits[1], Emit::Rect(_)));
    assert!(matches!(r2.emits[2], Emit::IconData));
    assert_eq!(r2.next, S2cState::Idle);
}

#[test]
fn unsupported_encoding_is_fatal() {
    let fmt = pf_bpp(32);
    let icon = icon_10();
    let h = s2c_step(
        S2cState::Idle,
        S2cEvent::Message(S2C::FramebufferUpdate { count: 1 }),
        &fmt,
        &icon,
    )
    .unwrap();
    let rect = Rectangle { x: 0, y: 0, width: 8, height: 8, encoding: Encoding::Rre };
    let r = s2c_step(h.next, S2cEvent::Rect(rect), &fmt, &icon);
    assert_eq!(r.unwrap_err(), Error::Unsupported(2));
}

#[test]
fn state_change_at_32bpp_sends_unsolicited_update() {
    // A second client whose state watcher fires: it spends one pending
    // request and sends a one-rectangle update holding the icon.
    let fmt = pf_bpp(32);
    let icon = icon_16();
    let r = s2c_step(S2cState::Idle, S2cEvent::StateChanged, &fmt, &icon).unwrap();
    assert!(r.consume_request);
    assert_eq!(r.emits.len(), 3);
    match &r.emits[0] {
        Emit::Message(S2C::FramebufferUpdate { count }) => assert_eq!(*count, 1),
        other => panic!("unexpected first emit {:?}", header_kind(other)),
    }
    match &r.emits[1] {
        Emit::Rect(got) => {
            assert_eq!(
                *got,
                Rectangle { x: 0, y: 0, width: 16, height: 16, encoding: Encoding::Raw }
            );
        }
        other => panic!("unexpected emit {:?}", header_kind(other)),
    }
    assert!(matches!(r.emits[2], Emit::IconData));
}

#[test]
fn state_change_at_8bpp_is_ignored() {
    let fmt = pf_bpp(8);
    let icon = icon_16();
    let r = s2c_step(S2cState::Idle, S2cEvent::StateChanged, &fmt, &icon).unwrap();
    assert!(!r.consume_request);
    assert!(r.emits.is_empty());
    assert_eq!(r.next, S2cState::Idle);
}

#[test]
fn other_s2c_messages_pass_through() {
    let fmt = pf_bpp(32);
    let icon = icon_16();
    let r = s2c_step(S2cState::Idle, S2cEvent::Message(S2C::Bell), &fmt, &icon).unwrap();
    assert!(!r.consume_request);
    assert_eq!(r.emits.len(), 1);
    match &r.emits[0] {
        Emit::Message(m) => assert_eq!(*m, S2C::Bell),
        other => panic!("unexpected emit {:?}", header_kind(other)),
    }
}

#[test]
fn empty_frame_at_32bpp_still_appends_icon() {
    let fmt = pf_bpp(32);
    let icon = icon_16();
    let h = s2c_step(
        S2cState::Idle,
        S2cEvent::Message(S2C::FramebufferUpdate { count: 0 }),
        &fmt,
        &icon,
    )
    .unwrap();
    assert!(h.consume_request);
    assert_eq!(h.emits.len(), 3);
    match &h.emits[0] {
        Emit::Message(S2C::FramebufferUpdate { count }) => assert_eq!(*count, 1),
        other => panic!("unexpected first emit {:?}", header_kind(other)),
    }
    assert_eq!(h.next, S2cState::Idle);
}

#[test]
fn icon_bounds_edges() {
    let icon = Icon { x: 10, y: 10, width: 5, height: 5, rgba_data: vec![0u8; 100] };
    assert!(icon.in_bounds(10, 10));
    assert!(icon.in_bounds(14, 14));
    assert!(!icon.in_bounds(15, 10));
    assert!(!icon.in_bounds(10, 15));
    assert!(!icon.in_bounds(9, 10));
    // A box touching the top of the coordinate range must not wrap.
    let edge = Icon { x: 65535, y: 65535, width: 1, height: 1, rgba_data: vec![0u8; 4] };
    assert!(edge.in_bounds(65535, 65535));
    assert!(!edge.in_bounds(0, 0));
}
