//! The per-client relay decision machines.
//!
//! Each direction of a connection is a loop that reads one message,
//! decides, and performs writes and channel operations. The decisions
//! live here as pure step functions; the surrounding loop performs the
//! I/O actions each step returns.

use vstd::prelude::*;

verus! {

use crate::rfb::{C2S, C2SV, Encoding, PixelFormat, Rectangle, S2C, S2CV, enc_code};
use crate::{Error, Icon};

// ---------------------------------------------------------------------------
// Client-to-server relay
// ---------------------------------------------------------------------------

/// The fixed encoding list the proxy advertises upstream, whatever the
/// client offered: the encodings the proxy can size in the other
/// direction, plus ZRLE which self-delimits.
pub open spec fn rewritten_encodings() -> Seq<Encoding> {
    seq![Encoding::Raw, Encoding::Cursor, Encoding::CopyRect, Encoding::Zrle]
}

/// What the client-to-server relay does with one client message.
#[derive(Debug)]
pub struct C2sOutcome {
    /// Message to forward to the server, if any.
    pub forward: Option<C2S>,
    /// New pixel format to publish to the server-to-client relay.
    pub publish_format: Option<PixelFormat>,
    /// Update request to offer to the server-to-client relay
    /// (best-effort, may be dropped when its one-slot channel is full).
    pub publish_request: Option<C2S>,
    /// Emit one `Action` event for this client (best-effort).
    pub emit_action: bool,
    /// Button-1 state after this message.
    pub mouse_pressed: bool,
}

/// Mathematical image of a [`C2sOutcome`].
pub struct C2sOutcomeV {
    pub forward: Option<C2SV>,
    pub publish_format: Option<PixelFormat>,
    pub publish_request: Option<C2SV>,
    pub emit_action: bool,
    pub mouse_pressed: bool,
}

impl View for C2sOutcome {
    type V = C2sOutcomeV;

    open spec fn view(&self) -> C2sOutcomeV {
        C2sOutcomeV {
            forward: match self.forward {
                Some(m) => Some(m@),
                None => None,
            },
            publish_format: self.publish_format,
            publish_request: match self.publish_request {
                Some(m) => Some(m@),
                None => None,
            },
            emit_action: self.emit_action,
            mouse_pressed: self.mouse_pressed,
        }
    }
}

/// The client-to-server relay decision: given one client message, the
/// current button-1 state, the icon the state provider paints for this
/// client, and whether update requests are being forwarded, say what is
/// sent, published and remembered.
pub open spec fn c2s_decide(
    m: C2SV,
    mouse_pressed: bool,
    icon: Icon,
    forward_request: bool,
) -> C2sOutcomeV {
    match m {
        C2SV::SetEncodings(_) => C2sOutcomeV {
            forward: Some(C2SV::SetEncodings(rewritten_encodings())),
            publish_format: None,
            publish_request: None,
            emit_action: false,
            mouse_pressed,
        },
        C2SV::SetPixelFormat(pf) => C2sOutcomeV {
            forward: Some(C2SV::SetPixelFormat(pf)),
            publish_format: Some(pf),
            publish_request: None,
            emit_action: false,
            mouse_pressed,
        },
        C2SV::PointerEvent { button_mask, x, y } => {
            let pressed_new = (button_mask & 1) != 0;
            let click = mouse_pressed && !pressed_new;
            let captured = click && icon.spec_in_bounds(x, y);
            C2sOutcomeV {
                forward: if captured {
                    None
                } else {
                    Some(C2SV::PointerEvent { button_mask, x, y })
                },
                publish_format: None,
                publish_request: None,
                emit_action: captured,
                mouse_pressed: pressed_new,
            }
        },
        C2SV::FramebufferUpdateRequest { incremental, x, y, width, height } => C2sOutcomeV {
            forward: if forward_request {
                Some(C2SV::FramebufferUpdateRequest { incremental, x, y, width, height })
            } else {
                None
            },
            publish_format: None,
            publish_request: Some(
                C2SV::FramebufferUpdateRequest { incremental, x, y, width, height },
            ),
            emit_action: false,
            mouse_pressed,
        },
        other => C2sOutcomeV {
            forward: Some(other),
            publish_format: None,
            publish_request: None,
            emit_action: false,
            mouse_pressed,
        },
    }
}

/// One step of the client-to-server relay.
pub fn c2s_step(message: C2S, mouse_pressed: bool, icon: &Icon, forward_request: bool) -> (o:
    C2sOutcome)
    ensures
        o@ == c2s_decide(message@, mouse_pressed, *icon, forward_request),
{
    match message {
        C2S::SetEncodings(_) => {
            let replaced = vec![
                Encoding::Raw,
                Encoding::Cursor,
                Encoding::CopyRect,
                Encoding::Zrle,
            ];
            proof {
                assert(replaced@ =~= rewritten_encodings());
            }
            C2sOutcome {
                forward: Some(C2S::SetEncodings(replaced)),
                publish_format: None,
                publish_request: None,
                emit_action: false,
                mouse_pressed,
            }
        },
        C2S::SetPixelFormat(pf) => C2sOutcome {
            forward: Some(C2S::SetPixelFormat(pf)),
            publish_format: Some(pf),
            publish_request: None,
            emit_action: false,
            mouse_pressed,
        },
        C2S::PointerEvent { button_mask, x, y } => {
            let pressed_new = (button_mask & 1) != 0;
            let click = mouse_pressed && !pressed_new;
            let captured = click && icon.in_bounds(x, y);
            C2sOutcome {
                forward: if captured {
                    None
                } else {
                    Some(C2S::PointerEvent { button_mask, x, y })
                },
                publish_format: None,
                publish_request: None,
                emit_action: captured,
                mouse_pressed: pressed_new,
            }
        },
        C2S::FramebufferUpdateRequest { incremental, x, y, width, height } => C2sOutcome {
            forward: if forward_request {
                Some(C2S::FramebufferUpdateRequest { incremental, x, y, width, height })
            } else {
                None
            },
            publish_format: None,
            publish_request: Some(
                C2S::FramebufferUpdateRequest { incremental, x, y, width, height },
            ),
            emit_action: false,
            mouse_pressed,
        },
        m => C2sOutcome {
            forward: Some(m),
            publish_format: None,
            publish_request: None,
            emit_action: false,
            mouse_pressed,
        },
    }
}

/// Encoding rewrite: whatever encodings the client offered, the server
/// is sent exactly `Raw, Cursor, CopyRect, ZRLE`, in that order, and
/// nothing else happens on that message.
pub proof fn lemma_encoding_rewrite(
    l: Seq<Encoding>,
    mouse_pressed: bool,
    icon: Icon,
    forward_request: bool,
)
    ensures
        c2s_decide(C2SV::SetEncodings(l), mouse_pressed, icon, forward_request)
            == (C2sOutcomeV {
            forward: Some(C2SV::SetEncodings(rewritten_encodings())),
            publish_format: None,
            publish_request: None,
            emit_action: false,
            mouse_pressed,
        }),
{
}

/// Click capture: starting from the released state, a button-1 press at
/// `(x, y)` is forwarded and emits nothing; the release that follows at
/// the same point is swallowed and emits exactly one action when the
/// point is inside the icon, and is forwarded with no action when it is
/// outside.
pub proof fn lemma_click_capture(icon: Icon, x: u16, y: u16, fwd1: bool, fwd2: bool)
    ensures
        ({
            let press = C2SV::PointerEvent { button_mask: 1u8, x, y };
            let o1 = c2s_decide(press, false, icon, fwd1);
            &&& o1.forward == Some(press)
            &&& !o1.emit_action
            &&& o1.mouse_pressed
        }),
        ({
            let press = C2SV::PointerEvent { button_mask: 1u8, x, y };
            let release = C2SV::PointerEvent { button_mask: 0u8, x, y };
            let o1 = c2s_decide(press, false, icon, fwd1);
            let o2 = c2s_decide(release, o1.mouse_pressed, icon, fwd2);
            &&& icon.spec_in_bounds(x, y) ==> o2.emit_action && o2.forward is None
            &&& !icon.spec_in_bounds(x, y) ==> !o2.emit_action && o2.forward == Some(release)
            &&& !o2.mouse_pressed
        }),
{
    assert((1u8 & 1) == 1) by (bit_vector);
    assert((0u8 & 1) == 0) by (bit_vector);
}

// ---------------------------------------------------------------------------
// Server-to-client relay
// ---------------------------------------------------------------------------

/// Where the server-to-client relay stands in the stream.
#[derive(Debug, Clone, Copy, PartialEq, Eq, Structural)]
pub enum S2cState {
    /// Between messages: the next read is an `S2C` header.
    Idle,
    /// Inside a framebuffer update: `remaining` rectangle headers are
    /// still owed; `send_icon` says an icon rectangle will be appended
    /// after the last one; `format` is the pixel format latched when
    /// the frame began, used to size every payload of this frame.
    InUpdate { remaining: u16, send_icon: bool, format: PixelFormat },
}

/// One input to the server-to-client relay.
#[derive(Debug)]
pub enum S2cEvent {
    /// A message header arrived from the server (only in `Idle`).
    Message(S2C),
    /// A rectangle header arrived from the server (only in
    /// `InUpdate`).
    Rect(Rectangle),
    /// The shared application state changed (only in `Idle`).
    StateChanged,
}

/// Mathematical image of an [`S2cEvent`].
pub enum S2cEventV {
    Message(S2CV),
    Rect(Rectangle),
    StateChanged,
}

impl View for S2cEvent {
    type V = S2cEventV;

    open spec fn view(&self) -> S2cEventV {
        match self {
            S2cEvent::Message(m) => S2cEventV::Message(m@),
            S2cEvent::Rect(r) => S2cEventV::Rect(*r),
            S2cEvent::StateChanged => S2cEventV::StateChanged,
        }
    }
}

/// One action towards the client (or the server's stream position).
#[derive(Debug)]
pub enum Emit {
    /// Write this message to the client.
    Message(S2C),
    /// Write this rectangle header to the client.
    Rect(Rectangle),
    /// Read one self-delimited ZRLE payload from the server and forward
    /// it to the client unchanged.
    RelayZrle,
    /// Read exactly this many payload bytes from the server and forward
    /// them to the client unchanged.
    RelayBytes(u64),
    /// Write the current icon's RGBA bytes to the client.
    IconData,
}

/// Mathematical image of an [`Emit`].
pub enum EmitV {
    Message(S2CV),
    Rect(Rectangle),
    RelayZrle,
    RelayBytes(u64),
    IconData,
}

impl View for Emit {
    type V = EmitV;

    open spec fn view(&self) -> EmitV {
        match self {
            Emit::Message(m) => EmitV::Message(m@),
            Emit::Rect(r) => EmitV::Rect(*r),
            Emit::RelayZrle => EmitV::RelayZrle,
            Emit::RelayBytes(n) => EmitV::RelayBytes(*n),
            Emit::IconData => EmitV::IconData,
        }
    }
}

/// What one relay step asks the loop to do.
#[derive(Debug)]
pub struct S2cStep {
    /// Spend one pending client update request before writing, so the
    /// proxy never sends more updates than the client has asked for.
    pub consume_request: bool,
    /// Actions to perform, in order.
    pub emits: Vec<Emit>,
    /// State for the next step.
    pub next: S2cState,
}

/// Mathematical image of an [`S2cStep`].
pub struct S2cStepV {
    pub consume_request: bool,
    pub emits: Seq<EmitV>,
    pub next: S2cState,
}

impl View for S2cStep {
    type V = S2cStepV;

    open spec fn view(&self) -> S2cStepV {
        S2cStepV {
            consume_request: self.consume_request,
            emits: self.emits@.map_values(|e: Emit| e@),
            next: self.next,
        }
    }
}

/// The icon as a Raw rectangle header.
pub open spec fn icon_rectangle(icon: Icon) -> Rectangle {
    Rectangle {
        x: icon.x,
        y: icon.y,
        width: icon.width,
        height: icon.height,
        encoding: Encoding::Raw,
    }
}

/// The two actions that paint the icon: its Raw rectangle header, then
/// its RGBA bytes.
pub open spec fn icon_emits(icon: Icon) -> Seq<EmitV> {
    seq![EmitV::Rect(icon_rectangle(icon)), EmitV::IconData]
}

/// The encodings an S2C rectangle may carry through the proxy: the
/// sizable three, self-delimiting ZRLE, and payload-less DesktopSize.
pub open spec fn relayable(e: Encoding) -> bool {
    e is Zrle || e is DesktopSize || e is Raw || e is Cursor || e is CopyRect
}

/// How one relayed rectangle's payload crosses the proxy, sized with
/// the frame's latched pixel format.
pub open spec fn rect_payload_emits(rect: Rectangle, format: PixelFormat) -> Seq<EmitV> {
    match rect.encoding {
        Encoding::Zrle => seq![EmitV::RelayZrle],
        Encoding::DesktopSize => Seq::<EmitV>::empty(),
        _ => seq![EmitV::RelayBytes(rect.spec_payload_size(format) as u64)],
    }
}

/// The server-to-client relay decision: given the stream state, one
/// input, the currently published pixel format and the icon the state
/// provider paints for this client, say what is spent, written and
/// relayed, and where the stream stands afterwards.
pub open spec fn s2c_decide(st: S2cState, ev: S2cEventV, fmt: PixelFormat, icon: Icon) -> Result<
    S2cStepV,
    Error,
> {
    match st {
        S2cState::Idle => match ev {
            S2cEventV::Message(m) => match m {
                S2CV::FramebufferUpdate { count } => {
                    let send_icon = fmt.bits_per_pixel == 32;
                    let out_count: u16 = if send_icon {
                        (count + 1) as u16
                    } else {
                        count
                    };
                    let header = EmitV::Message(S2CV::FramebufferUpdate { count: out_count });
                    if count == 0 {
                        Ok(
                            S2cStepV {
                                consume_request: true,
                                emits: seq![header] + if send_icon {
                                    icon_emits(icon)
                                } else {
                                    Seq::<EmitV>::empty()
                                },
                                next: S2cState::Idle,
                            },
                        )
                    } else {
                        Ok(
                            S2cStepV {
                                consume_request: true,
                                emits: seq![header],
                                next: S2cState::InUpdate {
                                    remaining: count,
                                    send_icon,
                                    format: fmt,
                                },
                            },
                        )
                    }
                },
                other => Ok(
                    S2cStepV {
                        consume_request: false,
                        emits: seq![EmitV::Message(other)],
                        next: S2cState::Idle,
                    },
                ),
            },
            S2cEventV::StateChanged => {
                if fmt.bits_per_pixel == 32 {
                    Ok(
                        S2cStepV {
                            consume_request: true,
                            emits: seq![EmitV::Message(S2CV::FramebufferUpdate { count: 1u16 })]
                                + icon_emits(icon),
                            next: S2cState::Idle,
                        },
                    )
                } else {
                    Ok(
                        S2cStepV {
                            consume_request: false,
                            emits: Seq::<EmitV>::empty(),
                            next: S2cState::Idle,
                        },
                    )
                }
            },
            S2cEventV::Rect(_) => Ok(
                S2cStepV { consume_request: false, emits: Seq::<EmitV>::empty(), next: st },
            ),
        },
        S2cState::InUpdate { remaining, send_icon, format } => match ev {
            S2cEventV::Rect(rect) => {
                if !relayable(rect.encoding) {
                    Err(Error::Unsupported(enc_code(rect.encoding)))
                } else {
                    let body = seq![EmitV::Rect(rect)] + rect_payload_emits(rect, format);
                    if remaining == 1 {
                        Ok(
                            S2cStepV {
                                consume_request: false,
                                emits: body + if send_icon {
                                    icon_emits(icon)
                                } else {
                                    Seq::<EmitV>::empty()
                                },
                                next: S2cState::Idle,
                            },
                        )
                    } else {
                        Ok(
                            S2cStepV {
                                consume_request: false,
                                emits: body,
                                next: S2cState::InUpdate {
                                    remaining: (remaining - 1) as u16,
                                    send_icon,
                                    format,
                                },
                            },
                        )
                    }
                }
            },
            _ => Ok(S2cStepV { consume_request: false, emits: Seq::<EmitV>::empty(), next: st }),
        },
    }
}

/// One step of the server-to-client relay.
pub fn s2c_step(st: S2cState, ev: S2cEvent, fmt: &PixelFormat, icon: &Icon) -> (r: Result<
    S2cStep,
    Error,
>)
    requires
        st is Idle <==> !(ev@ is Rect),
        fmt.bits_per_pixel == 32 ==> (ev@ matches S2cEventV::Message(
            S2CV::FramebufferUpdate { count },
        ) ==> count < 0xffff),
        st matches S2cState::InUpdate { remaining, .. } ==> remaining >= 1,
    ensures
        match r {
            Ok(o) => s2c_decide(st, ev@, *fmt, *icon) matches Ok(sv) && o@ == sv,
            Err(e) => s2c_decide(st, ev@, *fmt, *icon) matches Err(e2) && e == e2,
        },
{
    match st {
        S2cState::Idle => match ev {
            S2cEvent::Message(m) => match m {
                S2C::FramebufferUpdate { count } => {
                    let send_icon = fmt.bits_per_pixel == 32;
                    let out_count: u16 = if send_icon {
                        count + 1
                    } else {
                        count
                    };
                    let mut emits: Vec<Emit> = Vec::new();
                    emits.push(Emit::Message(S2C::FramebufferUpdate { count: out_count }));
                    if count == 0 {
                        if send_icon {
                            push_icon_emits(&mut emits, icon);
                        }
                        let o = S2cStep { consume_request: true, emits, next: S2cState::Idle };
                        proof {
                            let ghost sv = s2c_decide(st, ev@, *fmt, *icon)->Ok_0;
                            assert(o@.emits =~= sv.emits);
                        }
                        Ok(o)
                    } else {
                        let o = S2cStep {
                            consume_request: true,
                            emits,
                            next: S2cState::InUpdate {
                                remaining: count,
                                send_icon,
                                format: *fmt,
                            },
                        };
                        proof {
                            let ghost sv = s2c_decide(st, ev@, *fmt, *icon)->Ok_0;
                            assert(o@.emits =~= sv.emits);
                        }
                        Ok(o)
                    }
                },
                other => {
                    let mut emits: Vec<Emit> = Vec::new();
                    emits.push(Emit::Message(other));
                    let o = S2cStep { consume_request: false, emits, next: S2cState::Idle };
                    proof {
                        let ghost sv = s2c_decide(st, ev@, *fmt, *icon)->Ok_0;
                        assert(o@.emits =~= sv.emits);
                    }
                    Ok(o)
                },
            },
            S2cEvent::StateChanged => {
                if fmt.bits_per_pixel == 32 {
                    let mut emits: Vec<Emit> = Vec::new();
                    emits.push(Emit::Message(S2C::FramebufferUpdate { count: 1 }));
                    push_icon_emits(&mut emits, icon);
                    let o = S2cStep { consume_request: true, emits, next: S2cState::Idle };
                    proof {
                        let ghost sv = s2c_decide(st, ev@, *fmt, *icon)->Ok_0;
                        assert(o@.emits =~= sv.emits);
                    }
                    Ok(o)
                } else {
                    let o = S2cStep {
                        consume_request: false,
                        emits: Vec::new(),
                        next: S2cState::Idle,
                    };
                    proof {
                        let ghost sv = s2c_decide(st, ev@, *fmt, *icon)->Ok_0;
                        assert(o@.emits =~= sv.emits);
                    }
                    Ok(o)
                }
            },
            S2cEvent::Rect(_) => {
                proof {
                    assert(false);
                }
                Ok(S2cStep { consume_request: false, emits: Vec::new(), next: S2cState::Idle })
            },
        },
        S2cState::InUpdate { remaining, send_icon, format } => match ev {
            S2cEvent::Rect(rect) => {
                let relayable_now = match rect.encoding {
                    Encoding::Zrle => true,
                    Encoding::DesktopSize => true,
                    Encoding::Raw => true,
                    Encoding::Cursor => true,
                    Encoding::CopyRect => true,
                    _ => false,
                };
                if !relayable_now {
                    return Err(Error::Unsupported(rect.encoding.code()));
                }
                let mut emits: Vec<Emit> = Vec::new();
                emits.push(Emit::Rect(rect));
                match rect.encoding {
                    Encoding::Zrle => emits.push(Emit::RelayZrle),
                    Encoding::DesktopSize => (),
                    _ => emits.push(Emit::RelayBytes(rect.payload_size(&format))),
                }
                if remaining == 1 {
                    if send_icon {
                        push_icon_emits(&mut emits, icon);
                    }
                    let o = S2cStep { consume_request: false, emits, next: S2cState::Idle };
                    proof {
                        let ghost sv = s2c_decide(st, ev@, *fmt, *icon)->Ok_0;
                        assert(o@.emits =~= sv.emits);
                    }
                    Ok(o)
                } else {
                    let o = S2cStep {
                        consume_request: false,
                        emits,
                        next: S2cState::InUpdate { remaining: remaining - 1, send_icon, format },
                    };
                    proof {
                        let ghost sv = s2c_decide(st, ev@, *fmt, *icon)->Ok_0;
                        assert(o@.emits =~= sv.emits);
                    }
                    Ok(o)
                }
            },
            _ => {
                proof {
                    assert(false);
                }
                Ok(S2cStep { consume_request: false, emits: Vec::new(), next: st })
            },
        },
    }
}

/// Append the icon's rectangle header and pixel data actions.
fn push_icon_emits(emits: &mut Vec<Emit>, icon: &Icon)
    ensures
        final(emits)@ == old(emits)@ + seq![
            Emit::Rect(
                Rectangle {
                    x: icon.x,
                    y: icon.y,
                    width: icon.width,
                    height: icon.height,
                    encoding: Encoding::Raw,
                },
            ),
            Emit::IconData,
        ],
{
    emits.push(
        Emit::Rect(
            Rectangle {
                x: icon.x,
                y: icon.y,
                width: icon.width,
                height: icon.height,
                encoding: Encoding::Raw,
            },
        ),
    );
    emits.push(Emit::IconData);
    proof {
        assert(emits@ =~= old(emits)@ + seq![
            Emit::Rect(
                Rectangle {
                    x: icon.x,
                    y: icon.y,
                    width: icon.width,
                    height: icon.height,
                    encoding: Encoding::Raw,
                },
            ),
            Emit::IconData,
        ]);
    }
}

// ---------------------------------------------------------------------------
// Whole-frame laws
// ---------------------------------------------------------------------------

/// Actions of a whole relayed frame body: each rectangle header
/// followed by its payload relay, in order.
pub open spec fn frame_emits(rects: Seq<Rectangle>, format: PixelFormat) -> Seq<EmitV>
    decreases rects.len(),
{
    if rects.len() == 0 {
        Seq::<EmitV>::empty()
    } else {
        seq![EmitV::Rect(rects[0])] + rect_payload_emits(rects[0], format) + frame_emits(
            rects.skip(1),
            format,
        )
    }
}

/// Run the relay over the `rects` of one frame, concatenating the
/// actions of every step.
pub open spec fn s2c_run_rects(
    st: S2cState,
    rects: Seq<Rectangle>,
    fmt: PixelFormat,
    icon: Icon,
) -> Result<(Seq<EmitV>, S2cState), Error>
    decreases rects.len(),
{
    if rects.len() == 0 {
        Ok((Seq::<EmitV>::empty(), st))
    } else {
        match s2c_decide(st, S2cEventV::Rect(rects[0]), fmt, icon) {
            Ok(step) => match s2c_run_rects(step.next, rects.skip(1), fmt, icon) {
                Ok((emits, fin)) => Ok((step.emits + emits, fin)),
                Err(e) => Err(e),
            },
            Err(e) => Err(e),
        }
    }
}

/// A whole frame as the client sees it: the header decision, then every
/// rectangle of the frame.
pub open spec fn s2c_frame(count: u16, rects: Seq<Rectangle>, fmt: PixelFormat, icon: Icon) -> Result<
    Seq<EmitV>,
    Error,
> {
    match s2c_decide(
        S2cState::Idle,
        S2cEventV::Message(S2CV::FramebufferUpdate { count }),
        fmt,
        icon,
    ) {
        Ok(h) => match s2c_run_rects(h.next, rects, fmt, icon) {
            Ok((emits, _)) => Ok(h.emits + emits),
            Err(e) => Err(e),
        },
        Err(e) => Err(e),
    }
}

proof fn lemma_run_in_update(
    remaining: u16,
    send_icon: bool,
    format: PixelFormat,
    rects: Seq<Rectangle>,
    fmt: PixelFormat,
    icon: Icon,
)
    requires
        1 <= remaining,
        rects.len() == remaining,
        forall|i: int| 0 <= i < rects.len() ==> relayable(#[trigger] rects[i].encoding),
    ensures
        s2c_run_rects(
            S2cState::InUpdate { remaining, send_icon, format },
            rects,
            fmt,
            icon,
        ) == Ok::<_, Error>(
            (
                frame_emits(rects, format) + if send_icon {
                    icon_emits(icon)
                } else {
                    Seq::<EmitV>::empty()
                },
                S2cState::Idle,
            ),
        ),
    decreases remaining,
{
    let st = S2cState::InUpdate { remaining, send_icon, format };
    assert(relayable(rects[0].encoding));
    let step = s2c_decide(st, S2cEventV::Rect(rects[0]), fmt, icon)->Ok_0;
    let icon_part = if send_icon {
        icon_emits(icon)
    } else {
        Seq::<EmitV>::empty()
    };
    if remaining == 1 {
        assert(rects.skip(1).len() == 0);
        assert(s2c_run_rects(step.next, rects.skip(1), fmt, icon) == Ok::<
            (Seq<EmitV>, S2cState),
            Error,
        >((Seq::<EmitV>::empty(), step.next)));
        assert(step.next == S2cState::Idle);
        assert(frame_emits(rects.skip(1), format) =~= Seq::<EmitV>::empty());
        assert(step.emits + Seq::<EmitV>::empty() =~= frame_emits(rects, format) + icon_part);
        assert(s2c_run_rects(st, rects, fmt, icon) == Ok::<(Seq<EmitV>, S2cState), Error>(
            (step.emits + Seq::<EmitV>::empty(), S2cState::Idle),
        ));
    } else {
        assert(forall|i: int|
            0 <= i < rects.skip(1).len() ==> relayable(#[trigger] rects.skip(1)[i].encoding));
        lemma_run_in_update((remaining - 1) as u16, send_icon, format, rects.skip(1), fmt, icon);
        assert(step.next == (S2cState::InUpdate {
            remaining: (remaining - 1) as u16,
            send_icon,
            format,
        }));
        assert(s2c_run_rects(step.next, rects.skip(1), fmt, icon) == Ok::<
            (Seq<EmitV>, S2cState),
            Error,
        >((frame_emits(rects.skip(1), format) + icon_part, S2cState::Idle)));
        assert(step.emits + (frame_emits(rects.skip(1), format) + icon_part) =~= frame_emits(
            rects,
            format,
        ) + icon_part);
        assert(s2c_run_rects(st, rects, fmt, icon) == Ok::<(Seq<EmitV>, S2cState), Error>(
            (step.emits + (frame_emits(rects.skip(1), format) + icon_part), S2cState::Idle),
        ));
    }
}

/// Overlay injection at 32 bits per pixel: a server frame announcing
/// `count` rectangles, all of relayable encodings, reaches the client
/// as a header announcing `count + 1`, the `count` relayed rectangles
/// with their payloads, and the icon's Raw rectangle with its pixel
/// data, last. One client request is spent on the frame.
pub proof fn lemma_overlay_injection(count: u16, rects: Seq<Rectangle>, fmt: PixelFormat, icon: Icon)
    requires
        fmt.bits_per_pixel == 32,
        count < 0xffff,
        rects.len() == count,
        forall|i: int| 0 <= i < rects.len() ==> relayable(#[trigger] rects[i].encoding),
    ensures
        s2c_frame(count, rects, fmt, icon) == Ok::<_, Error>(
            seq![EmitV::Message(S2CV::FramebufferUpdate { count: (count + 1) as u16 })]
                + frame_emits(rects, fmt) + icon_emits(icon),
        ),
        s2c_decide(
            S2cState::Idle,
            S2cEventV::Message(S2CV::FramebufferUpdate { count }),
            fmt,
            icon,
        )->Ok_0.consume_request,
{
    let header = EmitV::Message(S2CV::FramebufferUpdate { count: (count + 1) as u16 });
    let h = s2c_decide(
        S2cState::Idle,
        S2cEventV::Message(S2CV::FramebufferUpdate { count }),
        fmt,
        icon,
    )->Ok_0;
    if count == 0 {
        assert(frame_emits(rects, fmt) =~= Seq::<EmitV>::empty());
        assert(h.emits + Seq::<EmitV>::empty() =~= seq![header] + frame_emits(rects, fmt)
            + icon_emits(icon));
    } else {
        lemma_run_in_update(count, true, fmt, rects, fmt, icon);
        assert(h.emits + (frame_emits(rects, fmt) + icon_emits(icon)) =~= seq![header]
            + frame_emits(rects, fmt) + icon_emits(icon));
    }
}

/// No injection away from 32 bits per pixel: the header count is not
/// rewritten and no extra rectangle is appended.
pub proof fn lemma_no_injection_non_32bpp(
    count: u16,
    rects: Seq<Rectangle>,
    fmt: PixelFormat,
    icon: Icon,
)
    requires
        fmt.bits_per_pixel != 32,
        rects.len() == count,
        forall|i: int| 0 <= i < rects.len() ==> relayable(#[trigger] rects[i].encoding),
    ensures
        s2c_frame(count, rects, fmt, icon) == Ok::<_, Error>(
            seq![EmitV::Message(S2CV::FramebufferUpdate { count })] + frame_emits(rects, fmt),
        ),
{
    let header = EmitV::Message(S2CV::FramebufferUpdate { count });
    let h = s2c_decide(
        S2cState::Idle,
        S2cEventV::Message(S2CV::FramebufferUpdate { count }),
        fmt,
        icon,
    )->Ok_0;
    if count == 0 {
        assert(frame_emits(rects, fmt) =~= Seq::<EmitV>::empty());
        assert(h.emits + Seq::<EmitV>::empty() =~= seq![header] + frame_emits(rects, fmt));
    } else {
        lemma_run_in_update(count, false, fmt, rects, fmt, icon);
        assert(h.emits + (frame_emits(rects, fmt) + Seq::<EmitV>::empty()) =~= seq![header]
            + frame_emits(rects, fmt));
    }
}

/// A state change while the format is not 32 bits per pixel does
/// nothing: no request is spent and nothing is written. At 32 bits per
/// pixel it spends one request and sends an unsolicited one-rectangle
/// update holding exactly the icon.
pub proof fn lemma_state_change(fmt: PixelFormat, icon: Icon)
    ensures
        fmt.bits_per_pixel != 32 ==> s2c_decide(
            S2cState::Idle,
            S2cEventV::StateChanged,
            fmt,
            icon,
        ) == Ok::<_, Error>(
            S2cStepV {
                consume_request: false,
                emits: Seq::<EmitV>::empty(),
                next: S2cState::Idle,
            },
        ),
        fmt.bits_per_pixel == 32 ==> s2c_decide(
            S2cState::Idle,
            S2cEventV::StateChanged,
            fmt,
            icon,
        ) == Ok::<_, Error>(
            S2cStepV {
                consume_request: true,
                emits: seq![EmitV::Message(S2CV::FramebufferUpdate { count: 1u16 })] + icon_emits(
                    icon,
                ),
                next: S2cState::Idle,
            },
        ),
{
}

} // verus!
