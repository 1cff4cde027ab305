//! A verified core for a man-in-the-middle RFB (VNC) proxy.
//!
//! The crate holds the protocol codec ([`rfb`]), the handshake driver
//! ([`handshake`]), the per-direction relay decision machines ([`relay`])
//! and the shared data model (this module). Network transport and task
//! scheduling live outside the crate; they feed bytes and events into
//! these functions and carry out the actions the functions return.

pub mod handshake;
pub mod relay;
pub mod rfb;
pub mod wire;

pub use rfb::DecodeError;

use vstd::prelude::*;

verus! {

/// Proxy-local identifier for one connected client, assigned at accept
/// time.
pub type ClientId = usize;

/// An event funnelled from a per-client relay into the state writer.
#[derive(Debug, Clone, Copy, PartialEq, Eq, Structural)]
pub enum Event {
    /// The client clicked inside the overlay icon.
    Action { id: ClientId },
    /// The client's connection ended.
    Disconnect { id: ClientId },
}

/// A per-connection failure, fatal to that connection only.
#[derive(Debug, Clone, PartialEq, Eq)]
pub enum Error {
    /// Network read or write failure, including an unexpected EOF.
    Io,
    /// Malformed wire bytes.
    Decode(DecodeError),
    /// The upstream refused the handshake; carries its reason bytes.
    Protocol(Vec<u8>),
    /// A server rectangle with an encoding the proxy cannot size;
    /// carries the wire tag.
    Unsupported(i32),
}

/// The overlay icon a state provider paints over a client's
/// framebuffer: position, size, and 32-bits-per-pixel RGBA data.
#[derive(Debug, Clone, PartialEq, Eq)]
pub struct Icon {
    pub x: u16,
    pub y: u16,
    pub width: u16,
    pub height: u16,
    pub rgba_data: Vec<u8>,
}

impl Icon {
    /// The RGBA payload covers the icon exactly, 4 bytes per pixel.
    pub open spec fn wf(&self) -> bool {
        self.rgba_data.len() == self.width * self.height * 4
    }

    /// `(x, y)` lies inside this icon's bounding box.
    pub open spec fn spec_in_bounds(&self, x: u16, y: u16) -> bool {
        &&& self.x <= x < self.x + self.width
        &&& self.y <= y < self.y + self.height
    }

    /// Whether `(x, y)` lies inside this icon's bounding box.
    pub fn in_bounds(&self, x: u16, y: u16) -> (r: bool)
        ensures
            r == self.spec_in_bounds(x, y),
    {
        self.x <= x && (x as u32) < (self.x as u32) + (self.width as u32) && self.y <= y && (
        y as u32) < (self.y as u32) + (self.height as u32)
    }
}

/// The pluggable application state that drives the overlay. One value
/// is shared by all clients; only the state writer calls
/// `handle_event`.
pub trait State {
    /// The icon to paint for this client. Must be deterministic with
    /// respect to the current state.
    fn icon(&self, id: ClientId) -> Icon;

    /// Apply one event; the result says whether observable state
    /// changed (and subscribers should be woken).
    fn handle_event(&mut self, event: Event) -> bool;

    /// Advisory: whether this client's input should be honoured.
    fn enable_input(&self, id: ClientId) -> bool;
}

} // verus!
