//! The motion sample type and the capability interface that a display-server
//! backend offers to the host loop.

use vstd::prelude::*;

verus! {

/// A single pointer motion sample received from the display server.
#[derive(Clone, Copy, Debug, PartialEq, Eq, Structural)]
pub struct MotionEvent {
    /// Cursor X position in pixels, relative to the root window origin.
    pub x: i16,
    /// Cursor Y position in pixels, relative to the root window origin.
    pub y: i16,
    /// Timestamp in milliseconds, as reported by the display server.
    /// A monotonic counter within a session; it may reset to a smaller
    /// value if the server restarts.
    pub timestamp: u32,
}

/// The whole-pixel part of a fixed-point 16.16 coordinate: the value
/// divided by 2^16, rounded toward negative infinity.
pub open spec fn fp1616_whole(v: i32) -> int {
    v as int / 65536
}

/// Convert a fixed-point 16.16 coordinate, as XInput2 reports pointer
/// positions, to its whole-pixel part. Every such whole part fits in the
/// signed 16-bit range of a screen coordinate.
pub fn fp1616_to_pixel(v: i32) -> (r: i16)
    ensures
        r as int == fp1616_whole(v),
{
    if v >= 0 {
        let q = v / 65536;
        proof {
            vstd::arithmetic::div_mod::lemma_fundamental_div_mod(v as int, 65536);
            vstd::arithmetic::div_mod::lemma_mod_pos_bound(v as int, 65536);
        }
        q as i16
    } else {
        let m: i64 = -(v as i64);
        let q = (m - 1) / 65536;
        let rem = (m - 1) % 65536;
        proof {
            vstd::arithmetic::div_mod::lemma_fundamental_div_mod(m as int - 1, 65536);
            vstd::arithmetic::div_mod::lemma_mod_pos_bound(m as int - 1, 65536);
            vstd::arithmetic::div_mod::lemma_fundamental_div_mod_converse(
                v as int,
                65536,
                -q - 1,
                65536 - rem - 1,
            );
        }
        (-q - 1) as i16
    }
}

/// The contract that any display-server backend fulfills for the host loop.
///
/// The gesture core never calls these methods itself; the host owns the
/// backend, pulls samples from it, and pushes resize requests back to it.
pub trait DisplayBackend {
    /// Connect to the display server and subscribe to pointer motion events.
    fn connect(&mut self) -> Result<(), String>;

    /// Block until the next pointer motion event arrives; `None` signals a
    /// permanent disconnection.
    fn next_motion_event(&mut self) -> Option<MotionEvent>;

    /// Change the cursor to the given size in pixels.
    fn set_cursor_size(&mut self, size: u32) -> Result<(), String>;

    /// Disconnect from the display server and release resources.
    fn disconnect(&mut self);
}

} // verus!
