//! Events of the virtio keyboard and mouse, and how mouse motion moves the cursor.
use vstd::prelude::*;
use crate::config::{VIRTGPU_XRES, VIRTGPU_YRES};

verus! {

/// An event reported by a virtio input device.
#[derive(Clone, Copy, Debug, PartialEq, Eq, Structural)]
pub struct InputEvent {
    pub event_type: u16,
    pub code: u16,
    pub value: u32,
}

/// Type of the relative motion events (`EV_REL`) the mouse reports.
pub const EV_REL: u16 = 2;
/// Code of horizontal motion (`REL_X`).
pub const AXIS_X: u16 = 0;
/// Code of vertical motion (`REL_Y`).
pub const AXIS_Y: u16 = 1;

/// The event packed in 64 bits: its type, code and value from high to low.
pub open spec fn encode_event(e: InputEvent) -> u64 {
    ((e.event_type as u64) << 48u64) | ((e.code as u64) << 32u64) | (e.value as u64)
}

/// The value of the last relative motion event (`EV_REL`) on the axis `code`,
/// as a signed number.
pub open spec fn last_motion(events: Seq<InputEvent>, code: u16) -> Option<i32>
    decreases events.len(),
{
    if events.len() == 0 {
        None
    } else if events.last().event_type == EV_REL && events.last().code == code {
        Some(events.last().value as i32)
    } else {
        last_motion(events.drop_last(), code)
    }
}

/// `v` brought into `[0, limit - 1]`.
pub open spec fn clamp_axis(v: int, limit: int) -> int {
    if v < 0 { 0 } else if v >= limit { limit - 1 } else { v }
}

/// The cursor position after the events, from `pos`: the value of the last
/// relative motion event (`EV_REL`) on each axis (`REL_X`, `REL_Y`) is added
/// to the position and the result kept on the screen. `None` when no `EV_REL`
/// event on either axis is among the events.
pub open spec fn moved_cursor(events: Seq<InputEvent>, pos: (u32, u32)) -> Option<(u32, u32)> {
    let dx = last_motion(events, AXIS_X);
    let dy = last_motion(events, AXIS_Y);
    if dx is None && dy is None {
        None
    } else {
        let nx = (pos.0 as i32) as int + match dx { Some(d) => d as int, None => 0 };
        let ny = (pos.1 as i32) as int + match dy { Some(d) => d as int, None => 0 };
        Some((clamp_axis(nx, VIRTGPU_XRES as int) as u32, clamp_axis(ny, VIRTGPU_YRES as int) as u32))
    }
}

/// The motion of the events, added to `pos` in 32-bit signed arithmetic, does
/// not overflow.
pub open spec fn motion_fits(events: Seq<InputEvent>, pos: (u32, u32)) -> bool {
    &&& i32::MIN <= (pos.0 as i32) as int + match last_motion(events, AXIS_X) { Some(d) => d as int, None => 0 } <= i32::MAX
    &&& i32::MIN <= (pos.1 as i32) as int + match last_motion(events, AXIS_Y) { Some(d) => d as int, None => 0 } <= i32::MAX
}

/// Whether the cursor at `pos` can be moved by the events `pending` without
/// overflow, as `handle_irq` requires.
pub fn cursor_move_fits(pending: &[InputEvent], pos: (u32, u32)) -> (r: bool)
    ensures
        r == motion_fits(pending@, pos),
{
    let mut dx: i64 = 0;
    let mut dy: i64 = 0;
    let mut i: usize = 0;
    while i < pending.len()
        invariant
            i <= pending@.len(),
            dx == match last_motion(pending@.take(i as int), AXIS_X) { Some(d) => d as int, None => 0 },
            dy == match last_motion(pending@.take(i as int), AXIS_Y) { Some(d) => d as int, None => 0 },
        decreases pending@.len() - i,
    {
        let event = pending[i];
        if event.event_type == EV_REL {
            if event.code == AXIS_X {
                dx = event.value as i32 as i64;
            } else if event.code == AXIS_Y {
                dy = event.value as i32 as i64;
            }
        }
        proof {
            let t = pending@.take(i + 1);
            assert(t.drop_last() =~= pending@.take(i as int));
            assert(t.last() == event);
        }
        i = i + 1;
    }
    assert(pending@.take(pending@.len() as int) =~= pending@);
    let x = pos.0 as i32 as i64 + dx;
    let y = pos.1 as i32 as i64 + dy;
    i32::MIN as i64 <= x && x <= i32::MAX as i64 && i32::MIN as i64 <= y && y <= i32::MAX as i64
}

/// What an interrupt of an input device yields: the events to queue, packed,
/// and the new cursor position when the mouse moved.
pub struct IrqOutcome {
    pub events: Vec<u64>,
    pub cursor: Option<(u32, u32)>,
}

/// Handles the events `pending` taken from an input device, with the cursor
/// at `pos`: packs each event, and moves the cursor by the last motion on each
/// axis, keeping it on the screen.
pub fn handle_irq(pending: &[InputEvent], pos: (u32, u32)) -> (r: IrqOutcome)
    requires
        motion_fits(pending@, pos),
    ensures
        r.events@.len() == pending@.len(),
        forall|i: int| 0 <= i < pending@.len() ==> #[trigger] r.events@[i] == encode_event(pending@[i]),
        r.cursor == moved_cursor(pending@, pos),
{
    let mut events: Vec<u64> = Vec::new();
    let mut x_delta: i32 = 0;
    let mut y_delta: i32 = 0;
    let mut has_mouse_movement = false;
    let mut i: usize = 0;
    while i < pending.len()
        invariant
            i <= pending@.len(),
            events@.len() == i,
            forall|j: int| 0 <= j < i ==> #[trigger] events@[j] == encode_event(pending@[j]),
            x_delta == match last_motion(pending@.take(i as int), AXIS_X) { Some(d) => d, None => 0i32 },
            y_delta == match last_motion(pending@.take(i as int), AXIS_Y) { Some(d) => d, None => 0i32 },
            has_mouse_movement == (last_motion(pending@.take(i as int), AXIS_X) is Some
                || last_motion(pending@.take(i as int), AXIS_Y) is Some),
        decreases pending@.len() - i,
    {
        let event = pending[i];
        let result = ((event.event_type as u64) << 48u64) | ((event.code as u64) << 32u64) | (event.value as u64);
        if event.event_type == EV_REL {
            if event.code == AXIS_X {
                x_delta = event.value as i32;
                has_mouse_movement = true;
            } else if event.code == AXIS_Y {
                y_delta = event.value as i32;
                has_mouse_movement = true;
            }
        }
        events.push(result);
        proof {
            let t = pending@.take(i + 1);
            assert(t.drop_last() =~= pending@.take(i as int));
            assert(t.last() == event);
        }
        i = i + 1;
    }
    assert(pending@.take(pending@.len() as int) =~= pending@);
    let cursor = if has_mouse_movement {
        let mut new_x = pos.0 as i32 + x_delta;
        let mut new_y = pos.1 as i32 + y_delta;
        if new_x < 0 {
            new_x = 0;
        }
        if new_y < 0 {
            new_y = 0;
        }
        if new_x >= VIRTGPU_XRES as i32 {
            new_x = VIRTGPU_XRES as i32 - 1;
        }
        if new_y >= VIRTGPU_YRES as i32 {
            new_y = VIRTGPU_YRES as i32 - 1;
        }
        Some((new_x as u32, new_y as u32))
    } else {
        None
    };
    IrqOutcome { events, cursor }
}

} // verus!

verus! {

/// The cursor moves to the position plus the last motion on each axis, held
/// at the edges of the screen: a sum below zero stops at 0, a sum at or past
/// the resolution stops at the last row or column, and a sum on the screen is
/// taken as it is. An axis without motion keeps its place (when on screen).
pub proof fn lemma_cursor_follows_motion(events: Seq<InputEvent>, pos: (u32, u32))
    ensures
        moved_cursor(events, pos) is Some <==> (last_motion(events, AXIS_X) is Some || last_motion(events, AXIS_Y) is Some),
        moved_cursor(events, pos) matches Some(p) ==> {
            let nx = (pos.0 as i32) as int + match last_motion(events, AXIS_X) { Some(d) => d as int, None => 0 };
            let ny = (pos.1 as i32) as int + match last_motion(events, AXIS_Y) { Some(d) => d as int, None => 0 };
            &&& (nx < 0 ==> p.0 == 0)
            &&& (nx >= 1280 ==> p.0 == 1279)
            &&& (0 <= nx < 1280 ==> p.0 == nx)
            &&& (ny < 0 ==> p.1 == 0)
            &&& (ny >= 800 ==> p.1 == 799)
            &&& (0 <= ny < 800 ==> p.1 == ny)
        },
{
}

/// Moving further one way never moves the cursor back the other way: the new
/// position on each axis grows with the motion on that axis.
pub proof fn lemma_cursor_monotone(a: Seq<InputEvent>, b: Seq<InputEvent>, pos: (u32, u32))
    requires
        moved_cursor(a, pos) is Some,
        moved_cursor(b, pos) is Some,
    ensures
        match (last_motion(a, AXIS_X), last_motion(b, AXIS_X)) {
            (Some(da), Some(db)) => da <= db ==> moved_cursor(a, pos).unwrap().0 <= moved_cursor(b, pos).unwrap().0,
            _ => true,
        },
        match (last_motion(a, AXIS_Y), last_motion(b, AXIS_Y)) {
            (Some(da), Some(db)) => da <= db ==> moved_cursor(a, pos).unwrap().1 <= moved_cursor(b, pos).unwrap().1,
            _ => true,
        },
{
}

/// The mouse never moves the cursor off the screen.
pub proof fn lemma_cursor_on_screen(events: Seq<InputEvent>, pos: (u32, u32))
    ensures
        moved_cursor(events, pos) matches Some(p) ==> p.0 < VIRTGPU_XRES && p.1 < VIRTGPU_YRES,
{
}

} // verus!
