//! Where the panel goes on the screen.
use vstd::prelude::*;

verus! {

/// The area of a monitor on the desktop, in physical pixels.
#[derive(Debug, Clone, Copy, PartialEq, Eq, Structural)]
pub struct MonitorArea {
    pub x: i32,
    pub y: i32,
    pub width: u32,
    pub height: u32,
}

/// The height of the panel, in physical pixels, when it is fixed.
pub const PANEL_HEIGHT: i32 = 470;

/// `v` fits an `i32`.
pub open spec fn fits_i32(v: int) -> bool {
    i32::MIN <= v <= i32::MAX
}

/// The right and bottom edges of `m` can be computed as far as the test
/// whether the point `(cx, cy)` lies on `m` needs them.
pub open spec fn edges_computable(m: MonitorArea, cx: i32, cy: i32) -> bool {
    &&& cx >= m.x ==> fits_i32(m.x + (m.width as i32))
    &&& (cx >= m.x && cx < m.x + (m.width as i32) && cy >= m.y) ==> fits_i32(
        m.y + (m.height as i32),
    )
}

/// The point `(cx, cy)` lies on the monitor `m`.
pub open spec fn on_monitor(m: MonitorArea, cx: i32, cy: i32) -> bool {
    cx >= m.x && cx < m.x + (m.width as i32) && cy >= m.y && cy < m.y + (m.height as i32)
}

/// The first position at or after `i` of a monitor that the point lies on,
/// or the length.
pub open spec fn monitor_pos(ms: Seq<MonitorArea>, cx: i32, cy: i32, i: int) -> int
    decreases ms.len() - i,
{
    if 0 <= i < ms.len() && !on_monitor(ms[i], cx, cy) {
        monitor_pos(ms, cx, cy, i + 1)
    } else {
        i
    }
}

/// The first monitor that the cursor `(cx, cy)` lies on.
pub fn monitor_at(cx: i32, cy: i32, monitors: &Vec<MonitorArea>) -> (r: Option<usize>)
    requires
        forall|k: int|
            0 <= k < monitors@.len() && (forall|j: int| 0 <= j < k ==> !on_monitor(
                #[trigger] monitors@[j],
                cx,
                cy,
            )) ==> edges_computable(monitors@[k], cx, cy),
    ensures
        match r {
            Some(i) => i == monitor_pos(monitors@, cx, cy, 0) && i < monitors@.len(),
            None => monitor_pos(monitors@, cx, cy, 0) == monitors@.len(),
        },
{
    let mut i: usize = 0;
    while i < monitors.len()
        invariant
            i <= monitors.len(),
            forall|j: int| 0 <= j < i ==> !on_monitor(#[trigger] monitors@[j], cx, cy),
            monitor_pos(monitors@, cx, cy, 0) == monitor_pos(monitors@, cx, cy, i as int),
            forall|k: int|
                0 <= k < monitors@.len() && (forall|j: int| 0 <= j < k ==> !on_monitor(
                    #[trigger] monitors@[j],
                    cx,
                    cy,
                )) ==> edges_computable(monitors@[k], cx, cy),
        decreases monitors.len() - i,
    {
        let m = monitors[i];
        assert(edges_computable(m, cx, cy));
        if cx >= m.x && cx < m.x + m.width as i32 && cy >= m.y && cy < m.y + m.height as i32 {
            return Some(i);
        }
        i = i + 1;
    }
    None
}

/// A rectangle on the desktop, in physical pixels.
#[derive(Debug, Clone, Copy, PartialEq, Eq, Structural)]
pub struct PanelRect {
    pub x: i32,
    pub y: i32,
    pub width: u32,
    pub height: u32,
}

/// The panel along the bottom of the monitor `m`: its full width and
/// `PANEL_HEIGHT` high.
pub fn taskbar_panel(m: MonitorArea) -> (r: PanelRect)
    requires
        fits_i32(m.y + (m.height as i32)),
        fits_i32(m.y + (m.height as i32) - PANEL_HEIGHT),
    ensures
        r == (PanelRect {
            x: m.x,
            y: (m.y + (m.height as i32) - PANEL_HEIGHT) as i32,
            width: ((m.width as i32) as u32),
            height: PANEL_HEIGHT as u32,
        }),
{
    let panel_width = m.width as i32;
    let panel_height = PANEL_HEIGHT;
    let y = m.y + m.height as i32 - panel_height;
    PanelRect { x: m.x, y, width: panel_width as u32, height: panel_height as u32 }
}

} // verus!
