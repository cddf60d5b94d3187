//! Where the floating windows go. All coordinates are physical pixels.

use vstd::prelude::*;

verus! {

/// A rectangle of a monitor.
#[derive(PartialEq, Eq, Structural, Clone, Copy, Debug)]
pub struct MonitorRect {
    /// Left edge
    pub left: i32,
    /// Top edge
    pub top: i32,
    /// Right edge
    pub right: i32,
    /// Bottom edge
    pub bottom: i32,
}

/// The rectangle of the tray icon.
#[derive(PartialEq, Eq, Structural, Clone, Copy, Debug)]
pub struct IconRect {
    /// Left edge
    pub left: i32,
    /// Top edge
    pub top: i32,
    /// Right edge
    pub right: i32,
    /// Bottom edge
    pub bottom: i32,
}

/// What the place of the preview card depends on.
#[derive(PartialEq, Eq, Structural, Clone, Copy, Debug)]
pub struct PreviewLayout {
    /// Left edge of the panel
    pub panel_left: i32,
    /// Right edge of the panel
    pub panel_right: i32,
    /// Width of the card
    pub card_w: i32,
    /// Height of the card
    pub card_h: i32,
    /// Gap between card and panel
    pub gap: i32,
    /// Where the card wants to be, level with the highlighted row
    pub desired_y: i32,
}

/// The smaller of two numbers.
pub open spec fn least(a: int, b: int) -> int {
    if a <= b {
        a
    } else {
        b
    }
}

/// The larger of two numbers.
pub open spec fn most(a: int, b: int) -> int {
    if a >= b {
        a
    } else {
        b
    }
}

fn smaller(a: i32, b: i32) -> (r: i32)
    ensures
        r == least(a as int, b as int),
{
    if a <= b {
        a
    } else {
        b
    }
}

fn larger(a: i32, b: i32) -> (r: i32)
    ensures
        r == most(a as int, b as int),
{
    if a >= b {
        a
    } else {
        b
    }
}

/// Whether a number is a coordinate.
pub open spec fn fits(n: int) -> bool {
    i32::MIN <= n <= i32::MAX
}

impl PreviewLayout {
    /// Room on the right of the panel.
    pub open spec fn space_right(self, mon: MonitorRect) -> int {
        mon.right - (self.panel_right + self.gap)
    }

    /// Room on the left of the panel.
    pub open spec fn space_left(self, mon: MonitorRect) -> int {
        (self.panel_left - self.gap) - mon.left
    }

    /// Whether the card goes to the right: where it fits, or where it fits on
    /// neither side and there is at least as much room.
    pub open spec fn on_the_right(self, mon: MonitorRect) -> bool {
        self.space_right(mon) >= self.card_w || (self.space_left(mon) < self.card_w && self.space_right(
            mon,
        ) >= self.space_left(mon))
    }

    /// Where the card goes: beside the panel, pushed back onto the screen.
    pub open spec fn place(self, mon: MonitorRect) -> (int, int) {
        let x = if self.on_the_right(mon) {
            self.panel_right + self.gap
        } else {
            self.panel_left - self.gap - self.card_w
        };
        (
            most(least(x, mon.right - self.card_w), mon.left as int),
            most(least(self.desired_y as int, mon.bottom - self.card_h), mon.top as int),
        )
    }

    /// Whether the geometry stays within the coordinates.
    pub open spec fn within(self, mon: MonitorRect) -> bool {
        &&& fits(self.panel_right + self.gap)
        &&& fits(self.space_right(mon))
        &&& fits(self.panel_left - self.gap)
        &&& fits(self.space_left(mon))
        &&& fits(self.panel_left - self.gap - self.card_w)
        &&& fits(mon.right - self.card_w)
        &&& fits(mon.bottom - self.card_h)
    }
}

/// Places the preview card.
pub fn place_preview(layout: PreviewLayout, mon: MonitorRect) -> (r: (i32, i32))
    requires
        layout.within(mon),
    ensures
        r.0 == layout.place(mon).0,
        r.1 == layout.place(mon).1,
{
    let space_right: i32 = mon.right - (layout.panel_right + layout.gap);
    let space_left: i32 = (layout.panel_left - layout.gap) - mon.left;
    let put_right = space_right >= layout.card_w || (space_left < layout.card_w && space_right
        >= space_left);
    let x: i32 = if put_right {
        layout.panel_right + layout.gap
    } else {
        layout.panel_left - layout.gap - layout.card_w
    };
    (
        larger(smaller(x, mon.right - layout.card_w), mon.left),
        larger(smaller(layout.desired_y, mon.bottom - layout.card_h), mon.top),
    )
}

/// A card that fits the screen lies on it.
pub proof fn law_preview_stays_on_screen(layout: PreviewLayout, mon: MonitorRect)
    requires
        layout.card_w <= mon.right - mon.left,
        layout.card_h <= mon.bottom - mon.top,
    ensures
        mon.left <= layout.place(mon).0,
        layout.place(mon).0 + layout.card_w <= mon.right,
        mon.top <= layout.place(mon).1,
        layout.place(mon).1 + layout.card_h <= mon.bottom,
{
}

/// A number pushed into a range; the lower bound wins where the range is
/// empty.
pub open spec fn pushed_into(n: int, low: int, high: int) -> int {
    let top = most(high, low);
    if n < low {
        low
    } else if n > top {
        top
    } else {
        n
    }
}

/// Where a panel goes that wants to be at a point: within the area.
pub open spec fn panel_within(x: int, y: int, width: int, height: int, area: MonitorRect) -> (int, int) {
    (
        pushed_into(x, area.left as int, area.right - width),
        pushed_into(y, area.top as int, area.bottom - height),
    )
}

/// Where the panel goes beside the tray icon: growing away from the edge of
/// the screen that the icon is at.
/// `sums` are left plus right and top plus bottom of the icon.
pub open spec fn panel_at_icon(
    icon: IconRect,
    sums: (int, int),
    width: int,
    height: int,
    area: MonitorRect,
) -> (int, int) {
    let x = if sums.0 < area.left + area.right {
        icon.left as int
    } else {
        icon.right - width
    };
    let y = if sums.1 < area.top + area.bottom {
        icon.bottom as int
    } else {
        icon.top - height
    };
    panel_within(x, y, width, height, area)
}

fn push_into(n: i32, low: i32, high: i32) -> (r: i32)
    ensures
        r == pushed_into(n as int, low as int, high as int),
{
    let top: i32 = larger(high, low);
    if n < low {
        low
    } else if n > top {
        top
    } else {
        n
    }
}

/// Places the panel at the pointer.
pub fn place_panel_at_cursor(x: i32, y: i32, panel: (i32, i32), area: MonitorRect) -> (r: (i32, i32))
    requires
        fits(area.right - panel.0),
        fits(area.bottom - panel.1),
    ensures
        r.0 == panel_within(x as int, y as int, panel.0 as int, panel.1 as int, area).0,
        r.1 == panel_within(x as int, y as int, panel.0 as int, panel.1 as int, area).1,
{
    (
        push_into(x, area.left, area.right - panel.0),
        push_into(y, area.top, area.bottom - panel.1),
    )
}

/// Places the panel beside the tray icon. `sums` are left plus right and top
/// plus bottom of the icon, rounded down: where the icon does not lie on whole
/// pixels they tell the half of the area that its middle is in, which the
/// truncated sides do not.
pub fn place_panel_beside(icon: IconRect, sums: (i64, i64), panel: (i32, i32), area: MonitorRect) -> (r: (
    i32,
    i32,
))
    requires
        fits(area.right - panel.0),
        fits(area.bottom - panel.1),
        fits(icon.right - panel.0),
        fits(icon.top - panel.1),
    ensures
        ({
            let place = panel_at_icon(
                icon,
                (sums.0 as int, sums.1 as int),
                panel.0 as int,
                panel.1 as int,
                area,
            );
            r.0 == place.0 && r.1 == place.1
        }),
{
    let below_icon = sums.1 < (area.top as i64 + area.bottom as i64);
    let left_half = sums.0 < (area.left as i64 + area.right as i64);
    let y: i32 = if below_icon {
        icon.bottom
    } else {
        icon.top - panel.1
    };
    let x: i32 = if left_half {
        icon.left
    } else {
        icon.right - panel.0
    };
    place_panel_at_cursor(x, y, panel, area)
}

/// Places the panel beside a tray icon that lies on whole pixels.
pub fn place_panel_at_tray(icon: IconRect, panel: (i32, i32), area: MonitorRect) -> (r: (i32, i32))
    requires
        fits(area.right - panel.0),
        fits(area.bottom - panel.1),
        fits(icon.right - panel.0),
        fits(icon.top - panel.1),
    ensures
        ({
            let sums = (icon.left + icon.right, icon.top + icon.bottom);
            let place = panel_at_icon(icon, sums, panel.0 as int, panel.1 as int, area);
            r.0 == place.0 && r.1 == place.1
        }),
{
    let sums: (i64, i64) = (
        icon.left as i64 + icon.right as i64,
        icon.top as i64 + icon.bottom as i64,
    );
    place_panel_beside(icon, sums, panel, area)
}

/// A panel that fits the area lies in it.
pub proof fn law_panel_stays_in_the_area(x: int, y: int, width: int, height: int, area: MonitorRect)
    requires
        width <= area.right - area.left,
        height <= area.bottom - area.top,
    ensures
        area.left <= panel_within(x, y, width, height, area).0,
        panel_within(x, y, width, height, area).0 + width <= area.right,
        area.top <= panel_within(x, y, width, height, area).1,
        panel_within(x, y, width, height, area).1 + height <= area.bottom,
{
}

/// The height of the settings window, in pixels: the content and the frame,
/// within the bounds; nothing when the change is too small to matter.
pub open spec fn fitted_height(
    content: u32,
    frame: u32,
    least_content: u32,
    highest: Option<u32>,
    now: u32,
) -> Option<int> {
    let wanted = content + frame;
    let capped = match highest {
        Some(h) => least(wanted, h as int),
        None => wanted,
    };
    let target = most(capped, least_content + frame);
    if -2 < target - now < 2 {
        None
    } else {
        Some(target)
    }
}

/// Fits the height of the settings window to its content.
pub fn fit_height(content: u32, frame: u32, least_content: u32, highest: Option<u32>, now: u32) -> (r: Option<
    u32,
>)
    requires
        content + frame <= u32::MAX,
        least_content + frame <= u32::MAX,
    ensures
        match r {
            Some(h) => fitted_height(content, frame, least_content, highest, now) == Some(h as int),
            None => fitted_height(content, frame, least_content, highest, now) is None,
        },
{
    let mut target: u32 = content + frame;
    match highest {
        Some(h) => {
            if h < target {
                target = h;
            }
        },
        None => {},
    }
    let floor: u32 = least_content + frame;
    if floor > target {
        target = floor;
    }
    let far = if target >= now {
        target - now
    } else {
        now - target
    };
    if far < 2 {
        None
    } else {
        Some(target)
    }
}

/// What a trigger of the panel does.
#[derive(PartialEq, Eq, Structural, Clone, Copy, Debug)]
pub enum PanelStep {
    /// It is in front: dismiss it
    Hide,
    /// It was dismissed by the same gesture: leave it
    Stay,
    /// Show it
    Show,
}

/// How long after a dismissal a trigger still belongs to the same gesture.
pub const SAME_GESTURE_MS: u64 = 300;

/// What a trigger of the panel does: it toggles, and a click that took the
/// focus away first does not bring the panel back.
pub fn panel_trigger(visible: bool, focused: bool, now_ms: u64, last_blur_hide_ms: u64) -> (r: PanelStep)
    ensures
        r == (if visible && focused {
            PanelStep::Hide
        } else if now_ms < last_blur_hide_ms + SAME_GESTURE_MS {
            PanelStep::Stay
        } else {
            PanelStep::Show
        }),
{
    if visible && focused {
        return PanelStep::Hide;
    }
    let since: u64 = if now_ms >= last_blur_hide_ms {
        now_ms - last_blur_hide_ms
    } else {
        0
    };
    if since < SAME_GESTURE_MS {
        PanelStep::Stay
    } else {
        PanelStep::Show
    }
}

/// The card goes to the right of the panel where it fits there, else to the left
/// where it fits there, else to the side with more room; it keeps the height that
/// it wants where the screen allows it.
pub proof fn law_card_goes_beside_the_panel(layout: PreviewLayout, mon: MonitorRect)
    requires
        layout.card_w <= mon.right - mon.left,
        mon.left <= layout.panel_left,
        layout.panel_right <= mon.right,
        layout.gap >= 0,
        layout.panel_left <= layout.panel_right,
    ensures
        ({
            let right = mon.right - layout.panel_right - layout.gap;
            let left = layout.panel_left - layout.gap - mon.left;
            let x = layout.place(mon).0;
            let y = layout.place(mon).1;
            &&& right >= layout.card_w ==> x == layout.panel_right + layout.gap
            &&& right < layout.card_w && left >= layout.card_w ==> x == layout.panel_left
                - layout.gap - layout.card_w
            &&& right < layout.card_w && left < layout.card_w && right >= left ==> x == mon.right
                - layout.card_w
            &&& right < layout.card_w && left < layout.card_w && right < left ==> x == mon.left
            &&& mon.top <= layout.desired_y && layout.desired_y + layout.card_h <= mon.bottom ==> y
                == layout.desired_y
            &&& layout.desired_y < mon.top && layout.card_h <= mon.bottom - mon.top ==> y == mon.top
            &&& layout.desired_y + layout.card_h > mon.bottom && layout.card_h <= mon.bottom
                - mon.top ==> y == mon.bottom - layout.card_h
        }),
{
}

/// A panel that fits where it wants to be stays there; one that would stick out
/// is moved by as little as it takes.
pub proof fn law_panel_moves_no_more_than_it_must(
    x: int,
    y: int,
    width: int,
    height: int,
    area: MonitorRect,
)
    requires
        width <= area.right - area.left,
        height <= area.bottom - area.top,
    ensures
        area.left <= x && x + width <= area.right ==> panel_within(x, y, width, height, area).0 == x,
        x < area.left ==> panel_within(x, y, width, height, area).0 == area.left,
        x + width > area.right ==> panel_within(x, y, width, height, area).0 == area.right - width,
        area.top <= y && y + height <= area.bottom ==> panel_within(x, y, width, height, area).1 == y,
        y < area.top ==> panel_within(x, y, width, height, area).1 == area.top,
        y + height > area.bottom ==> panel_within(x, y, width, height, area).1 == area.bottom
            - height,
{
}

/// Beside an icon in the left half of the area the panel begins at the left edge
/// of the icon, in the right half it ends at the right edge; in the upper half it
/// hangs below the icon, in the lower half it stands above.
pub proof fn law_panel_grows_away_from_the_edge(
    icon: IconRect,
    sums: (int, int),
    width: int,
    height: int,
    area: MonitorRect,
)
    requires
        width <= area.right - area.left,
        height <= area.bottom - area.top,
    ensures
        ({
            let (x, y) = panel_at_icon(icon, sums, width, height, area);
            &&& sums.0 < area.left + area.right && area.left <= icon.left && icon.left + width
                <= area.right ==> x == icon.left
            &&& sums.0 >= area.left + area.right && area.left <= icon.right - width && icon.right
                <= area.right ==> x == icon.right - width
            &&& sums.1 < area.top + area.bottom && area.top <= icon.bottom && icon.bottom + height
                <= area.bottom ==> y == icon.bottom
            &&& sums.1 >= area.top + area.bottom && area.top <= icon.top - height && icon.top
                <= area.bottom ==> y == icon.top - height
        }),
{
}

/// The window is as high as content and frame, but no higher than the limit and
/// no lower than the least height; a change of less than two pixels is none.
pub proof fn law_window_fits_its_content(
    content: u32,
    frame: u32,
    least_content: u32,
    highest: Option<u32>,
    now: u32,
)
    ensures
        ({
            let r = fitted_height(content, frame, least_content, highest, now);
            &&& r is Some ==> r->0 >= least_content + frame
            &&& r is Some && highest is Some && highest->0 >= least_content + frame ==> r->0
                <= highest->0
            &&& r is Some && content >= least_content && (highest is None || content + frame
                <= highest->0) ==> r->0 == content + frame
            &&& r is Some && content < least_content ==> r->0 == least_content + frame
            &&& r is Some ==> r->0 - now >= 2 || now - r->0 >= 2
            &&& content >= least_content && highest is None && (content + frame - now >= 2 || now
                - content - frame >= 2) ==> r is Some
            &&& content >= least_content && highest is None && content + frame == now ==> r is None
        }),
{
}

} // verus!
