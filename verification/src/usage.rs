//! Integer arithmetic of the `/usage` report: the day index that usage is
//! recorded under and the layout of the context-window bar.

use vstd::prelude::*;

verus! {

/// Widest the context-window bar is drawn.
pub const MAX_BAR_WIDTH: usize = 80;

/// The day index of a date `days_since_epoch` days away from 1970-01-01:
/// the distance in days, truncated to 32 bits.
pub fn day_index(days_since_epoch: i64) -> (day: u32)
    requires
        days_since_epoch > i64::MIN,
    ensures
        day == (if days_since_epoch < 0 { -days_since_epoch } else { days_since_epoch as int }) as u32,
{
    let distance: i64 = if days_since_epoch < 0 {
        -days_since_epoch
    } else {
        days_since_epoch
    };
    distance as u32
}

/// How the context-window bar is laid out.
#[derive(Clone, Copy, Debug, PartialEq, Eq, Structural)]
pub struct BarLayout {
    /// Width of the whole bar
    pub bar_width: usize,
    /// Width of the unused part at the end of the bar
    pub left_over_width: usize,
    /// Whether the segments together are wider than the bar
    pub is_overflow: bool,
}

/// The bar for a terminal `window_width` columns wide holding segments of the
/// given widths: at most [`MAX_BAR_WIDTH`] wide, with what the segments leave free.
pub fn bar_layout(
    window_width: usize,
    context_width: usize,
    assistant_width: usize,
    user_width: usize,
    tools_width: usize,
) -> (layout: BarLayout)
    requires
        context_width + assistant_width + user_width + tools_width <= usize::MAX,
    ensures
        layout.bar_width == if window_width < MAX_BAR_WIDTH { window_width } else { MAX_BAR_WIDTH },
        layout.is_overflow == (context_width + assistant_width + user_width + tools_width
            > layout.bar_width),
        layout.left_over_width == if layout.is_overflow {
            0
        } else {
            layout.bar_width - (context_width + assistant_width + user_width + tools_width)
        },
{
    let bar_width: usize = if window_width < MAX_BAR_WIDTH {
        window_width
    } else {
        MAX_BAR_WIDTH
    };
    let used: usize = context_width + assistant_width + user_width + tools_width;
    let shown: usize = if used < bar_width {
        used
    } else {
        bar_width
    };
    BarLayout { bar_width, left_over_width: bar_width - shown, is_overflow: used > bar_width }
}

/// Width of the thin marker drawn in front of a segment: one column when the
/// segment has tokens but rounds to no width, else none.
pub fn tiny_marker_width(segment_width: usize, tokens: usize) -> (w: usize)
    ensures
        w == if segment_width == 0 && tokens > 0 { 1usize } else { 0usize },
{
    if segment_width == 0 && tokens > 0 {
        1
    } else {
        0
    }
}

} // verus!
