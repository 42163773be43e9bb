//! The area of a page's content inside a view that scrolls up and down.

use vstd::prelude::*;
use crate::geometry::Rect;

verus! {

/// The height of the content of the introduction.
pub const INTRO_HEIGHT: u16 = 20;

/// The height of the content of the wallets page.
pub const WALLETS_HEIGHT: u16 = 75;

/// The columns that a scrollbar takes.
pub const SCROLLBAR_WIDTH: u16 = 2;

/// Whether the view shows a scrollbar: it does when it is lower than the
/// content.
pub open spec fn needs_scrollbar(view_height: u16, content_height: u16) -> bool {
    view_height < content_height
}

/// The area in which a page lays out its content: as wide as the view,
/// less the scrollbar if there is one, and as high as the content, at the
/// origin of the content's own buffer.
pub open spec fn content_region(view_width: u16, view_height: u16, content_height: u16) -> Rect {
    Rect {
        x: 0,
        y: 0,
        width: if needs_scrollbar(view_height, content_height) {
            (view_width - SCROLLBAR_WIDTH) as u16
        } else {
            view_width
        },
        height: content_height,
    }
}

/// Computes [`content_region`]. A view with a scrollbar must be wide
/// enough to hold it.
pub fn content_area(view_width: u16, view_height: u16, content_height: u16) -> (r: Rect)
    requires
        needs_scrollbar(view_height, content_height) ==> view_width >= SCROLLBAR_WIDTH,
    ensures
        r == content_region(view_width, view_height, content_height),
{
    let width = if view_height < content_height {
        view_width - SCROLLBAR_WIDTH
    } else {
        view_width
    };
    Rect { x: 0, y: 0, width, height: content_height }
}

/// Computes [`content_region`], unless the view is too narrow to hold
/// the scrollbar that it needs.
pub fn try_content_area(view_width: u16, view_height: u16, content_height: u16) -> (r: Option<
    Rect,
>)
    ensures
        r == if needs_scrollbar(view_height, content_height) && view_width < SCROLLBAR_WIDTH {
            None
        } else {
            Some(content_region(view_width, view_height, content_height))
        },
{
    if view_height < content_height && view_width < SCROLLBAR_WIDTH {
        None
    } else {
        Some(content_area(view_width, view_height, content_height))
    }
}

} // verus!
