//! The state of the interactive view that does not depend on what is
//! drawn: scrolling, and whether a request is under way.

use std::time::Instant;
use vstd::prelude::*;

verus! {

/// A point in time, as the standard library gives it.
#[verifier::external_type_specification]
#[verifier::external_body]
pub struct ExInstant(Instant);

/// `Instant::now` of the standard library: the present moment. Nothing is
/// known of it.
#[verifier::external_body]
fn now() -> (r: Instant) {
    Instant::now()
}

/// Whether a request is under way, and since when.
#[derive(Debug)]
pub struct LoadingState {
    pub pending_request: bool,
    pub was_loading: bool,
    pub started_at: Instant,
}

impl LoadingState {
    /// The state before any request: none under way.
    pub fn new() -> (r: LoadingState)
        ensures
            !r.pending_request,
            !r.was_loading,
    {
        LoadingState { pending_request: false, was_loading: false, started_at: now() }
    }

    /// Notes that a request has been sent now.
    pub fn start(&mut self)
        ensures
            final(self).pending_request,
            final(self).was_loading == old(self).was_loading,
    {
        self.pending_request = true;
        self.started_at = now();
    }
}

/// A cell of the screen.
#[derive(Debug, Clone, Copy, PartialEq, Eq, Structural)]
pub struct Position {
    pub x: u16,
    pub y: u16,
}

/// What laying the document out gave.
#[derive(Debug, Clone, Copy, PartialEq, Eq, Structural)]
pub struct DocumentLayoutCache {
    pub render_width: u16,
    pub document_height: u16,
}

/// The part of the document that is on the screen.
#[derive(Debug)]
pub struct ViewportState {
    pub scroll_offset: u16,
    pub cached_layout: Option<DocumentLayoutCache>,
    /// The height of the viewport when it was last drawn.
    pub last_viewport_height: u16,
    pub scrollbar_hovered: bool,
    pub scrollbar_dragging: bool,
}

/// The greatest offset to which a document of `document_height` lines can
/// be scrolled in a viewport of `viewport_height` lines.
pub open spec fn max_scroll(document_height: u16, viewport_height: u16) -> u16 {
    if document_height > viewport_height {
        (document_height - viewport_height) as u16
    } else {
        0
    }
}

impl ViewportState {
    /// A viewport at the top of a document that was not laid out yet.
    pub fn new() -> (r: ViewportState)
        ensures
            r.scroll_offset == 0,
            r.cached_layout is None,
            r.last_viewport_height == 0,
            !r.scrollbar_hovered,
            !r.scrollbar_dragging,
    {
        ViewportState {
            scroll_offset: 0,
            cached_layout: None,
            last_viewport_height: 0,
            scrollbar_hovered: false,
            scrollbar_dragging: false,
        }
    }

    /// Sets the scroll offset, no further than the document can be
    /// scrolled where its height is known.
    pub fn set_scroll_offset(&mut self, offset: u16)
        ensures
            final(self).scroll_offset == match old(self).cached_layout {
                Some(cache) => if offset <= max_scroll(
                    cache.document_height,
                    old(self).last_viewport_height,
                ) {
                    offset
                } else {
                    max_scroll(cache.document_height, old(self).last_viewport_height)
                },
                None => offset,
            },
            final(self).cached_layout == old(self).cached_layout,
            final(self).last_viewport_height == old(self).last_viewport_height,
            final(self).scrollbar_hovered == old(self).scrollbar_hovered,
            final(self).scrollbar_dragging == old(self).scrollbar_dragging,
    {
        self.scroll_offset = offset;
        if let Some(cache) = self.cached_layout {
            let limit = if cache.document_height > self.last_viewport_height {
                cache.document_height - self.last_viewport_height
            } else {
                0
            };
            if self.scroll_offset > limit {
                self.scroll_offset = limit;
            }
        }
    }

    /// Tells whether `pos` lies in the scrollbar column, which stands right
    /// of a content area of the given width.
    pub fn is_in_scrollbar(&self, pos: Position, content_area_width: u16) -> (r: bool)
        ensures
            r == (pos.x == content_area_width && pos.y < self.last_viewport_height),
    {
        pos.x == content_area_width && pos.y < self.last_viewport_height
    }

    /// Tells whether the scrollbar is shown: the document is known to be
    /// taller than the viewport.
    pub fn scrollbar_visible(&self) -> (r: bool)
        ensures
            r == match self.cached_layout {
                Some(cache) => cache.document_height > self.last_viewport_height,
                None => false,
            },
    {
        match self.cached_layout {
            Some(cache) => cache.document_height > self.last_viewport_height,
            None => false,
        }
    }
}

} // verus!
