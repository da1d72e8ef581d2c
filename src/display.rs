use vstd::prelude::*;
use crate::scene::RenderStyle;

verus! {

/// How the solid volumes are blended.
#[derive(Clone, Copy, Debug, PartialEq, Eq, Structural)]
pub enum DisplayMode {
    Blend,
    Opaque,
    Premultiplied,
}

/// Which volumes are overlaid with their wireframe.
#[derive(Clone, Copy, Debug, PartialEq, Eq, Structural)]
pub enum WireframeMode {
    Disabled,
    Partial,
    Enabled,
}

/// Position of a display mode in its cycle.
pub open spec fn display_rank(m: DisplayMode) -> int {
    match m {
        DisplayMode::Blend => 0,
        DisplayMode::Opaque => 1,
        DisplayMode::Premultiplied => 2,
    }
}

/// Position of a wireframe mode in its cycle.
pub open spec fn wireframe_rank(m: WireframeMode) -> int {
    match m {
        WireframeMode::Disabled => 0,
        WireframeMode::Partial => 1,
        WireframeMode::Enabled => 2,
    }
}

impl DisplayMode {
    /// The mode at start: opaque.
    pub fn initial() -> (r: DisplayMode)
        ensures
            r == DisplayMode::Opaque,
    {
        DisplayMode::Opaque
    }

    /// The next mode of the cycle, back to the first after the last.
    pub fn next(self) -> (r: DisplayMode)
        ensures
            display_rank(r) == (display_rank(self) + 1) % 3,
    {
        match self {
            DisplayMode::Blend => DisplayMode::Opaque,
            DisplayMode::Opaque => DisplayMode::Premultiplied,
            DisplayMode::Premultiplied => DisplayMode::Blend,
        }
    }

    /// The previous mode of the cycle, on to the last before the first.
    pub fn previous(self) -> (r: DisplayMode)
        ensures
            display_rank(r) == (display_rank(self) + 2) % 3,
    {
        match self {
            DisplayMode::Blend => DisplayMode::Premultiplied,
            DisplayMode::Opaque => DisplayMode::Blend,
            DisplayMode::Premultiplied => DisplayMode::Opaque,
        }
    }

    /// Opacity of the solid volumes, in percent.
    pub fn alpha_percent(self) -> (r: u8)
        ensures
            self == DisplayMode::Blend ==> r == 33,
            self == DisplayMode::Opaque ==> r == 100,
            self == DisplayMode::Premultiplied ==> r == 0,
    {
        match self {
            DisplayMode::Blend => 33,
            DisplayMode::Opaque => 100,
            DisplayMode::Premultiplied => 0,
        }
    }

    /// Whether the sun casts shadows: only when the volumes are opaque.
    pub fn shadows(self) -> (r: bool)
        ensures
            r == (self == DisplayMode::Opaque),
    {
        match self {
            DisplayMode::Opaque => true,
            _ => false,
        }
    }
}

impl WireframeMode {
    /// The mode at start: no wireframe.
    pub fn initial() -> (r: WireframeMode)
        ensures
            r == WireframeMode::Disabled,
    {
        WireframeMode::Disabled
    }

    /// The next mode of the cycle, back to the first after the last.
    pub fn next(self) -> (r: WireframeMode)
        ensures
            wireframe_rank(r) == (wireframe_rank(self) + 1) % 3,
    {
        match self {
            WireframeMode::Disabled => WireframeMode::Partial,
            WireframeMode::Partial => WireframeMode::Enabled,
            WireframeMode::Enabled => WireframeMode::Disabled,
        }
    }

    /// The previous mode of the cycle, on to the last before the first.
    pub fn previous(self) -> (r: WireframeMode)
        ensures
            wireframe_rank(r) == (wireframe_rank(self) + 2) % 3,
    {
        match self {
            WireframeMode::Disabled => WireframeMode::Enabled,
            WireframeMode::Partial => WireframeMode::Disabled,
            WireframeMode::Enabled => WireframeMode::Partial,
        }
    }

    /// Whether a volume drawn in `style` gets its wireframe: none in the
    /// disabled mode, the see-through ones in the partial mode, all of them in
    /// the enabled mode.
    pub fn shows_wireframe(self, style: RenderStyle) -> (r: bool)
        ensures
            r == (self == WireframeMode::Enabled || (self == WireframeMode::Partial && style
                == RenderStyle::Wireframe)),
    {
        match self {
            WireframeMode::Disabled => false,
            WireframeMode::Partial => style == RenderStyle::Wireframe,
            WireframeMode::Enabled => true,
        }
    }
}

/// The modes after a key press: page up moves on, page down moves back, the
/// wireframe mode with shift held and the display mode without.
pub fn on_mode_keys(
    display: DisplayMode,
    wireframe: WireframeMode,
    page_up: bool,
    page_down: bool,
    shift: bool,
) -> (r: (DisplayMode, WireframeMode))
    ensures
        display_rank(r.0) == if shift {
            display_rank(display)
        } else {
            (display_rank(display) + (if page_up { 1int } else { 0 }) + (if page_down { 2int } else { 0 })) % 3
        },
        wireframe_rank(r.1) == if shift {
            (wireframe_rank(wireframe) + (if page_up { 1int } else { 0 }) + (if page_down { 2int } else { 0 })) % 3
        } else {
            wireframe_rank(wireframe)
        },
{
    let mut d = display;
    let mut w = wireframe;
    if page_up {
        if shift {
            w = w.next();
        } else {
            d = d.next();
        }
    }
    if page_down {
        if shift {
            w = w.previous();
        } else {
            d = d.previous();
        }
    }
    (d, w)
}

} // verus!
