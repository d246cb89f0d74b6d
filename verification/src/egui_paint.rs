//! Renderer-facing egui paint evidence: the kind of each submitted shape and
//! its observed visual bounds and clip rectangle.
use vstd::prelude::*;

use crate::model::{Rect, RectV, copy_rect_opt, rect_opt_view};

verus! {

/// Compact classification of an egui paint shape.
#[derive(Debug, Clone, Copy, PartialEq, Eq, Structural)]
pub enum EguiPaintKind {
    Noop,
    Group,
    Circle,
    Ellipse,
    LineSegment,
    Path,
    Band,
    Rect,
    Text,
    Mesh,
    QuadraticBezier,
    CubicBezier,
    Callback,
}

/// The stable snake_case name of a paint kind.
pub open spec fn paint_kind_name(kind: EguiPaintKind) -> Seq<char> {
    match kind {
        EguiPaintKind::Noop => "noop"@,
        EguiPaintKind::Group => "group"@,
        EguiPaintKind::Circle => "circle"@,
        EguiPaintKind::Ellipse => "ellipse"@,
        EguiPaintKind::LineSegment => "line_segment"@,
        EguiPaintKind::Path => "path"@,
        EguiPaintKind::Band => "band"@,
        EguiPaintKind::Rect => "rect"@,
        EguiPaintKind::Text => "text"@,
        EguiPaintKind::Mesh => "mesh"@,
        EguiPaintKind::QuadraticBezier => "quadratic_bezier"@,
        EguiPaintKind::CubicBezier => "cubic_bezier"@,
        EguiPaintKind::Callback => "callback"@,
    }
}

impl EguiPaintKind {
    /// The stable snake_case name of this kind.
    pub fn name(self) -> (r: &'static str)
        ensures
            r@ == paint_kind_name(self),
    {
        match self {
            EguiPaintKind::Noop => "noop",
            EguiPaintKind::Group => "group",
            EguiPaintKind::Circle => "circle",
            EguiPaintKind::Ellipse => "ellipse",
            EguiPaintKind::LineSegment => "line_segment",
            EguiPaintKind::Path => "path",
            EguiPaintKind::Band => "band",
            EguiPaintKind::Rect => "rect",
            EguiPaintKind::Text => "text",
            EguiPaintKind::Mesh => "mesh",
            EguiPaintKind::QuadraticBezier => "quadratic_bezier",
            EguiPaintKind::CubicBezier => "cubic_bezier",
            EguiPaintKind::Callback => "callback",
        }
    }
}

/// Provisional observation of one egui paint entry. `order` is the position
/// in the flattened paint list, so smaller values are painted earlier.
#[derive(Debug)]
pub struct EguiPaintObservation {
    pub order: usize,
    pub kind: EguiPaintKind,
    pub bounds: Rect,
    /// The observed clip rectangle when it is finite; `None` stands for an
    /// unbounded clip.
    pub clip_rect: Option<Rect>,
}

pub ghost struct PaintObservationV {
    pub order: usize,
    pub kind: EguiPaintKind,
    pub bounds: RectV,
    pub clip_rect: Option<RectV>,
}

impl View for EguiPaintObservation {
    type V = PaintObservationV;

    open spec fn view(&self) -> PaintObservationV {
        PaintObservationV {
            order: self.order,
            kind: self.kind,
            bounds: self.bounds@,
            clip_rect: rect_opt_view(self.clip_rect),
        }
    }
}

impl EguiPaintObservation {
    pub fn copy(&self) -> (r: EguiPaintObservation)
        ensures
            r@ == self@,
    {
        EguiPaintObservation {
            order: self.order,
            kind: self.kind,
            bounds: self.bounds.copy(),
            clip_rect: copy_rect_opt(&self.clip_rect),
        }
    }
}

} // verus!
