//! Application-authored custom-paint objects and the observed egui paint
//! slots bound to them.
use vstd::prelude::*;

use crate::egui_paint::EguiPaintKind;
use crate::model::{Rect, RectV, copy_rect_opt, copy_str_opt, rect_opt_view, str_opt_view};
use crate::text::owned;

verus! {

broadcast use vstd::string::group_string_axioms;

/// Application-declared semantics for one custom-painted object.
#[derive(Debug)]
pub struct EguiPaintObjectDescriptor {
    pub id: String,
    pub role: String,
    pub name: Option<String>,
}

impl EguiPaintObjectDescriptor {
    /// A descriptor with the given identity and role and no name.
    pub fn new(id: &str, role: &str) -> (r: Self)
        ensures
            r.id@ == id@,
            r.role@ == role@,
            r.name is None,
    {
        EguiPaintObjectDescriptor { id: owned(id), role: owned(role), name: None }
    }

    /// The same descriptor, named.
    pub fn with_name(self, name: &str) -> (r: Self)
        ensures
            r.id == self.id,
            r.role == self.role,
            str_opt_view(r.name) == Some(name@),
    {
        EguiPaintObjectDescriptor { id: self.id, role: self.role, name: Some(owned(name)) }
    }
}

/// Stable projection of egui's layer category.
#[derive(Debug, Clone, Copy, PartialEq, Eq, Structural)]
pub enum EguiLayerOrder {
    Background,
    Middle,
    Foreground,
    Tooltip,
    Debug,
}

/// The stable snake_case name of a layer order.
pub open spec fn layer_order_name(order: EguiLayerOrder) -> Seq<char> {
    match order {
        EguiLayerOrder::Background => "background"@,
        EguiLayerOrder::Middle => "middle"@,
        EguiLayerOrder::Foreground => "foreground"@,
        EguiLayerOrder::Tooltip => "tooltip"@,
        EguiLayerOrder::Debug => "debug"@,
    }
}

impl EguiLayerOrder {
    /// The stable snake_case name of this layer order.
    pub fn name(self) -> (r: &'static str)
        ensures
            r@ == layer_order_name(self),
    {
        match self {
            EguiLayerOrder::Background => "background",
            EguiLayerOrder::Middle => "middle",
            EguiLayerOrder::Foreground => "foreground",
            EguiLayerOrder::Tooltip => "tooltip",
            EguiLayerOrder::Debug => "debug",
        }
    }
}

/// One observed binding between an authored logical object and a concrete
/// egui paint slot (`LayerId + ShapeIdx`) of the captured pass. Kind, bounds
/// and clip are those of the final slot at end of pass.
#[derive(Debug)]
pub struct EguiAuthoredPaintBinding {
    /// Optional application-authored key of this sub-part, stable across
    /// frames where the layer-local slot index is not.
    pub authored_binding_id: Option<String>,
    pub binding_evidence: String,
    pub layer_order: EguiLayerOrder,
    pub layer_id: u64,
    pub shape_index: usize,
    pub verified_at_end_pass: bool,
    pub kind: Option<EguiPaintKind>,
    pub bounds: Option<Rect>,
    pub clip_rect: Option<Rect>,
}

pub ghost struct BindingV {
    pub authored_binding_id: Option<Seq<char>>,
    pub binding_evidence: Seq<char>,
    pub layer_order: EguiLayerOrder,
    pub layer_id: u64,
    pub shape_index: usize,
    pub verified_at_end_pass: bool,
    pub kind: Option<EguiPaintKind>,
    pub bounds: Option<RectV>,
    pub clip_rect: Option<RectV>,
}

impl View for EguiAuthoredPaintBinding {
    type V = BindingV;

    open spec fn view(&self) -> BindingV {
        BindingV {
            authored_binding_id: str_opt_view(self.authored_binding_id),
            binding_evidence: self.binding_evidence@,
            layer_order: self.layer_order,
            layer_id: self.layer_id,
            shape_index: self.shape_index,
            verified_at_end_pass: self.verified_at_end_pass,
            kind: self.kind,
            bounds: rect_opt_view(self.bounds),
            clip_rect: rect_opt_view(self.clip_rect),
        }
    }
}

impl EguiAuthoredPaintBinding {
    pub fn copy(&self) -> (r: EguiAuthoredPaintBinding)
        ensures
            r@ == self@,
    {
        EguiAuthoredPaintBinding {
            authored_binding_id: copy_str_opt(&self.authored_binding_id),
            binding_evidence: self.binding_evidence.clone(),
            layer_order: self.layer_order,
            layer_id: self.layer_id,
            shape_index: self.shape_index,
            verified_at_end_pass: self.verified_at_end_pass,
            kind: self.kind,
            bounds: copy_rect_opt(&self.bounds),
            clip_rect: copy_rect_opt(&self.clip_rect),
        }
    }
}

/// One application-authored logical custom-paint object and its observed
/// paint bindings.
#[derive(Debug)]
pub struct EguiAuthoredPaintObject {
    pub id: String,
    pub role: String,
    pub name: Option<String>,
    pub semantic_evidence: String,
    pub bindings: Vec<EguiAuthoredPaintBinding>,
}

pub ghost struct ObjectV {
    pub id: Seq<char>,
    pub role: Seq<char>,
    pub name: Option<Seq<char>>,
    pub semantic_evidence: Seq<char>,
    pub bindings: Seq<BindingV>,
}

pub open spec fn bindings_view(b: Seq<EguiAuthoredPaintBinding>) -> Seq<BindingV> {
    b.map_values(|x: EguiAuthoredPaintBinding| x@)
}

impl View for EguiAuthoredPaintObject {
    type V = ObjectV;

    open spec fn view(&self) -> ObjectV {
        ObjectV {
            id: self.id@,
            role: self.role@,
            name: str_opt_view(self.name),
            semantic_evidence: self.semantic_evidence@,
            bindings: bindings_view(self.bindings@),
        }
    }
}

impl EguiAuthoredPaintObject {
    pub fn copy(&self) -> (r: EguiAuthoredPaintObject)
        ensures
            r@ == self@,
    {
        let mut bindings: Vec<EguiAuthoredPaintBinding> = Vec::new();
        let mut i: usize = 0;
        while i < self.bindings.len()
            invariant
                i <= self.bindings.len(),
                bindings.len() == i,
                forall|k: int| 0 <= k < i ==> (#[trigger] bindings@[k])@ == self.bindings@[k]@,
            decreases self.bindings.len() - i,
        {
            bindings.push(self.bindings[i].copy());
            i = i + 1;
        }
        assert(bindings_view(bindings@) =~= bindings_view(self.bindings@));
        EguiAuthoredPaintObject {
            id: self.id.clone(),
            role: self.role.clone(),
            name: copy_str_opt(&self.name),
            semantic_evidence: self.semantic_evidence.clone(),
            bindings,
        }
    }
}

} // verus!
