//! ViewWitness: structured witnesses of observed GUI state.
pub mod text;
pub mod ieee;
pub mod json;
pub mod model;
pub mod egui_paint;
pub mod egui_annotation;
pub mod diff;
pub mod egui_diff;
pub mod correlated;
pub mod epistemic;
pub mod validation;
pub mod order;
pub mod agent_text;
pub mod egui_agent_text;
pub mod egui_diff_agent_text;
pub mod semantic;
pub mod frame_probe;
pub mod cli;
pub mod laws;
pub mod lines;
pub mod focus_lines;
pub mod framing;
pub mod tree_validity;
pub mod field_laws;
pub mod validation_laws;
