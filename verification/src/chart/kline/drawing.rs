pub mod geometry;
pub mod shape_laws;
pub mod label_laws;
pub mod labels;
pub mod style;
pub mod tool_laws;
pub mod transitions;
pub mod state;
pub mod laws;
pub mod panel_laws;
pub mod panels;
pub mod listing;
