//! The discrete core of a wireframe viewer: the mesh text format, the
//! per-face visibility rule and the keyboard control state.
pub mod text;
pub mod number;
pub mod mesh;
pub mod visibility;
pub mod controls;
