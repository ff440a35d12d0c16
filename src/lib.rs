//! Decision logic of a transform gizmo for a scene editor: which camera drives it,
//! which entities are submitted to the interaction routine and in what order, how the
//! edited transforms are written back into the hierarchy, and which lights and cameras
//! receive an indicator mesh.
pub mod frame;
pub mod hierarchy;
pub mod markers;
