use vstd::prelude::*;

verus! {

/// Which manipulation handles the gizmo offers; several may be on at once.
#[derive(Clone, Copy, PartialEq, Eq, Structural, Debug)]
pub struct GizmoModes {
    pub translate: bool,
    pub rotate: bool,
    pub scale: bool,
}

/// The gizmo window's settings that persist across frames. The interaction routine's
/// own drag session is kept beside it by the host and reused from frame to frame, and
/// the whole selection is submitted as one batch.
#[derive(Clone, Copy, PartialEq, Eq, Structural, Debug)]
pub struct GizmoState {
    pub camera_gizmo_active: bool,
    pub gizmo_mode: GizmoModes,
}

impl Default for GizmoState {
    /// The gizmo is on, with the translation handle only.
    fn default() -> (r: Self)
        ensures
            r.camera_gizmo_active,
            r.gizmo_mode == (GizmoModes { translate: true, rotate: false, scale: false }),
    {
        GizmoState {
            camera_gizmo_active: true,
            gizmo_mode: GizmoModes { translate: true, rotate: false, scale: false },
        }
    }
}

pub open spec fn single_spec<C>(candidates: Seq<C>) -> Option<C> {
    if candidates.len() == 1 {
        Some(candidates[0])
    } else {
        None
    }
}

/// The active editing camera: the sole entity tagged as such, or `None` when there are
/// none or several.
pub fn single_active_camera<C>(candidates: Vec<C>) -> (r: Option<C>)
    ensures
        r == single_spec(candidates@),
{
    let mut c = candidates;
    if c.len() == 1 {
        c.pop()
    } else {
        None
    }
}

pub open spec fn interaction_spec<C>(state: GizmoState, cameras: Seq<C>, batch_len: int) -> Option<
    C,
> {
    if state.camera_gizmo_active && batch_len > 0 {
        single_spec(cameras)
    } else {
        None
    }
}

/// Decides whether the gizmo interacts this frame and through which camera: only when
/// the gizmo is switched on, the batch is not empty and exactly one active camera exists.
/// On `None` the frame does nothing, so no transform is written.
pub fn interaction_camera<C>(state: &GizmoState, cameras: Vec<C>, batch_len: usize) -> (r: Option<
    C,
>)
    ensures
        r == interaction_spec(*state, cameras@, batch_len as int),
{
    if state.camera_gizmo_active && batch_len > 0 {
        single_active_camera(cameras)
    } else {
        None
    }
}

/// Without exactly one active camera the gizmo never interacts, whatever the settings
/// and the batch; as results come only from an interaction, nothing is written back.
pub proof fn camera_absence_blocks_interaction<C>(
    state: GizmoState,
    cameras: Seq<C>,
    batch_len: int,
)
    requires
        cameras.len() != 1,
    ensures
        single_spec(cameras) is None,
        interaction_spec(state, cameras, batch_len) is None,
{
}

} // verus!
