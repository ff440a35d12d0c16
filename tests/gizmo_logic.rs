use editor_gizmos::frame::{interaction_camera, single_active_camera, GizmoModes, GizmoState};
use editor_gizmos::hierarchy::{gather_batch, write_back, Batch, Node, Scene, WriteBackError};
use editor_gizmos::markers::{
    add_gizmo_markers, target_kind, MarkerEntity, MarkerKind, MarkerWorld,
};

// Transforms in these tests are plain translations along one axis, so composing two of
// them is addition and inverting one is negation.
fn node(parent: Option<usize>, local: Option<i64>, world: Option<i64>) -> Node<i64> {
    Node { parent, local, world }
}

/// root (0) <- child (1) <- grandchild (2), and a second child of the root (3).
fn family() -> Scene<i64> {
    Scene {
        nodes: vec![
            node(None, Some(1), Some(1)),
            node(Some(0), Some(2), Some(3)),
            node(Some(1), Some(4), Some(7)),
            node(Some(0), Some(8), Some(9)),
        ],
    }
}

// Stands in for the interaction routine: the user dragged every handle by `delta`,
// and the results come back in the order they were submitted.
fn drag_all(batch: &Batch<i64>, delta: i64) -> Vec<i64> {
    batch.worlds.iter().map(|w| w + delta).collect()
}

// New local = inverse(parent) * new world, with parent = world * inverse(local), all
// taken from the scene before anything is written.
fn locals_from_worlds(scene: &Scene<i64>, batch: &Batch<i64>, new_worlds: &[i64]) -> Vec<i64> {
    batch
        .entities
        .iter()
        .zip(new_worlds.iter())
        .map(|(e, w)| {
            let n = &scene.nodes[*e];
            let parent = n.world.unwrap() - n.local.unwrap();
            w - parent
        })
        .collect()
}

#[test]
fn camera_found_only_when_unique() {
    assert_eq!(single_active_camera::<u32>(vec![]), None);
    assert_eq!(single_active_camera(vec![7u32]), Some(7));
    assert_eq!(single_active_camera(vec![7u32, 8]), None);
    assert_eq!(single_active_camera(vec![1u32, 2, 3]), None);
}

#[test]
fn no_camera_no_interaction_no_write() {
    let state = GizmoState::default();
    let mut scene = family();
    let before = scene.nodes.clone();
    for cameras in [vec![], vec![1u32, 2]] {
        let camera = interaction_camera(&state, cameras, 1);
        assert_eq!(camera, None);
        // the frame ends here: nothing is submitted and nothing is written
        if camera.is_some() {
            write_back(&mut scene, &vec![1], &vec![100]).unwrap();
        }
    }
    assert_eq!(scene.nodes.len(), before.len());
    for (a, b) in scene.nodes.iter().zip(before.iter()) {
        assert_eq!(a.local, b.local);
    }
}

#[test]
fn interaction_needs_switch_and_selection() {
    let mut state = GizmoState::default();
    assert_eq!(interaction_camera(&state, vec![5u8], 2), Some(5));
    assert_eq!(interaction_camera(&state, vec![5u8], 0), None);
    state.camera_gizmo_active = false;
    assert_eq!(interaction_camera(&state, vec![5u8], 2), None);
}

#[test]
fn default_state_translates_only() {
    let state = GizmoState::default();
    assert!(state.camera_gizmo_active);
    assert_eq!(state.gizmo_mode, GizmoModes { translate: true, rotate: false, scale: false });
}

#[test]
fn batch_keeps_selection_order_and_skips_unresolved() {
    let mut scene = family();
    scene.nodes.push(node(Some(0), Some(5), None));
    let batch = gather_batch(&scene, &vec![2, 4, 0, 9, 1]);
    assert_eq!(batch.entities, vec![2, 0, 1]);
    assert_eq!(batch.worlds, vec![7, 1, 3]);
}

#[test]
fn empty_selection_gives_empty_batch() {
    let batch = gather_batch(&family(), &vec![]);
    assert!(batch.entities.is_empty());
    assert!(batch.worlds.is_empty());
}

#[test]
fn results_map_back_in_submission_order() {
    let mut scene = family();
    let batch = gather_batch(&scene, &vec![2, 0, 1]);
    let new_worlds = drag_all(&batch, 10);
    let new_locals = locals_from_worlds(&scene, &batch, &new_worlds);
    assert_eq!(new_locals, vec![14, 11, 12]);
    assert_eq!(write_back(&mut scene, &batch.entities, &new_locals), Ok(()));
    assert_eq!(scene.nodes[0].local, Some(11));
    assert_eq!(scene.nodes[1].local, Some(12));
    assert_eq!(scene.nodes[2].local, Some(14));
    assert_eq!(scene.nodes[3].local, Some(8));
    assert_eq!(scene.nodes[2].parent, Some(1));
}

#[test]
fn unmoved_gizmo_reproduces_locals() {
    let mut scene = family();
    let batch = gather_batch(&scene, &vec![0, 1, 2, 3]);
    let new_worlds = drag_all(&batch, 0);
    let new_locals = locals_from_worlds(&scene, &batch, &new_worlds);
    assert_eq!(new_locals, vec![1, 2, 4, 8]);
    assert_eq!(write_back(&mut scene, &batch.entities, &new_locals), Ok(()));
    let locals: Vec<Option<i64>> = scene.nodes.iter().map(|n| n.local).collect();
    assert_eq!(locals, vec![Some(1), Some(2), Some(4), Some(8)]);
}

#[test]
fn editing_child_keeps_parent_and_sibling() {
    let mut scene = family();
    assert_eq!(write_back(&mut scene, &vec![1], &vec![-6]), Ok(()));
    assert_eq!(scene.nodes[1].local, Some(-6));
    assert_eq!(scene.nodes[0].local, Some(1));
    assert_eq!(scene.nodes[3].local, Some(8));
    assert_eq!(scene.nodes[3].parent, Some(0));
}

#[test]
fn missing_local_writes_nothing() {
    let mut scene = family();
    scene.nodes.push(node(Some(0), None, Some(4)));
    let r = write_back(&mut scene, &vec![0, 4, 9], &vec![50, 60, 70]);
    assert_eq!(r, Err(WriteBackError::MissingLocal { entity: 4 }));
    assert_eq!(scene.nodes[0].local, Some(1));
}

#[test]
fn unknown_entity_is_reported() {
    let mut scene = family();
    let r = write_back(&mut scene, &vec![1, 9], &vec![50, 60]);
    assert_eq!(r, Err(WriteBackError::MissingLocal { entity: 9 }));
    assert_eq!(scene.nodes[1].local, Some(2));
}

#[test]
fn extra_entities_or_results_are_ignored() {
    let mut scene = family();
    assert_eq!(write_back(&mut scene, &vec![0, 1, 9], &vec![20, 30]), Ok(()));
    assert_eq!(scene.nodes[0].local, Some(20));
    assert_eq!(scene.nodes[1].local, Some(30));
    assert_eq!(write_back(&mut scene, &vec![2], &vec![40, 50]), Ok(()));
    assert_eq!(scene.nodes[2].local, Some(40));
    assert_eq!(scene.nodes[3].local, Some(8));
}

fn plain(target: Option<MarkerKind>) -> MarkerEntity {
    MarkerEntity { target, has_marker: false, indicator: None, parent: None }
}

#[test]
fn target_kinds() {
    assert_eq!(target_kind(true, false, false, false), Some(MarkerKind::PointLight));
    assert_eq!(target_kind(false, true, true, false), Some(MarkerKind::DirectionalLight));
    assert_eq!(target_kind(false, false, true, false), Some(MarkerKind::Camera));
    assert_eq!(target_kind(false, false, true, true), None);
    assert_eq!(target_kind(false, false, false, false), None);
}

#[test]
fn marker_names_and_visibility() {
    assert_eq!(MarkerKind::PointLight.marker_name(), "PointLight Gizmo");
    assert_eq!(MarkerKind::DirectionalLight.marker_name(), "DirectionalLight Gizmo");
    assert_eq!(MarkerKind::Camera.marker_name(), "Camera Gizmo");
    assert!(MarkerKind::Camera.forces_visibility());
    assert!(!MarkerKind::PointLight.forces_visibility());
}

#[test]
fn markers_spawned_once_per_entity() {
    let mut world = MarkerWorld {
        entities: vec![
            plain(Some(MarkerKind::PointLight)),
            plain(None),
            plain(Some(MarkerKind::Camera)),
            MarkerEntity { has_marker: true, ..plain(Some(MarkerKind::DirectionalLight)) },
            plain(Some(MarkerKind::DirectionalLight)),
        ],
    };
    let spawned = add_gizmo_markers(&mut world);
    assert_eq!(
        spawned,
        vec![(0, MarkerKind::PointLight), (2, MarkerKind::Camera), (4, MarkerKind::DirectionalLight)]
    );
    assert_eq!(world.entities.len(), 8);
    assert!(world.entities[0].has_marker && world.entities[2].has_marker && world.entities[4].has_marker);
    assert!(!world.entities[1].has_marker);
    assert_eq!(
        world.entities[5],
        MarkerEntity { target: None, has_marker: false, indicator: Some(MarkerKind::PointLight), parent: Some(0) }
    );
    let snapshot = world.entities.clone();
    let again = add_gizmo_markers(&mut world);
    assert!(again.is_empty());
    assert_eq!(world.entities, snapshot);
    for parent in [0usize, 2, 4] {
        let count = world
            .entities
            .iter()
            .filter(|e| e.parent == Some(parent) && e.indicator.is_some())
            .count();
        assert_eq!(count, 1);
    }
}

#[test]
fn empty_world_spawns_nothing() {
    let mut world = MarkerWorld { entities: vec![] };
    assert!(add_gizmo_markers(&mut world).is_empty());
    assert!(world.entities.is_empty());
}
