use voxmesh::convert::{convert_model, convert_single_model};
use voxmesh::error::Error;
use voxmesh::math::Vec3;
use voxmesh::model::{Model, SceneNode, ShapeModel, SparseVoxel, VoxData};
use voxmesh::scene::{convert_scene, Action};
use voxmesh::surface::extract;
use voxmesh::volume::VoxelVolume;

fn one_voxel_model() -> Model {
    Model {
        size: Vec3::new(1, 1, 1),
        voxels: vec![SparseVoxel { x: 0, y: 0, z: 0, i: 0 }],
    }
}

fn data(models: Vec<Model>, scenes: Vec<SceneNode>) -> VoxData {
    VoxData { models, scenes, palette: Vec::new(), materials: Vec::new() }
}

fn shape(models: Vec<ShapeModel>) -> SceneNode {
    SceneNode::Shape { models }
}

fn path_of(a: &Action) -> Vec<String> {
    match a {
        Action::MakeDir { path } => path.clone(),
        Action::WriteFile { path, .. } => path.clone(),
    }
}

#[test]
fn empty_input_and_too_many_models() {
    let d = data(vec![], vec![]);
    assert!(matches!(convert_single_model(&d), Err(Error::EmptyModel)));
    assert_eq!(convert_scene(&d), Err(Error::EmptyModel));

    let d = data(vec![one_voxel_model(), one_voxel_model()], vec![]);
    assert!(matches!(convert_single_model(&d), Err(Error::TooManyModels)));
}

#[test]
fn single_model_mode_converts() {
    let d = data(vec![one_voxel_model()], vec![]);
    let obj = convert_single_model(&d).unwrap();
    assert_eq!(obj.v.len(), 8);
}

#[test]
fn simple_scene_single_shape() {
    let d = data(
        vec![one_voxel_model()],
        vec![
            SceneNode::Transform { name: None, child: 1 },
            SceneNode::Group { children: vec![2] },
            SceneNode::Transform { name: Some("cube".to_string()), child: 3 },
            shape(vec![ShapeModel { model_id: 0, frame_index: None }]),
        ],
    );
    let actions = convert_scene(&d).unwrap();
    assert_eq!(actions.len(), 1);
    match &actions[0] {
        Action::WriteFile { path, model_id } => {
            assert_eq!(path, &vec!["cube.obj".to_string()]);
            assert_eq!(*model_id, 0);
        }
        _ => panic!("expected a file"),
    }
}

#[test]
fn nested_groups_and_synthesized_names() {
    let d = data(
        vec![one_voxel_model()],
        vec![
            SceneNode::Transform { name: None, child: 1 },
            SceneNode::Group { children: vec![2] },
            SceneNode::Transform { name: None, child: 3 },
            SceneNode::Group { children: vec![4] },
            SceneNode::Transform { name: None, child: 5 },
            shape(vec![ShapeModel { model_id: 0, frame_index: None }]),
        ],
    );
    let actions = convert_scene(&d).unwrap();
    assert_eq!(actions.len(), 2);
    assert_eq!(path_of(&actions[0]), vec!["group_3".to_string()]);
    assert!(matches!(actions[0], Action::MakeDir { .. }));
    assert_eq!(
        path_of(&actions[1]),
        vec!["group_3".to_string(), "model_5.obj".to_string()]
    );
}

#[test]
fn three_animation_frames() {
    let d = data(
        vec![one_voxel_model()],
        vec![
            SceneNode::Transform { name: None, child: 1 },
            SceneNode::Group { children: vec![2] },
            SceneNode::Transform { name: Some("anim".to_string()), child: 3 },
            shape(vec![
                ShapeModel { model_id: 0, frame_index: Some(0) },
                ShapeModel { model_id: 0, frame_index: Some(1) },
                ShapeModel { model_id: 0, frame_index: Some(2) },
            ]),
        ],
    );
    let actions = convert_scene(&d).unwrap();
    assert_eq!(actions.len(), 4);
    assert!(matches!(actions[0], Action::MakeDir { .. }));
    assert_eq!(path_of(&actions[0]), vec!["anim.obj".to_string()]);
    for (k, frame) in ["frame_0.obj", "frame_1.obj", "frame_2.obj"].iter().enumerate() {
        let a = &actions[k + 1];
        assert_eq!(
            path_of(a),
            vec!["anim.obj".to_string(), frame.to_string()]
        );
        match a {
            Action::WriteFile { model_id, .. } => {
                // Each frame's mesh keeps the merge and dedup
                // invariants: 6 unit faces covered by 6 disjoint unit
                // quads, 8 distinct corner positions.
                let m = &d.models[*model_id as usize];
                let vol = VoxelVolume::build(m.size, &m.voxels);
                let frs = extract(&vol);
                assert_eq!(frs.len(), 6);
                let area: usize = frs.iter().map(|f| f.rect.w * f.rect.h).sum();
                assert_eq!(area, 6);
                let obj = convert_model(m);
                assert_eq!(obj.v.len(), 8);
                for q in &obj.q {
                    for k in 0..6 {
                        assert!(1 <= q.v[k] && q.v[k] <= obj.v.len());
                    }
                }
            }
            _ => panic!("expected a file"),
        }
    }
}

#[test]
fn frame_without_index_is_structural_error() {
    let d = data(
        vec![one_voxel_model()],
        vec![
            SceneNode::Transform { name: None, child: 1 },
            SceneNode::Group { children: vec![2] },
            SceneNode::Transform { name: None, child: 3 },
            shape(vec![
                ShapeModel { model_id: 0, frame_index: Some(0) },
                ShapeModel { model_id: 0, frame_index: None },
            ]),
        ],
    );
    assert_eq!(convert_scene(&d), Err(Error::InvalidSceneGraph));
}

#[test]
fn transform_to_transform_is_structural_error() {
    let d = data(
        vec![one_voxel_model()],
        vec![
            SceneNode::Transform { name: None, child: 1 },
            SceneNode::Group { children: vec![2] },
            SceneNode::Transform { name: None, child: 3 },
            SceneNode::Transform { name: None, child: 2 },
        ],
    );
    assert_eq!(convert_scene(&d), Err(Error::InvalidSceneGraph));
}

#[test]
fn cyclic_scene_is_detected() {
    let d = data(
        vec![one_voxel_model()],
        vec![
            SceneNode::Transform { name: None, child: 1 },
            // The group points back at the root transform: a cycle.
            SceneNode::Group { children: vec![0] },
        ],
    );
    assert_eq!(convert_scene(&d), Err(Error::InvalidSceneGraph));
}

#[test]
fn out_of_range_indices_are_structural_errors() {
    let d = data(
        vec![one_voxel_model()],
        vec![SceneNode::Transform { name: None, child: 7 }],
    );
    assert_eq!(convert_scene(&d), Err(Error::InvalidSceneGraph));

    let d = data(
        vec![one_voxel_model()],
        vec![
            SceneNode::Transform { name: None, child: 1 },
            SceneNode::Group { children: vec![2] },
            SceneNode::Transform { name: None, child: 3 },
            shape(vec![ShapeModel { model_id: 9, frame_index: None }]),
        ],
    );
    assert_eq!(convert_scene(&d), Err(Error::InvalidSceneGraph));
}

#[test]
fn root_must_be_transform_over_group() {
    let d = data(vec![one_voxel_model()], vec![SceneNode::Group { children: vec![] }]);
    assert_eq!(convert_scene(&d), Err(Error::InvalidSceneGraph));

    let d = data(
        vec![one_voxel_model()],
        vec![
            SceneNode::Transform { name: None, child: 1 },
            shape(vec![ShapeModel { model_id: 0, frame_index: None }]),
        ],
    );
    assert_eq!(convert_scene(&d), Err(Error::InvalidSceneGraph));
}

#[test]
fn empty_shape_makes_directory_only() {
    let d = data(
        vec![one_voxel_model()],
        vec![
            SceneNode::Transform { name: None, child: 1 },
            SceneNode::Group { children: vec![2] },
            SceneNode::Transform { name: None, child: 3 },
            shape(vec![]),
        ],
    );
    let actions = convert_scene(&d).unwrap();
    assert_eq!(actions.len(), 1);
    assert!(matches!(actions[0], Action::MakeDir { .. }));
    assert_eq!(path_of(&actions[0]), vec!["model_3.obj".to_string()]);
}
