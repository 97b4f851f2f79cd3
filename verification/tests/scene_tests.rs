use zero_ecs::components::{Vec3Bits, Vec4Bits};
use zero_ecs::entity::MeshType;
use zero_ecs::scene::{
    load_scene, mesh_type_from_name, SceneCamera, SceneCameraData, SceneEntity, SceneFile,
    SceneTransform,
};
use zero_ecs::world::World;

fn bits3(x: f32, y: f32, z: f32) -> Vec3Bits {
    Vec3Bits { x: x.to_bits(), y: y.to_bits(), z: z.to_bits() }
}

fn bits4(x: f32, y: f32, z: f32, w: f32) -> Vec4Bits {
    Vec4Bits { x: x.to_bits(), y: y.to_bits(), z: z.to_bits(), w: w.to_bits() }
}

#[test]
fn mesh_names_resolve_to_reserved_ids() {
    assert_eq!(mesh_type_from_name(&String::from("cube")), MeshType::Cube);
    assert_eq!(mesh_type_from_name(&String::from("triangle")), MeshType::Triangle);
    // Matching ignores ASCII case.
    assert_eq!(mesh_type_from_name(&String::from("Cube")), MeshType::Cube);
    assert_eq!(mesh_type_from_name(&String::from("TRIANGLE")), MeshType::Triangle);
    // Unknown names resolve to the custom mesh id 0.
    assert_eq!(mesh_type_from_name(&String::from("sphere")), MeshType::Custom(0));
    assert_eq!(mesh_type_from_name(&String::from("")), MeshType::Custom(0));
    assert_eq!(mesh_type_from_name(&String::from("cubes")), MeshType::Custom(0));
}

fn demo_scene() -> SceneFile {
    SceneFile {
        entities: vec![SceneEntity {
            name: String::from("Cube1"),
            position: bits3(1.0, 0.0, 0.0),
            scale: bits3(1.0, 1.0, 1.0),
            mesh: String::from("cube"),
            color: bits4(0.0, 1.0, 0.0, 1.0),
            camera: None,
            scripts: vec![String::from("build/debug.wasm")],
            tags: vec![String::from("player")],
        }],
        cameras: vec![SceneCamera {
            name: String::from("MainCamera"),
            transform: SceneTransform {
                position: bits3(0.0, 0.0, 10.0),
                rotation: bits3(0.0, 0.0, 0.0),
                scale: bits3(0.0, 0.0, 0.0),
            },
            fov: 45.0f32.to_bits(),
            near: 0.1f32.to_bits(),
            far: 100.0f32.to_bits(),
            active: true,
            tags: vec![],
        }],
    }
}

#[test]
fn scene_populates_world_with_entities_and_camera() {
    let mut w = World::new();
    let scene = demo_scene();
    let spawned = load_scene(&mut w, &scene);
    assert_eq!(spawned.len(), 2);
    assert_eq!(w.entity_count(), 2);

    let cube = w.get_entity(spawned[0]).unwrap();
    assert_eq!(cube.name, "Cube1");
    let t = cube.transform.as_ref().unwrap();
    assert_eq!(f32::from_bits(t.position.x), 1.0);
    assert_eq!(cube.mesh_handle.as_ref().unwrap().0, 1);
    assert_eq!(f32::from_bits(cube.material.as_ref().unwrap().color.y), 1.0);
    let scripts = cube.scripts.as_ref().unwrap();
    assert_eq!(scripts.len(), 1);
    assert_eq!(scripts[0].script_path, "build/debug.wasm");
    assert!(!scripts[0].is_initialized);
    assert_eq!(cube.tags, vec![String::from("player")]);

    let cam = w.get_entity(spawned[1]).unwrap();
    assert_eq!(cam.name, "MainCamera");
    let cc = cam.camera.as_ref().unwrap();
    assert_eq!(f32::from_bits(cc.fov), 45.0);
    assert!(cc.is_active);
    assert_eq!(w.active_camera_entity(), Some(spawned[1]));

    // The tagged entity is found by its tag.
    assert_eq!(w.get_entities_with_tag("player"), vec![spawned[0]]);
    // The cube renders; the camera does not.
    let rs = w.get_renderable_entities_with_ids();
    assert_eq!(rs.len(), 1);
    assert_eq!(rs[0].0, spawned[0]);
}

#[test]
fn entity_record_camera_can_take_the_active_slot() {
    let mut w = World::new();
    let scene = SceneFile {
        entities: vec![SceneEntity {
            name: String::from("CamCube"),
            position: bits3(0.0, 0.0, 0.0),
            scale: bits3(1.0, 1.0, 1.0),
            mesh: String::from("triangle"),
            color: bits4(1.0, 1.0, 1.0, 1.0),
            camera: Some(SceneCameraData {
                fov: 60.0f32.to_bits(),
                near: 0.5f32.to_bits(),
                far: 10.0f32.to_bits(),
                active: true,
            }),
            scripts: vec![],
            tags: vec![],
        }],
        cameras: vec![],
    };
    let spawned = load_scene(&mut w, &scene);
    assert_eq!(spawned.len(), 1);
    let e = w.get_entity(spawned[0]).unwrap();
    assert!(e.camera.as_ref().unwrap().is_active);
    assert_eq!(w.active_camera_entity(), Some(spawned[0]));
    // An empty scripts list still becomes an (empty) script list.
    assert_eq!(e.scripts.as_ref().unwrap().len(), 0);
}

#[test]
fn loading_into_a_populated_world_keeps_what_was_there() {
    let mut w = World::new();
    let old = w.create_entity(String::from("survivor"));
    let spawned = load_scene(&mut w, &demo_scene());
    assert_eq!(w.entity_count(), 3);
    assert_eq!(w.get_entity(old).unwrap().name, "survivor");
    assert!(spawned.iter().all(|id| *id != old));
}
