use zero_ecs::components::{Material, MeshHandle, Transform, Vec3Bits, Vec4Bits};
use zero_ecs::entity::{
    set_active_camera, spawn_camera, spawn_entity, Camera, Entity, EntityBuilder, MeshType,
};
use zero_ecs::world::World;

fn bits3(x: f32, y: f32, z: f32) -> Vec3Bits {
    Vec3Bits { x: x.to_bits(), y: y.to_bits(), z: z.to_bits() }
}

fn bits4(x: f32, y: f32, z: f32, w: f32) -> Vec4Bits {
    Vec4Bits { x: x.to_bits(), y: y.to_bits(), z: z.to_bits(), w: w.to_bits() }
}

#[test]
fn empty_world_answers_every_query_empty() {
    let w = World::new();
    assert_eq!(w.entity_count(), 0);
    assert!(w.iter_entities().is_empty());
    assert!(w.get_entities_with_tag("anything").is_empty());
    assert!(w.get_renderable_entities().is_empty());
    assert_eq!(w.active_camera_entity(), None);
}

#[test]
fn create_then_get_resolves() {
    let mut w = World::new();
    let id = w.create_entity(String::from("thing"));
    let e = w.get_entity(id).expect("fresh id must resolve");
    assert_eq!(e.name, "thing");
    assert!(e.transform.is_none());
    assert_eq!(w.entity_count(), 1);
}

#[test]
fn removed_id_stops_resolving() {
    let mut w = World::new();
    let id = w.create_entity(String::from("gone"));
    let removed = w.remove_entity(id).expect("live id removes");
    assert_eq!(removed.name, "gone");
    assert!(w.get_entity(id).is_none());
    assert_eq!(w.entity_count(), 0);
    assert!(w.remove_entity(id).is_none());
}

#[test]
fn stale_id_never_resolves_after_slot_reuse() {
    let mut w = World::new();
    let first = w.create_entity(String::from("first"));
    w.remove_entity(first).unwrap();
    // The slot is recycled with a bumped generation.
    let second = w.create_entity(String::from("second"));
    assert_ne!(first, second);
    assert!(w.get_entity(first).is_none());
    assert_eq!(w.get_entity(second).unwrap().name, "second");
    // Even across many create/remove rounds the stale id stays dead.
    for round in 0..8 {
        let id = w.create_entity(format!("round{}", round));
        assert!(w.get_entity(first).is_none());
        w.remove_entity(id).unwrap();
        assert!(w.get_entity(first).is_none());
    }
}

#[test]
fn spawn_round_trip_reads_back_exact_components() {
    let mut w = World::new();
    let id = spawn_entity(
        &mut w,
        String::from("Cube1"),
        bits3(1.0, 0.0, 0.0),
        bits3(1.0, 1.0, 1.0),
        MeshType::Cube,
        bits4(0.0, 1.0, 0.0, 1.0),
    );
    let e = w.get_entity(id).unwrap();
    let t = e.transform.as_ref().unwrap();
    assert_eq!(f32::from_bits(t.position.x), 1.0);
    assert_eq!(f32::from_bits(t.position.y), 0.0);
    assert_eq!(f32::from_bits(t.position.z), 0.0);
    assert_eq!(f32::from_bits(t.scale.x), 1.0);
    assert_eq!(f32::from_bits(t.scale.y), 1.0);
    assert_eq!(f32::from_bits(t.scale.z), 1.0);
    // The cube resolves to its reserved mesh id.
    assert_eq!(e.mesh_handle.as_ref().unwrap().0, 1);
    let c = e.material.as_ref().unwrap().color;
    assert_eq!(f32::from_bits(c.x), 0.0);
    assert_eq!(f32::from_bits(c.y), 1.0);
    assert_eq!(f32::from_bits(c.z), 0.0);
    assert_eq!(f32::from_bits(c.w), 1.0);
}

#[test]
fn mesh_type_to_id_reserved_values() {
    assert_eq!(EntityBuilder::mesh_type_to_id(MeshType::Triangle), 0);
    assert_eq!(EntityBuilder::mesh_type_to_id(MeshType::Cube), 1);
    assert_eq!(EntityBuilder::mesh_type_to_id(MeshType::Custom(7)), 7);
}

#[test]
fn tag_query_returns_exactly_the_tagged_entity() {
    let mut w = World::new();
    let _plain = w.create_entity(String::from("plain"));
    let player = EntityBuilder::new(
        String::from("hero"),
        bits3(0.0, 0.0, 0.0),
        bits3(1.0, 1.0, 1.0),
        MeshType::Cube,
        bits4(1.0, 1.0, 1.0, 1.0),
        None,
    )
    .with_tag(String::from("player"))
    .build(&mut w);

    let hits = w.get_entities_with_tag("player");
    assert_eq!(hits.len(), 1);
    assert_eq!(hits[0], player);

    w.remove_tag_from_entity(player, "player");
    let hits = w.get_entities_with_tag("player");
    assert!(hits.is_empty());
}

#[test]
fn tag_added_later_is_found_and_removal_of_entity_clears_query() {
    let mut w = World::new();
    let a = w.create_entity(String::from("a"));
    let b = w.create_entity(String::from("b"));
    assert!(w.add_tag_to_entity(a, "enemy"));
    assert!(w.add_tag_to_entity(b, "enemy"));
    let hits = w.get_entities_with_tag("enemy");
    assert_eq!(hits, vec![a, b]);
    w.remove_entity(a).unwrap();
    let hits = w.get_entities_with_tag("enemy");
    assert_eq!(hits, vec![b]);
}

#[test]
fn renderables_exclude_entities_missing_any_component() {
    let mut w = World::new();
    // Has all three.
    let full = spawn_entity(
        &mut w,
        String::from("full"),
        bits3(2.0, 3.0, 4.0),
        bits3(1.0, 1.0, 1.0),
        MeshType::Triangle,
        bits4(1.0, 0.0, 0.0, 1.0),
    );
    // Missing material: transform and mesh only.
    let mut partial = Entity::new(String::from("no_material"));
    partial.add_transform(Transform::default());
    partial.add_mesh_handle(MeshHandle(5));
    let _no_material = w.insert_entity(partial);
    // No components at all.
    let _bare = w.create_entity(String::from("bare"));

    let rs = w.get_renderable_entities_with_ids();
    assert_eq!(rs.len(), 1);
    assert_eq!(rs[0].0, full);
    assert_eq!(rs[0].1, 0); // triangle mesh id
    let rs_plain = w.get_renderable_entities();
    assert_eq!(rs_plain.len(), 1);
    assert_eq!(f32::from_bits(rs_plain[0].1.position.x), 2.0);
}

#[test]
fn renderables_partial_components_two_of_three() {
    let mut w = World::new();
    // transform + mesh, no material
    let id1 = w.create_entity(String::from("tm"));
    let mut e = Entity::new(String::from("tm"));
    e.add_transform(Transform::default());
    e.add_mesh_handle(MeshHandle(3));
    let id1b = w.insert_entity(e);
    // transform + material, no mesh
    let mut e2 = Entity::new(String::from("ta"));
    e2.add_transform(Transform::default());
    e2.add_material(Material { color: bits4(1.0, 1.0, 1.0, 1.0) });
    let id2 = w.insert_entity(e2);
    // mesh + material, no transform
    let mut e3 = Entity::new(String::from("ma"));
    e3.add_mesh_handle(MeshHandle(4));
    e3.add_material(Material { color: bits4(1.0, 1.0, 1.0, 1.0) });
    let id3 = w.insert_entity(e3);
    let _ = (id1, id1b, id2, id3);
    assert!(w.get_renderable_entities().is_empty());
}

#[test]
fn activating_a_after_b_leaves_exactly_a_active() {
    let mut w = World::new();
    let a = spawn_camera(
        &mut w,
        String::from("camA"),
        bits3(0.0, 0.0, 10.0),
        bits3(0.0, 0.0, 0.0),
        45.0f32.to_bits(),
        0.1f32.to_bits(),
        100.0f32.to_bits(),
    );
    let b = spawn_camera(
        &mut w,
        String::from("camB"),
        bits3(0.0, 5.0, 0.0),
        bits3(0.0, 0.0, 0.0),
        60.0f32.to_bits(),
        0.1f32.to_bits(),
        50.0f32.to_bits(),
    );
    set_active_camera(&mut w, b);
    set_active_camera(&mut w, a);
    let active: Vec<_> = w
        .iter_entities()
        .into_iter()
        .filter(|id| {
            w.get_entity(*id)
                .and_then(|e| e.camera.as_ref().map(|c| c.is_active))
                .unwrap_or(false)
        })
        .collect();
    assert_eq!(active, vec![a]);
    // The query agrees.
    assert_eq!(w.active_camera_entity(), Some(a));
}

#[test]
fn active_camera_requires_transform_and_active_flag() {
    let mut w = World::new();
    assert_eq!(w.active_camera_entity(), None);
    // A camera without a transform does not qualify.
    let mut e = Entity::new(String::from("floating"));
    e.add_camera(Camera { fov: 45.0f32.to_bits(), near: 0, far: 0, is_active: true });
    let _no_transform = w.insert_entity(e);
    assert_eq!(w.active_camera_entity(), None);
}

#[test]
fn entity_component_setters_and_script_list() {
    let mut e = Entity::new(String::from("x"));
    e.set_name(String::from("renamed"));
    assert_eq!(e.name, "renamed");
    assert!(!e.has_scripts());
    assert_eq!(e.script_count(), 0);
    e.add_script(zero_ecs::scripts::Script::new(String::from("a.wasm")));
    e.add_script(zero_ecs::scripts::Script::new(String::from("b.wasm")));
    assert!(e.has_scripts());
    assert_eq!(e.script_count(), 2);
    assert_eq!(e.get_script(0).unwrap().script_path, "a.wasm");
    assert_eq!(e.get_script(1).unwrap().script_path, "b.wasm");
    assert!(e.get_script(2).is_none());
    let removed = e.remove_script(0).unwrap();
    assert_eq!(removed.script_path, "a.wasm");
    assert_eq!(e.script_count(), 1);
    assert!(e.remove_script(5).is_none());
}

#[test]
fn builder_accumulates_and_commits_in_one_call() {
    let mut w = World::new();
    let id = Entity::builder(String::from("built"))
        .with_camera(30.0f32.to_bits(), 0.1f32.to_bits(), 10.0f32.to_bits())
        .with_script(String::from("one.wasm"))
        .with_scripts(vec![String::from("two.wasm")])
        .with_tags(vec![String::from("a"), String::from("b")])
        .build(&mut w);
    let e = w.get_entity(id).unwrap();
    assert_eq!(e.name, "built");
    assert!(e.transform.is_none());
    let cam = e.camera.as_ref().unwrap();
    assert!(!cam.is_active, "builder cameras start inactive");
    let scripts = e.scripts.as_ref().unwrap();
    assert_eq!(scripts.len(), 2);
    assert_eq!(scripts[0].script_path, "one.wasm");
    assert_eq!(scripts[1].script_path, "two.wasm");
    assert_eq!(e.tags, vec![String::from("a"), String::from("b")]);
}

#[test]
fn script_scratch_data_reads_back_what_was_stored() {
    let mut s = zero_ecs::scripts::Script::new(String::from("m.wasm"));
    assert_eq!(s.get_data("speed"), None);
    s.set_data("speed", 2.5f32.to_bits());
    s.set_data("height", 1.0f32.to_bits());
    assert_eq!(s.get_data("speed").map(f32::from_bits), Some(2.5));
    assert_eq!(s.get_data("height").map(f32::from_bits), Some(1.0));
    s.set_data("speed", 3.5f32.to_bits());
    assert_eq!(s.get_data("speed").map(f32::from_bits), Some(3.5));
    assert_eq!(s.script_data.len(), 2, "overwriting a key adds no entry");
}

#[test]
fn entity_tags_and_children() {
    let mut w = World::new();
    let kid = w.create_entity(String::from("kid"));
    let mut e = Entity::new(String::from("p"));
    e.add_child(kid);
    e.add_parent(kid);
    assert_eq!(e.children.as_ref().unwrap().len(), 1);
    assert_eq!(e.parent, Some(kid));
    e.tags.push(String::from("alpha"));
    e.tags.push(String::from("beta"));
    e.tags.push(String::from("alpha"));
    assert!(e.has_tag("alpha"));
    e.remove_tag("alpha");
    assert!(!e.has_tag("alpha"));
    assert!(e.has_tag("beta"));
    assert_eq!(e.tags.len(), 1);
}
