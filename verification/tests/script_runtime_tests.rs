use zero_ecs::components::{Axis, TransformField, Vec3Bits, Vec4Bits};
use zero_ecs::entity::{spawn_entity, MeshType};
use zero_ecs::scripts::{
    get_entity_component, get_position_component, set_entity_component, set_position_component,
    ScriptContext, ScriptInstanceId, ScriptRuntime,
};
use zero_ecs::world::World;

fn bits3(x: f32, y: f32, z: f32) -> Vec3Bits {
    Vec3Bits { x: x.to_bits(), y: y.to_bits(), z: z.to_bits() }
}

fn bits4(x: f32, y: f32, z: f32, w: f32) -> Vec4Bits {
    Vec4Bits { x: x.to_bits(), y: y.to_bits(), z: z.to_bits(), w: w.to_bits() }
}

#[test]
fn entity_handles_are_stable_and_distinct() {
    let mut w = World::new();
    let a = w.create_entity(String::from("a"));
    let b = w.create_entity(String::from("b"));
    let mut rt = ScriptRuntime::new();
    let ha = rt.get_or_create_entity_handle(a);
    let hb = rt.get_or_create_entity_handle(b);
    assert_ne!(ha, 0, "0 is the null handle and is never allocated");
    assert_ne!(hb, 0);
    assert_ne!(ha, hb);
    // Asking again returns the same handle.
    assert_eq!(rt.get_or_create_entity_handle(a), ha);
    assert_eq!(rt.get_or_create_entity_handle(b), hb);
    // The reverse direction inverts the mapping.
    assert_eq!(rt.get_entity_id_from_handle(ha), Some(a));
    assert_eq!(rt.get_entity_id_from_handle(hb), Some(b));
    assert_eq!(rt.get_entity_id_from_handle(999), None);
}

#[test]
fn instance_registration_is_idempotent() {
    let mut w = World::new();
    let a = w.create_entity(String::from("a"));
    let mut rt = ScriptRuntime::new();
    let inst = ScriptInstanceId::new(a, 1);
    assert!(!rt.has_instance(inst));
    rt.register_instance(inst);
    assert!(rt.has_instance(inst));
    rt.register_instance(inst);
    assert!(rt.has_instance(inst));
    let other = ScriptInstanceId::new(a, 2);
    assert!(!rt.has_instance(other));
}

#[test]
fn host_accessors_read_and_write_the_bound_entity() {
    let mut w = World::new();
    let id = spawn_entity(
        &mut w,
        String::from("mover"),
        bits3(1.5, 2.5, 3.5),
        bits3(1.0, 1.0, 1.0),
        MeshType::Cube,
        bits4(1.0, 1.0, 1.0, 1.0),
    );
    let ctx = ScriptContext { current_entity_id: Some(id), entity_handle: Some(1) };
    assert_eq!(
        f32::from_bits(get_position_component(&w, &ctx, Axis::X)),
        1.5
    );
    assert_eq!(
        f32::from_bits(get_entity_component(&w, &ctx, TransformField::Position, Axis::Z)),
        3.5
    );
    // Writing goes back to the same component.
    assert!(set_position_component(&mut w, &ctx, Axis::Y, 9.0f32.to_bits()));
    assert_eq!(
        f32::from_bits(get_position_component(&w, &ctx, Axis::Y)),
        9.0
    );
    assert!(set_entity_component(&mut w, &ctx, TransformField::Scale, Axis::X, 2.0f32.to_bits()));
    let e = w.get_entity(id).unwrap();
    let t = e.transform.as_ref().unwrap();
    assert_eq!(f32::from_bits(t.scale.x), 2.0);
    // Everything else is untouched.
    assert_eq!(f32::from_bits(t.position.x), 1.5);
}

#[test]
fn host_accessors_miss_returns_neutral_default() {
    let mut w = World::new();
    let id = w.create_entity(String::from("bare"));
    let gone = w.create_entity(String::from("gone"));
    w.remove_entity(gone).unwrap();
    // Bound to an entity without a transform: reads 0.0, writes nothing.
    let ctx = ScriptContext { current_entity_id: Some(id), entity_handle: Some(1) };
    assert_eq!(get_position_component(&w, &ctx, Axis::X), 0.0f32.to_bits());
    assert!(!set_position_component(&mut w, &ctx, Axis::X, 5.0f32.to_bits()));
    // Bound to a removed entity.
    let stale = ScriptContext { current_entity_id: Some(gone), entity_handle: Some(2) };
    assert_eq!(get_position_component(&w, &stale, Axis::Z), 0.0f32.to_bits());
    assert!(!set_position_component(&mut w, &stale, Axis::Z, 5.0f32.to_bits()));
    // Not bound at all.
    let unbound = ScriptContext { current_entity_id: None, entity_handle: None };
    assert_eq!(get_position_component(&w, &unbound, Axis::Y), 0.0f32.to_bits());
    assert!(!set_position_component(&mut w, &unbound, Axis::Y, 5.0f32.to_bits()));
}
