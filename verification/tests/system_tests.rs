use zero_ecs::components::{Vec3Bits, Vec4Bits};
use zero_ecs::entity::{spawn_scripted_entity, spawn_single_script_entity, MeshType};
use zero_ecs::system::{collect_script_instances, ScriptAction, ScriptSystemPass};
use zero_ecs::world::World;

fn bits3(v: f32) -> Vec3Bits {
    Vec3Bits { x: v.to_bits(), y: v.to_bits(), z: v.to_bits() }
}

fn bits4(v: f32) -> Vec4Bits {
    Vec4Bits { x: v.to_bits(), y: v.to_bits(), z: v.to_bits(), w: v.to_bits() }
}

/// Runs one frame against a fake engine: `loads_succeed` decides the
/// outcome of every initialization attempt.  Returns how many
/// initializations and updates were requested.
fn run_frame(world: &mut World, loads_succeed: bool) -> (usize, usize) {
    let mut pass = ScriptSystemPass::new(world);
    let mut inits = 0;
    let mut updates = 0;
    loop {
        match pass.next_action(world) {
            ScriptAction::Init { .. } => {
                inits += 1;
                pass.report_init(world, loads_succeed);
            }
            ScriptAction::Update { .. } => {
                updates += 1;
                pass.report_update();
            }
            ScriptAction::Finished => break,
        }
    }
    (inits, updates)
}

#[test]
fn collect_lists_every_script_of_every_entity() {
    let mut w = World::new();
    let a = spawn_scripted_entity(
        &mut w,
        String::from("a"),
        bits3(0.0),
        bits3(1.0),
        MeshType::Cube,
        bits4(1.0),
        vec![String::from("one.wasm"), String::from("two.wasm")],
    );
    let _plain = w.create_entity(String::from("plain"));
    let b = spawn_single_script_entity(
        &mut w,
        String::from("b"),
        bits3(0.0),
        bits3(1.0),
        MeshType::Triangle,
        bits4(1.0),
        String::from("three.wasm"),
    );
    let jobs = collect_script_instances(&w);
    assert_eq!(jobs.len(), 3);
    let mut seen: Vec<(String, usize)> = jobs
        .iter()
        .map(|j| (j.script_path.clone(), j.script_index))
        .collect();
    seen.sort();
    assert_eq!(
        seen,
        vec![
            (String::from("one.wasm"), 0),
            (String::from("three.wasm"), 0),
            (String::from("two.wasm"), 1),
        ]
    );
    assert!(jobs.iter().all(|j| !j.was_initialized));
    assert!(jobs.iter().any(|j| j.entity_id == a));
    assert!(jobs.iter().any(|j| j.entity_id == b));
}

#[test]
fn script_initializes_exactly_once_across_many_frames() {
    let mut w = World::new();
    let id = spawn_single_script_entity(
        &mut w,
        String::from("scripted"),
        bits3(0.0),
        bits3(1.0),
        MeshType::Cube,
        bits4(1.0),
        String::from("mover.wasm"),
    );
    // First frame: one init, then the update of the same pair.
    let (inits, updates) = run_frame(&mut w, true);
    assert_eq!((inits, updates), (1, 1));
    assert!(w.get_entity(id).unwrap().get_script(0).unwrap().is_initialized);
    // Frames two through five: never another init.
    for _ in 0..4 {
        let (inits, updates) = run_frame(&mut w, true);
        assert_eq!((inits, updates), (0, 1));
    }
}

#[test]
fn failed_load_leaves_flag_down_and_retries_next_frame() {
    let mut w = World::new();
    let id = spawn_single_script_entity(
        &mut w,
        String::from("broken"),
        bits3(0.0),
        bits3(1.0),
        MeshType::Cube,
        bits4(1.0),
        String::from("missing.wasm"),
    );
    // Loading fails: the frame finishes without an update of the pair
    // and without raising the flag.
    let (inits, updates) = run_frame(&mut w, false);
    assert_eq!((inits, updates), (1, 0));
    assert!(!w.get_entity(id).unwrap().get_script(0).unwrap().is_initialized);
    // The next frame retries the initialization.
    let (inits, _) = run_frame(&mut w, false);
    assert_eq!(inits, 1);
    // Once loading works, it initializes and stays initialized.
    let (inits, updates) = run_frame(&mut w, true);
    assert_eq!((inits, updates), (1, 1));
    let (inits, updates) = run_frame(&mut w, true);
    assert_eq!((inits, updates), (0, 1));
}

#[test]
fn one_failing_script_does_not_starve_its_siblings() {
    let mut w = World::new();
    let _broken = spawn_single_script_entity(
        &mut w,
        String::from("broken"),
        bits3(0.0),
        bits3(1.0),
        MeshType::Cube,
        bits4(1.0),
        String::from("missing.wasm"),
    );
    let healthy = spawn_single_script_entity(
        &mut w,
        String::from("healthy"),
        bits3(0.0),
        bits3(1.0),
        MeshType::Cube,
        bits4(1.0),
        String::from("fine.wasm"),
    );
    // Drive one frame where every init "fails" for the broken one only:
    // simulate by failing all inits first, then a frame of successes.
    let mut pass = ScriptSystemPass::new(&w);
    let mut updated_healthy = false;
    loop {
        match pass.next_action(&w) {
            ScriptAction::Init { entity_id, script_path, .. } => {
                let ok = script_path != "missing.wasm";
                pass.report_init(&mut w, ok);
                let _ = entity_id;
            }
            ScriptAction::Update { entity_id, .. } => {
                if entity_id == healthy {
                    updated_healthy = true;
                }
                pass.report_update();
            }
            ScriptAction::Finished => break,
        }
    }
    assert!(updated_healthy, "a failing sibling must not abort the frame");
    assert!(w.get_entity(healthy).unwrap().get_script(0).unwrap().is_initialized);
}
