//! Scene descriptions and their instantiation into a world.
//!
//! A scene is a plain record of entities and cameras.  Reading it from
//! disk and parsing its serialized form belong to the embedding
//! application; this module owns what happens after parsing: resolving
//! mesh names to renderer mesh ids and populating the world.

use vstd::prelude::*;

use crate::components::{Material, MeshHandle, Transform, Vec3Bits, Vec4Bits};
use crate::entity::{spec_mesh_id, spawn_camera, Entity, EntityBuilder, MeshType};
use crate::world::{entity_with_camera_active, EntityId, World};

verus! {

/// Camera parameters carried by a scene entity.
#[derive(Clone, Copy, PartialEq, Eq, Structural, Debug)]
pub struct SceneCameraData {
    pub fov: u32,
    pub near: u32,
    pub far: u32,
    pub active: bool,
}

/// A full transform carried by a standalone scene camera.
#[derive(Clone, Copy, PartialEq, Eq, Structural, Debug)]
pub struct SceneTransform {
    pub position: Vec3Bits,
    pub rotation: Vec3Bits,
    pub scale: Vec3Bits,
}

/// One entity of a scene description.
pub struct SceneEntity {
    pub name: String,
    pub position: Vec3Bits,
    pub scale: Vec3Bits,
    pub mesh: String,
    pub color: Vec4Bits,
    pub camera: Option<SceneCameraData>,
    pub scripts: Vec<String>,
    pub tags: Vec<String>,
}

/// One standalone camera of a scene description.
pub struct SceneCamera {
    pub name: String,
    pub transform: SceneTransform,
    pub fov: u32,
    pub near: u32,
    pub far: u32,
    pub active: bool,
    pub tags: Vec<String>,
}

/// A parsed scene description.
pub struct SceneFile {
    pub entities: Vec<SceneEntity>,
    pub cameras: Vec<SceneCamera>,
}

/// An ASCII letter folded to lower case; every other byte unchanged.
pub open spec fn spec_ascii_lower(b: u8) -> u8 {
    if 0x41 <= b <= 0x5A {
        (b + 0x20) as u8
    } else {
        b
    }
}

/// A byte string folded to ASCII lower case.
pub open spec fn spec_ascii_lower_bytes(s: Seq<u8>) -> Seq<u8> {
    s.map_values(|b: u8| spec_ascii_lower(b))
}

/// Whether two byte strings are equal up to ASCII case.
pub open spec fn spec_ascii_eq_ignore_case(a: Seq<u8>, b: Seq<u8>) -> bool {
    spec_ascii_lower_bytes(a) == spec_ascii_lower_bytes(b)
}

/// The mesh a scene names, compared over the name's UTF-8 bytes and
/// ignoring ASCII case: `"cube"` and `"triangle"` pick the built-in
/// meshes, any other name resolves to the custom mesh id 0.
pub open spec fn spec_mesh_type_from_name(s: Seq<u8>) -> MeshType {
    if spec_ascii_eq_ignore_case(s, seq![0x63u8, 0x75u8, 0x62u8, 0x65u8]) {
        MeshType::Cube
    } else if spec_ascii_eq_ignore_case(
        s,
        seq![0x74u8, 0x72u8, 0x69u8, 0x61u8, 0x6Eu8, 0x67u8, 0x6Cu8, 0x65u8],
    ) {
        MeshType::Triangle
    } else {
        MeshType::Custom(0)
    }
}

fn ascii_lower(b: u8) -> (r: u8)
    ensures
        r == spec_ascii_lower(b),
{
    if 0x41 <= b && b <= 0x5A {
        b + 0x20
    } else {
        b
    }
}

fn ascii_eq_ignore_case(a: &[u8], b: &[u8]) -> (r: bool)
    ensures
        r == spec_ascii_eq_ignore_case(a@, b@),
{
    let na = a.len();
    let nb = b.len();
    if na != nb {
        proof {
            assert(spec_ascii_lower_bytes(a@).len() == a@.len());
            assert(spec_ascii_lower_bytes(b@).len() == b@.len());
        }
        return false;
    }
    let mut j: usize = 0;
    while j < na
        invariant
            na == a@.len(),
            na == b@.len(),
            0 <= j <= na,
            forall|k: int|
                0 <= k < j ==> spec_ascii_lower(#[trigger] a@[k]) == spec_ascii_lower(b@[k]),
        decreases na - j,
    {
        if ascii_lower(a[j]) != ascii_lower(b[j]) {
            proof {
                assert(spec_ascii_lower_bytes(a@)[j as int] != spec_ascii_lower_bytes(b@)[
                    j as int]);
            }
            return false;
        }
        j += 1;
    }
    proof {
        assert(spec_ascii_lower_bytes(a@) =~= spec_ascii_lower_bytes(b@));
    }
    true
}

/// Resolves a scene's mesh name to a [`MeshType`], ignoring ASCII case.
pub fn mesh_type_from_name(name: &String) -> (m: MeshType)
    ensures
        m == spec_mesh_type_from_name(vstd::utf8::encode_utf8(name@)),
{
    let st = name.as_str();
    let bs = st.as_bytes();
    let cube: [u8; 4] = [0x63, 0x75, 0x62, 0x65];
    let triangle: [u8; 8] = [0x74, 0x72, 0x69, 0x61, 0x6E, 0x67, 0x6C, 0x65];
    proof {
        assert(cube@ =~= seq![0x63u8, 0x75u8, 0x62u8, 0x65u8]);
        assert(triangle@ =~= seq![0x74u8, 0x72u8, 0x69u8, 0x61u8, 0x6Eu8, 0x67u8, 0x6Cu8, 0x65u8]);
    }
    if ascii_eq_ignore_case(bs, cube.as_slice()) {
        MeshType::Cube
    } else if ascii_eq_ignore_case(bs, triangle.as_slice()) {
        MeshType::Triangle
    } else {
        MeshType::Custom(0)
    }
}

/// Whether a world entity carries exactly what a scene entity record
/// asked for.  The camera's active flag is left open: activations run
/// while the rest of the scene loads may flip it.
pub open spec fn entity_matches_record(e: Entity, rec: SceneEntity) -> bool {
    &&& e.name == rec.name
    &&& e.transform == Some(
        Transform { position: rec.position, rotation: Vec3Bits { x: 0, y: 0, z: 0 }, scale: rec.scale },
    )
    &&& e.mesh_handle == Some(
        MeshHandle(spec_mesh_id(spec_mesh_type_from_name(vstd::utf8::encode_utf8(rec.mesh@)))),
    )
    &&& e.material == Some(Material { color: rec.color })
    &&& (match rec.camera {
        Some(cd) => e.camera matches Some(c) && c.fov == cd.fov && c.near == cd.near && c.far
            == cd.far,
        None => e.camera is None,
    })
    &&& e.scripts matches Some(v) && v@.len() == rec.scripts@.len() && (forall|k: int|
        0 <= k < v@.len() ==> (#[trigger] v@[k]).script_path@ == rec.scripts@[k]@
            && !v@[k].is_initialized)
    &&& e.tags@ == rec.tags@
}

/// Whether a world entity carries exactly what a standalone scene
/// camera record asked for; the active flag is left open as above.
pub open spec fn camera_matches_record(e: Entity, rec: SceneCamera) -> bool {
    &&& e.name == rec.name
    &&& e.transform == Some(
        Transform {
            position: rec.transform.position,
            rotation: rec.transform.rotation,
            scale: Vec3Bits { x: 0, y: 0, z: 0 },
        },
    )
    &&& e.camera matches Some(c) && c.fov == rec.fov && c.near == rec.near && c.far == rec.far
    &&& e.mesh_handle is None
    &&& e.material is None
}

proof fn lemma_entity_match_activation(e: Entity, rec: SceneEntity, on: bool)
    requires
        entity_matches_record(e, rec),
    ensures
        entity_matches_record(entity_with_camera_active(e, on), rec),
{
}

proof fn lemma_camera_match_activation(e: Entity, rec: SceneCamera, on: bool)
    requires
        camera_matches_record(e, rec),
    ensures
        camera_matches_record(entity_with_camera_active(e, on), rec),
{
}

/// Populates `world` from a parsed scene: one entity per entity record
/// (in order), then one camera entity per camera record, activating a
/// camera wherever its record says so.  Returns the identifiers of the
/// spawned entities, records first, in record order.  Entities that
/// were already in the world stay live with everything but their
/// camera's active flag untouched.
pub fn load_scene(world: &mut World, scene: &SceneFile) -> (spawned: Vec<EntityId>)
    requires
        old(world).wf(),
    ensures
        final(world).wf(),
        spawned@.len() == scene.entities@.len() + scene.cameras@.len(),
        forall|j: int|
            0 <= j < scene.entities@.len() ==> final(world).is_live(#[trigger] spawned@[j])
                && entity_matches_record(final(world).spec_entity(spawned@[j]), scene.entities@[j]),
        forall|j: int|
            scene.entities@.len() <= j < spawned@.len() ==> final(world).is_live(
                #[trigger] spawned@[j],
            ) && camera_matches_record(
                final(world).spec_entity(spawned@[j]),
                scene.cameras@[j - scene.entities@.len()],
            ),
        forall|j: int, k: int| 0 <= j < k < spawned@.len() ==> spawned@[j] != spawned@[k],
        forall|x: EntityId| old(world).is_live(x) ==> final(world).is_live(x),
        final(world).num_live() == old(world).num_live() + spawned@.len(),
{
    let mut spawned: Vec<EntityId> = Vec::new();
    let ne = scene.entities.len();
    let mut j: usize = 0;
    while j < ne
        invariant
            old(world).wf(),
            world.wf(),
            ne == scene.entities@.len(),
            0 <= j <= ne,
            spawned@.len() == j,
            forall|m: int|
                0 <= m < j ==> world.is_live(#[trigger] spawned@[m]) && entity_matches_record(
                    world.spec_entity(spawned@[m]),
                    scene.entities@[m],
                ),
            forall|m: int| 0 <= m < j ==> world.was_issued(#[trigger] spawned@[m]),
            forall|m: int, k: int| 0 <= m < k < j ==> spawned@[m] != spawned@[k],
            forall|x: EntityId| old(world).is_live(x) ==> world.is_live(x),
            world.num_live() == old(world).num_live() + j,
        decreases ne - j,
    {
        let rec = &scene.entities[j];
        let mesh = mesh_type_from_name(&rec.mesh);
        let mut b = EntityBuilder::new(
            rec.name.clone(),
            rec.position,
            rec.scale,
            mesh,
            rec.color,
            None,
        );
        b = b.with_scripts(rec.scripts.clone());
        b = b.with_tags(rec.tags.clone());
        let has_active_camera: bool = match &rec.camera {
            Some(cd) => {
                b = b.with_camera(cd.fov, cd.near, cd.far);
                cd.active
            },
            None => false,
        };
        let id = b.build(world);
        proof {
            assert(Seq::<String>::empty() + scene.entities@[j as int].tags@ =~= scene.entities@[
                j as int].tags@);
            assert(entity_matches_record(
                world.spec_entity(id),
                scene.entities@[j as int],
            ));
        }
        proof {
            world.lemma_live_is_issued(id);
        }
        if has_active_camera {
            let ghost mid_world = *world;
            crate::entity::set_active_camera(world, id);
            proof {
                assert forall|m: int|
                    0 <= m < j implies world.is_live(#[trigger] spawned@[m])
                        && entity_matches_record(
                        world.spec_entity(spawned@[m]),
                        scene.entities@[m],
                    ) by {
                    assert(mid_world.is_live(spawned@[m]));
                    lemma_entity_match_activation(
                        mid_world.spec_entity(spawned@[m]),
                        scene.entities@[m],
                        spawned@[m] == id,
                    );
                }
                lemma_entity_match_activation(
                    mid_world.spec_entity(id),
                    scene.entities@[j as int],
                    true,
                );
            }
        }
        spawned.push(id);
        j += 1;
    }
    let nc = scene.cameras.len();
    let mut j2: usize = 0;
    while j2 < nc
        invariant
            old(world).wf(),
            world.wf(),
            ne == scene.entities@.len(),
            nc == scene.cameras@.len(),
            0 <= j2 <= nc,
            spawned@.len() == ne + j2,
            forall|m: int|
                0 <= m < ne ==> world.is_live(#[trigger] spawned@[m]) && entity_matches_record(
                    world.spec_entity(spawned@[m]),
                    scene.entities@[m],
                ),
            forall|m: int|
                ne <= m < spawned@.len() ==> world.is_live(#[trigger] spawned@[m])
                    && camera_matches_record(
                    world.spec_entity(spawned@[m]),
                    scene.cameras@[m - ne],
                ),
            forall|m: int| 0 <= m < spawned@.len() ==> world.was_issued(#[trigger] spawned@[m]),
            forall|m: int, k: int| 0 <= m < k < spawned@.len() ==> spawned@[m] != spawned@[k],
            forall|x: EntityId| old(world).is_live(x) ==> world.is_live(x),
            world.num_live() == old(world).num_live() + spawned@.len(),
        decreases nc - j2,
    {
        let rec = &scene.cameras[j2];
        let id = spawn_camera(
            world,
            rec.name.clone(),
            rec.transform.position,
            rec.transform.rotation,
            rec.fov,
            rec.near,
            rec.far,
        );
        proof {
            assert(camera_matches_record(world.spec_entity(id), scene.cameras@[j2 as int]));
            world.lemma_live_is_issued(id);
        }
        if rec.active {
            let ghost mid_world = *world;
            crate::entity::set_active_camera(world, id);
            proof {
                assert forall|m: int|
                    0 <= m < ne implies world.is_live(#[trigger] spawned@[m])
                        && entity_matches_record(
                        world.spec_entity(spawned@[m]),
                        scene.entities@[m],
                    ) by {
                    assert(mid_world.is_live(spawned@[m]));
                    lemma_entity_match_activation(
                        mid_world.spec_entity(spawned@[m]),
                        scene.entities@[m],
                        spawned@[m] == id,
                    );
                }
                assert forall|m: int|
                    ne <= m < spawned@.len() implies world.is_live(#[trigger] spawned@[m])
                        && camera_matches_record(
                        world.spec_entity(spawned@[m]),
                        scene.cameras@[m - ne],
                    ) by {
                    assert(mid_world.is_live(spawned@[m]));
                    lemma_camera_match_activation(
                        mid_world.spec_entity(spawned@[m]),
                        scene.cameras@[m - ne],
                        spawned@[m] == id,
                    );
                }
                lemma_camera_match_activation(
                    mid_world.spec_entity(id),
                    scene.cameras@[j2 as int],
                    true,
                );
            }
        }
        spawned.push(id);
        j2 += 1;
    }
    spawned
}

} // verus!
