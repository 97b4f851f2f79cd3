//! Entities: records of optional components, and their builder.

use vstd::prelude::*;

use crate::components::{Material, MeshHandle, Transform, Vec3Bits, Vec4Bits};
use crate::scripts::Script;
use crate::world::{camera_activation_step, creation_step, EntityId, World};

verus! {

/// A perspective camera component.  `fov` is the vertical field of view
/// in degrees, `near` and `far` the clipping planes; all three are
/// single-precision bit patterns.  At most one entity's camera is active
/// at a time; [`set_active_camera`](crate::world::World::set_active_camera)
/// restores that invariant on every activation.
#[derive(Clone, Copy, PartialEq, Eq, Structural, Debug)]
pub struct Camera {
    pub fov: u32,
    pub near: u32,
    pub far: u32,
    pub is_active: bool,
}

/// A record of optional components.  Entities live in a
/// [`World`](crate::world::World) and are addressed by generational
/// [`EntityId`]s; parent and child links are non-owning references by id.
pub struct Entity {
    pub name: String,
    pub transform: Option<Transform>,
    pub mesh_handle: Option<MeshHandle>,
    pub material: Option<Material>,
    pub camera: Option<Camera>,
    pub scripts: Option<Vec<Script>>,
    pub children: Option<Vec<EntityId>>,
    pub parent: Option<EntityId>,
    pub tags: Vec<String>,
}

/// `e` with its name replaced.
pub open spec fn entity_with_name(e: Entity, name: String) -> Entity {
    Entity {
        name,
        transform: e.transform,
        mesh_handle: e.mesh_handle,
        material: e.material,
        camera: e.camera,
        scripts: e.scripts,
        children: e.children,
        parent: e.parent,
        tags: e.tags,
    }
}

/// `e` with its transform replaced.
pub open spec fn entity_with_transform(e: Entity, t: Transform) -> Entity {
    Entity {
        name: e.name,
        transform: Some(t),
        mesh_handle: e.mesh_handle,
        material: e.material,
        camera: e.camera,
        scripts: e.scripts,
        children: e.children,
        parent: e.parent,
        tags: e.tags,
    }
}

/// `e` with its mesh handle replaced.
pub open spec fn entity_with_mesh_handle(e: Entity, m: MeshHandle) -> Entity {
    Entity {
        name: e.name,
        transform: e.transform,
        mesh_handle: Some(m),
        material: e.material,
        camera: e.camera,
        scripts: e.scripts,
        children: e.children,
        parent: e.parent,
        tags: e.tags,
    }
}

/// `e` with its material replaced.
pub open spec fn entity_with_material(e: Entity, m: Material) -> Entity {
    Entity {
        name: e.name,
        transform: e.transform,
        mesh_handle: e.mesh_handle,
        material: Some(m),
        camera: e.camera,
        scripts: e.scripts,
        children: e.children,
        parent: e.parent,
        tags: e.tags,
    }
}

/// `e` with its camera replaced.
pub open spec fn entity_with_camera(e: Entity, c: Camera) -> Entity {
    Entity {
        name: e.name,
        transform: e.transform,
        mesh_handle: e.mesh_handle,
        material: e.material,
        camera: Some(c),
        scripts: e.scripts,
        children: e.children,
        parent: e.parent,
        tags: e.tags,
    }
}

/// `e` with its parent link replaced.
pub open spec fn entity_with_parent(e: Entity, p: EntityId) -> Entity {
    Entity {
        name: e.name,
        transform: e.transform,
        mesh_handle: e.mesh_handle,
        material: e.material,
        camera: e.camera,
        scripts: e.scripts,
        children: e.children,
        parent: Some(p),
        tags: e.tags,
    }
}

/// `e` with its script list replaced by the given value.
pub open spec fn entity_with_scripts(e: Entity, s: Option<Vec<Script>>) -> Entity {
    Entity {
        name: e.name,
        transform: e.transform,
        mesh_handle: e.mesh_handle,
        material: e.material,
        camera: e.camera,
        scripts: s,
        children: e.children,
        parent: e.parent,
        tags: e.tags,
    }
}

/// `e` with its child list replaced by the given value.
pub open spec fn entity_with_children(e: Entity, c: Option<Vec<EntityId>>) -> Entity {
    Entity {
        name: e.name,
        transform: e.transform,
        mesh_handle: e.mesh_handle,
        material: e.material,
        camera: e.camera,
        scripts: e.scripts,
        children: c,
        parent: e.parent,
        tags: e.tags,
    }
}

/// `e` with its tag list replaced by the given value.
pub open spec fn entity_with_tags(e: Entity, tags: Vec<String>) -> Entity {
    Entity {
        name: e.name,
        transform: e.transform,
        mesh_handle: e.mesh_handle,
        material: e.material,
        camera: e.camera,
        scripts: e.scripts,
        children: e.children,
        parent: e.parent,
        tags,
    }
}

/// Whether the tag list `tags` carries the tag named `t`.
pub open spec fn spec_tags_contain(tags: Seq<String>, t: Seq<char>) -> bool {
    exists|j: int| 0 <= j < tags.len() && (#[trigger] tags[j])@ == t
}

/// `tags` with every occurrence of the tag named `t` removed, order kept.
pub open spec fn spec_tags_without(tags: Seq<String>, t: Seq<char>) -> Seq<String>
    decreases tags.len(),
{
    if tags.len() == 0 {
        Seq::empty()
    } else {
        let rest = spec_tags_without(tags.drop_last(), t);
        if tags.last()@ == t {
            rest
        } else {
            rest.push(tags.last())
        }
    }
}

impl Entity {
    /// A named entity with no components.
    pub fn new(name: String) -> (e: Entity)
        ensures
            e.name == name,
            e.transform is None,
            e.mesh_handle is None,
            e.material is None,
            e.camera is None,
            e.scripts is None,
            e.children is None,
            e.parent is None,
            e.tags@ == Seq::<String>::empty(),
    {
        Entity {
            name,
            transform: None,
            mesh_handle: None,
            material: None,
            camera: None,
            scripts: None,
            children: None,
            parent: None,
            tags: Vec::new(),
        }
    }

    /// An empty accumulator for `name`: no components until the
    /// `with_` methods add them.
    pub fn builder(name: String) -> (b: EntityBuilder)
        ensures
            b.name == name,
            b.transform is None,
            b.mesh_handle is None,
            b.material is None,
            b.camera is None,
            b.scripts is None,
            b.children is None,
            b.parent is None,
            b.tags@ == Seq::<String>::empty(),
    {
        EntityBuilder {
            name,
            transform: None,
            mesh_handle: None,
            material: None,
            camera: None,
            scripts: None,
            children: None,
            parent: None,
            tags: Vec::new(),
        }
    }

    pub fn set_name(&mut self, name: String)
        ensures
            *final(self) == entity_with_name(*old(self), name),
    {
        self.name = name;
    }

    pub fn add_camera(&mut self, camera: Camera)
        ensures
            *final(self) == entity_with_camera(*old(self), camera),
    {
        self.camera = Some(camera);
    }

    pub fn add_parent(&mut self, parent: EntityId)
        ensures
            *final(self) == entity_with_parent(*old(self), parent),
    {
        self.parent = Some(parent);
    }

    /// Appends `child` to the child list, creating the list if absent.
    pub fn add_child(&mut self, child: EntityId)
        ensures
            *final(self) == entity_with_children(*old(self), final(self).children),
            final(self).children matches Some(v) && v@ == (match old(self).children {
                Some(o) => o@.push(child),
                None => seq![child],
            }),
    {
        match &mut self.children {
            Some(v) => {
                v.push(child);
            },
            None => {
                let mut v: Vec<EntityId> = Vec::new();
                v.push(child);
                self.children = Some(v);
            },
        }
    }

    pub fn add_transform(&mut self, transform: Transform)
        ensures
            *final(self) == entity_with_transform(*old(self), transform),
    {
        self.transform = Some(transform);
    }

    pub fn add_mesh_handle(&mut self, mesh_handle: MeshHandle)
        ensures
            *final(self) == entity_with_mesh_handle(*old(self), mesh_handle),
    {
        self.mesh_handle = Some(mesh_handle);
    }

    pub fn add_material(&mut self, material: Material)
        ensures
            *final(self) == entity_with_material(*old(self), material),
    {
        self.material = Some(material);
    }

    /// Whether this entity carries the tag named `tag`.
    pub fn has_tag(&self, tag: &str) -> (r: bool)
        ensures
            r == spec_tags_contain(self.tags@, tag@),
    {
        let owned: String = tag.to_owned();
        let n = self.tags.len();
        let mut j: usize = 0;
        while j < n
            invariant
                n == self.tags@.len(),
                0 <= j <= n,
                owned@ == tag@,
                forall|k: int| 0 <= k < j ==> (#[trigger] self.tags@[k])@ != tag@,
            decreases n - j,
        {
            if self.tags[j] == owned {
                return true;
            }
            j += 1;
        }
        false
    }

    /// Removes every occurrence of the tag named `tag`, keeping the
    /// order of the remaining tags.
    pub fn remove_tag(&mut self, tag: &str)
        ensures
            *final(self) == entity_with_tags(*old(self), final(self).tags),
            final(self).tags@ == spec_tags_without(old(self).tags@, tag@),
    {
        let owned: String = tag.to_owned();
        let n = self.tags.len();
        let mut kept: Vec<String> = Vec::new();
        let mut j: usize = 0;
        while j < n
            invariant
                n == self.tags@.len(),
                *self == *old(self),
                0 <= j <= n,
                owned@ == tag@,
                kept@ == spec_tags_without(self.tags@.subrange(0, j as int), tag@),
            decreases n - j,
        {
            proof {
                assert(self.tags@.subrange(0, j + 1).drop_last() == self.tags@.subrange(
                    0,
                    j as int,
                ));
                assert(self.tags@.subrange(0, j + 1).last() == self.tags@[j as int]);
            }
            let keep = !(self.tags[j] == owned);
            if keep {
                let item = self.tags[j].clone();
                kept.push(item);
            }
            j += 1;
        }
        proof {
            assert(self.tags@.subrange(0, n as int) == self.tags@);
        }
        self.tags = kept;
    }

    /// Appends `script` to the script list, creating the list if absent.
    pub fn add_script(&mut self, script: Script)
        ensures
            *final(self) == entity_with_scripts(*old(self), final(self).scripts),
            final(self).scripts matches Some(v) && v@ == (match old(self).scripts {
                Some(o) => o@.push(script),
                None => seq![script],
            }),
    {
        match &mut self.scripts {
            Some(v) => {
                v.push(script);
            },
            None => {
                let mut v: Vec<Script> = Vec::new();
                v.push(script);
                self.scripts = Some(v);
            },
        }
    }

    /// Appends all of `scripts`, creating the list if absent.
    pub fn add_scripts(&mut self, scripts: Vec<Script>)
        ensures
            *final(self) == entity_with_scripts(*old(self), final(self).scripts),
            final(self).scripts matches Some(v) && v@ == (match old(self).scripts {
                Some(o) => o@ + scripts@,
                None => scripts@,
            }),
    {
        match &mut self.scripts {
            Some(v) => {
                let mut rest = scripts;
                v.append(&mut rest);
            },
            None => {
                self.scripts = Some(scripts);
            },
        }
    }

    /// Removes and returns the script at `index`, if it exists.
    pub fn remove_script(&mut self, index: usize) -> (r: Option<Script>)
        ensures
            match r {
                Some(s) => {
                    &&& old(self).scripts matches Some(o) && index < o@.len() && s == o@[index as int]
                    &&& *final(self) == entity_with_scripts(*old(self), final(self).scripts)
                    &&& final(self).scripts matches Some(v) && v@ == old(self).scripts.unwrap()@.remove(index as int)
                },
                None => {
                    &&& *final(self) == *old(self)
                    &&& (old(self).scripts matches Some(o) ==> index >= o@.len())
                },
            },
    {
        match &mut self.scripts {
            Some(v) => {
                if index < v.len() {
                    Some(v.remove(index))
                } else {
                    None
                }
            },
            None => None,
        }
    }

    /// Whether the entity has at least one script.
    pub fn has_scripts(&self) -> (r: bool)
        ensures
            r == (self.scripts matches Some(v) && v@.len() > 0),
    {
        match &self.scripts {
            Some(v) => v.len() > 0,
            None => false,
        }
    }

    /// How many scripts the entity has.
    pub fn script_count(&self) -> (r: usize)
        ensures
            r == (match self.scripts {
                Some(v) => v@.len(),
                None => 0,
            }),
    {
        match &self.scripts {
            Some(v) => v.len(),
            None => 0,
        }
    }

    /// The script at `index`, if it exists.
    pub fn get_script(&self, index: usize) -> (r: Option<&Script>)
        ensures
            match r {
                Some(s) => self.scripts matches Some(v) && index < v@.len() && *s == v@[index as int],
                None => !(self.scripts matches Some(v) && index < v@.len()),
            },
    {
        match &self.scripts {
            Some(v) => {
                if index < v.len() {
                    Some(&v[index])
                } else {
                    None
                }
            },
            None => None,
        }
    }
}


/// How an entity's mesh is chosen: one of the two built-in meshes, or a
/// renderer mesh id passed through directly.
#[derive(Clone, Copy, PartialEq, Eq, Structural, Debug)]
pub enum MeshType {
    Triangle,
    Cube,
    Custom(u32),
}

/// The renderer mesh id a [`MeshType`] stands for: the triangle is mesh
/// 0, the cube mesh 1, and a custom choice passes its id through.
pub open spec fn spec_mesh_id(m: MeshType) -> u32 {
    match m {
        MeshType::Triangle => 0,
        MeshType::Cube => 1,
        MeshType::Custom(id) => id,
    }
}

/// Accumulates optional components for one entity and commits them into
/// a [`World`] in a single [`EntityBuilder::build`] call.  The builder
/// holds no reference to any world; the world is passed to `build`
/// explicitly.
pub struct EntityBuilder {
    pub name: String,
    pub transform: Option<Transform>,
    pub mesh_handle: Option<MeshHandle>,
    pub material: Option<Material>,
    pub camera: Option<Camera>,
    pub scripts: Option<Vec<Script>>,
    pub children: Option<Vec<EntityId>>,
    pub parent: Option<EntityId>,
    pub tags: Vec<String>,
}

impl EntityBuilder {
    /// The entity this builder would commit.
    pub open spec fn spec_to_entity(self) -> Entity {
        Entity {
            name: self.name,
            transform: self.transform,
            mesh_handle: self.mesh_handle,
            material: self.material,
            camera: self.camera,
            scripts: self.scripts,
            children: self.children,
            parent: self.parent,
            tags: self.tags,
        }
    }

    /// The renderer mesh id `mesh` stands for.
    pub fn mesh_type_to_id(mesh: MeshType) -> (r: u32)
        ensures
            r == spec_mesh_id(mesh),
    {
        match mesh {
            MeshType::Triangle => 0,
            MeshType::Cube => 1,
            MeshType::Custom(id) => id,
        }
    }

    /// A builder carrying the basic components: a transform at
    /// `position` with zero rotation and the given scale, the chosen
    /// mesh, a colored material, and optionally one script.
    pub fn new(
        name: String,
        position: Vec3Bits,
        scale: Vec3Bits,
        mesh: MeshType,
        color: Vec4Bits,
        script_path: Option<String>,
    ) -> (r: EntityBuilder)
        ensures
            r.name == name,
            r.transform matches Some(t) && t.position == position && t.rotation == (Vec3Bits {
                x: 0,
                y: 0,
                z: 0,
            }) && t.scale == scale,
            r.mesh_handle == Some(MeshHandle(spec_mesh_id(mesh))),
            r.material == Some(Material { color }),
            r.camera is None,
            match script_path {
                Some(p) => r.scripts matches Some(v) && v@.len() == 1 && v@[0].script_path == p
                    && !v@[0].is_initialized && v@[0].script_data@ == Seq::<(String, u32)>::empty(),
                None => r.scripts is None,
            },
            r.children is None,
            r.parent is None,
            r.tags@ == Seq::<String>::empty(),
    {
        let scripts: Option<Vec<Script>> = match script_path {
            Some(p) => {
                let mut v: Vec<Script> = Vec::new();
                v.push(Script::new(p));
                Some(v)
            },
            None => None,
        };
        EntityBuilder {
            name,
            transform: Some(
                Transform { position, rotation: Vec3Bits::zero(), scale },
            ),
            mesh_handle: Some(MeshHandle(EntityBuilder::mesh_type_to_id(mesh))),
            material: Some(Material { color }),
            camera: None,
            scripts,
            children: None,
            parent: None,
            tags: Vec::new(),
        }
    }

    /// Appends one more script.
    pub fn with_script(self, script_path: String) -> (r: EntityBuilder)
        ensures
            r == (EntityBuilder { scripts: r.scripts, ..self }),
            r.scripts matches Some(v) && v@.len() == (match self.scripts {
                Some(o) => o@.len() + 1,
                None => 1nat,
            }) && (match self.scripts {
                Some(o) => v@.drop_last() == o@,
                None => true,
            }) && v@.last().script_path == script_path && !v@.last().is_initialized
                && v@.last().script_data@ == Seq::<(String, u32)>::empty(),
    {
        let mut b = self;
        let script = Script::new(script_path);
        match &mut b.scripts {
            Some(v) => {
                v.push(script);
            },
            None => {
                let mut v: Vec<Script> = Vec::new();
                v.push(script);
                b.scripts = Some(v);
            },
        }
        b
    }

    /// Appends a script record for each path, in order.
    pub fn with_scripts(self, script_paths: Vec<String>) -> (r: EntityBuilder)
        ensures
            r == (EntityBuilder { scripts: r.scripts, ..self }),
            r.scripts matches Some(v) && v@.len() == (match self.scripts {
                Some(o) => o@.len(),
                None => 0nat,
            }) + script_paths@.len() && (match self.scripts {
                Some(o) => v@.subrange(0, o@.len() as int) == o@,
                None => true,
            }),
            r.scripts matches Some(v) && forall|j: int|
                v@.len() - script_paths@.len() <= j < v@.len() ==> (#[trigger] v@[j]).script_path
                    == script_paths@[j - (v@.len() - script_paths@.len())]
                    && !v@[j].is_initialized && v@[j].script_data@ == Seq::<(String, u32)>::empty(),
    {
        let mut b = self;
        let taken = b.scripts.take();
        let mut v: Vec<Script> = match taken {
            Some(v0) => v0,
            None => Vec::new(),
        };
        let ghost base: int = v@.len() as int;
        let n = script_paths.len();
        let mut j: usize = 0;
        while j < n
            invariant
                n == script_paths@.len(),
                0 <= j <= n,
                v@.len() == base + j,
                base >= 0,
                (match self.scripts {
                    Some(o) => base == o@.len() && v@.subrange(0, base) == o@,
                    None => base == 0,
                }),
                forall|k: int|
                    base <= k < v@.len() ==> (#[trigger] v@[k]).script_path == script_paths@[k
                        - base] && !v@[k].is_initialized && v@[k].script_data@ == Seq::<(
                    String,
                    u32,
                )>::empty(),
            decreases n - j,
        {
            let p = script_paths[j].clone();
            let script = Script::new(p);
            proof {
                assert(v@.push(script).subrange(0, base) == v@.subrange(0, base));
            }
            v.push(script);
            j += 1;
        }
        b.scripts = Some(v);
        b
    }

    /// Adds a camera, inactive by default; activation goes through
    /// [`set_active_camera`].
    pub fn with_camera(self, fov: u32, near: u32, far: u32) -> (r: EntityBuilder)
        ensures
            r == (EntityBuilder {
                camera: Some(Camera { fov, near, far, is_active: false }),
                ..self
            }),
    {
        let mut b = self;
        b.camera = Some(Camera { fov, near, far, is_active: false });
        b
    }

    /// Appends all of `tags`.
    pub fn with_tags(self, tags: Vec<String>) -> (r: EntityBuilder)
        ensures
            r == (EntityBuilder { tags: r.tags, ..self }),
            r.tags@ == self.tags@ + tags@,
    {
        let mut b = self;
        let mut rest = tags;
        b.tags.append(&mut rest);
        b
    }

    /// Appends a single tag.
    pub fn with_tag(self, tag: String) -> (r: EntityBuilder)
        ensures
            r == (EntityBuilder { tags: r.tags, ..self }),
            r.tags@ == self.tags@.push(tag),
    {
        let mut b = self;
        b.tags.push(tag);
        b
    }

    /// Commits the accumulated components into `world` as a fresh
    /// entity and returns its never-before-issued identifier.
    pub fn build(self, world: &mut World) -> (id: EntityId)
        requires
            old(world).wf(),
        ensures
            final(world).wf(),
            creation_step(*old(world), *final(world), id),
            final(world).is_live(id),
            !old(world).was_issued(id),
            final(world).spec_entity(id) == self.spec_to_entity(),
            final(world).num_live() == old(world).num_live() + 1,
    {
        let EntityBuilder {
            name,
            transform,
            mesh_handle,
            material,
            camera,
            scripts,
            children,
            parent,
            tags,
        } = self;
        let e = Entity {
            name,
            transform,
            mesh_handle,
            material,
            camera,
            scripts,
            children,
            parent,
            tags,
        };
        world.insert_entity(e)
    }
}

/// Creates an entity with a transform (zero rotation), mesh and
/// material, and returns its identifier.
pub fn spawn_entity(
    world: &mut World,
    name: String,
    position: Vec3Bits,
    scale: Vec3Bits,
    mesh: MeshType,
    color: Vec4Bits,
) -> (id: EntityId)
    requires
        old(world).wf(),
    ensures
        final(world).wf(),
        creation_step(*old(world), *final(world), id),
        final(world).is_live(id),
        final(world).spec_entity(id).name == name,
        final(world).spec_entity(id).transform matches Some(t) && t.position == position
            && t.rotation == (Vec3Bits { x: 0, y: 0, z: 0 }) && t.scale == scale,
        final(world).spec_entity(id).mesh_handle == Some(MeshHandle(spec_mesh_id(mesh))),
        final(world).spec_entity(id).material == Some(Material { color }),
        final(world).spec_entity(id).camera is None,
        final(world).spec_entity(id).scripts is None,
        final(world).spec_entity(id).children is None,
        final(world).spec_entity(id).parent is None,
        final(world).spec_entity(id).tags@ == Seq::<String>::empty(),
        final(world).num_live() == old(world).num_live() + 1,
{
    let b = EntityBuilder::new(name, position, scale, mesh, color, None);
    b.build(world)
}

/// Creates an entity as [`spawn_entity`] does and attaches one
/// uninitialized script record per path, in order.
pub fn spawn_scripted_entity(
    world: &mut World,
    name: String,
    position: Vec3Bits,
    scale: Vec3Bits,
    mesh: MeshType,
    color: Vec4Bits,
    script_paths: Vec<String>,
) -> (id: EntityId)
    requires
        old(world).wf(),
    ensures
        final(world).wf(),
        creation_step(*old(world), *final(world), id),
        final(world).is_live(id),
        final(world).spec_entity(id).name == name,
        final(world).spec_entity(id).transform matches Some(t) && t.position == position
            && t.rotation == (Vec3Bits { x: 0, y: 0, z: 0 }) && t.scale == scale,
        final(world).spec_entity(id).mesh_handle == Some(MeshHandle(spec_mesh_id(mesh))),
        final(world).spec_entity(id).material == Some(Material { color }),
        final(world).spec_entity(id).camera is None,
        final(world).spec_entity(id).scripts matches Some(v) && v@.len() == script_paths@.len()
            && forall|j: int|
            0 <= j < v@.len() ==> (#[trigger] v@[j]).script_path == script_paths@[j]
                && !v@[j].is_initialized && v@[j].script_data@ == Seq::<(String, u32)>::empty(),
        final(world).spec_entity(id).children is None,
        final(world).spec_entity(id).parent is None,
        final(world).spec_entity(id).tags@ == Seq::<String>::empty(),
        final(world).num_live() == old(world).num_live() + 1,
{
    let b = EntityBuilder::new(name, position, scale, mesh, color, None);
    let b = b.with_scripts(script_paths);
    b.build(world)
}

/// Creates an entity as [`spawn_entity`] does and attaches a single
/// uninitialized script record.
pub fn spawn_single_script_entity(
    world: &mut World,
    name: String,
    position: Vec3Bits,
    scale: Vec3Bits,
    mesh: MeshType,
    color: Vec4Bits,
    script_path: String,
) -> (id: EntityId)
    requires
        old(world).wf(),
    ensures
        final(world).wf(),
        creation_step(*old(world), *final(world), id),
        final(world).is_live(id),
        final(world).spec_entity(id).name == name,
        final(world).spec_entity(id).transform matches Some(t) && t.position == position
            && t.rotation == (Vec3Bits { x: 0, y: 0, z: 0 }) && t.scale == scale,
        final(world).spec_entity(id).mesh_handle == Some(MeshHandle(spec_mesh_id(mesh))),
        final(world).spec_entity(id).material == Some(Material { color }),
        final(world).spec_entity(id).camera is None,
        final(world).spec_entity(id).scripts matches Some(v) && v@.len() == 1
            && v@[0].script_path == script_path && !v@[0].is_initialized
            && v@[0].script_data@ == Seq::<(String, u32)>::empty(),
        final(world).spec_entity(id).children is None,
        final(world).spec_entity(id).parent is None,
        final(world).spec_entity(id).tags@ == Seq::<String>::empty(),
        final(world).num_live() == old(world).num_live() + 1,
{
    let paths = vec![script_path];
    spawn_scripted_entity(world, name, position, scale, mesh, color, paths)
}

/// Creates a camera entity: a transform at `position` with the given
/// rotation and zero scale, and a camera born active.  Call
/// [`set_active_camera`] afterwards to make it the only active one.
pub fn spawn_camera(
    world: &mut World,
    name: String,
    position: Vec3Bits,
    rotation: Vec3Bits,
    fov_y: u32,
    near: u32,
    far: u32,
) -> (id: EntityId)
    requires
        old(world).wf(),
    ensures
        final(world).wf(),
        creation_step(*old(world), *final(world), id),
        final(world).is_live(id),
        final(world).spec_entity(id).name == name,
        final(world).spec_entity(id).transform matches Some(t) && t.position == position
            && t.rotation == rotation && t.scale == (Vec3Bits { x: 0, y: 0, z: 0 }),
        final(world).spec_entity(id).camera == Some(
            Camera { fov: fov_y, near, far, is_active: true },
        ),
        final(world).spec_entity(id).mesh_handle is None,
        final(world).spec_entity(id).material is None,
        final(world).num_live() == old(world).num_live() + 1,
{
    let mut e = Entity::new(name);
    e.add_transform(Transform { position, rotation, scale: Vec3Bits::zero() });
    e.add_camera(Camera { fov: fov_y, near, far, is_active: true });
    world.insert_entity(e)
}

/// Activates the camera of `id` and deactivates every other camera in
/// the world, so that at most one camera is active afterwards.
pub fn set_active_camera(world: &mut World, id: EntityId)
    requires
        old(world).wf(),
    ensures
        final(world).wf(),
        camera_activation_step(*old(world), *final(world), id),
        final(world).num_live() == old(world).num_live(),
{
    world.set_active_camera(id);
}

} // verus!
