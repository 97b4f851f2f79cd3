//! Script components, script-path interning, and the runtime's
//! bookkeeping of sandbox-facing entity handles and execution contexts.
//!
//! The actual sandboxed execution engine lives in the embedding
//! application; this module owns everything that can be decided from
//! plain data: which (entity, script) pairs exist, which have a live
//! execution context, and which small handle stands for which entity
//! across the sandbox boundary.

use vstd::prelude::*;

use crate::components::{
    spec_axis_of, spec_axis_set, spec_field_of, spec_field_set, Axis, TransformField,
};
use crate::entity::entity_with_transform;
use crate::world::{entity_update_step, EntityId, World};

verus! {

/// Identifier of an interned script source path.
pub type ScriptId = u32;

/// A script attached to an entity: its source path, whether its
/// initialization entry point has run, and per-instance numeric scratch
/// data (values are single-precision bit patterns).
pub struct Script {
    pub script_path: String,
    pub is_initialized: bool,
    pub script_data: Vec<(String, u32)>,
}

impl Script {
    /// A fresh, uninitialized script record for `script_path`.
    pub fn new(script_path: String) -> (s: Script)
        ensures
            s.script_path == script_path,
            !s.is_initialized,
            s.script_data@ == Seq::<(String, u32)>::empty(),
    {
        Script { script_path, is_initialized: false, script_data: Vec::new() }
    }

    /// The scratch value stored under `name`: the first entry carrying
    /// that key, or `None` when no entry does.
    pub fn get_data(&self, name: &str) -> (r: Option<u32>)
        ensures
            match r {
                Some(v) => exists|j: int|
                    0 <= j < self.script_data@.len() && (#[trigger] self.script_data@[j]).0@
                        == name@ && self.script_data@[j].1 == v && (forall|k: int|
                        0 <= k < j ==> (#[trigger] self.script_data@[k]).0@ != name@),
                None => forall|j: int|
                    0 <= j < self.script_data@.len() ==> (#[trigger] self.script_data@[j]).0@
                        != name@,
            },
    {
        let owned: String = name.to_owned();
        let n = self.script_data.len();
        let mut j: usize = 0;
        while j < n
            invariant
                n == self.script_data@.len(),
                0 <= j <= n,
                owned@ == name@,
                forall|k: int| 0 <= k < j ==> (#[trigger] self.script_data@[k]).0@ != name@,
            decreases n - j,
        {
            if self.script_data[j].0 == owned {
                return Some(self.script_data[j].1);
            }
            j += 1;
        }
        None
    }

    /// Stores `value` under `name`: overwrites the first entry carrying
    /// that key, or appends a new entry when no entry does.
    pub fn set_data(&mut self, name: &str, value: u32)
        ensures
            final(self).script_path == old(self).script_path,
            final(self).is_initialized == old(self).is_initialized,
            (forall|j: int|
                0 <= j < old(self).script_data@.len() ==> (#[trigger] old(self).script_data@[j]).0@
                    != name@) ==> final(self).script_data@.len() == old(self).script_data@.len()
                + 1 && final(self).script_data@.drop_last() == old(self).script_data@ && final(self).script_data@.last().0@ == name@ && final(self).script_data@.last().1 == value,
            (exists|j: int|
                0 <= j < old(self).script_data@.len() && (#[trigger] old(self).script_data@[j]).0@
                    == name@) ==> exists|j: int|
                {
                    &&& 0 <= j < old(self).script_data@.len()
                    &&& (#[trigger] old(self).script_data@[j]).0@ == name@
                    &&& (forall|k: int|
                        0 <= k < j ==> (#[trigger] old(self).script_data@[k]).0@ != name@)
                    &&& final(self).script_data@ == old(self).script_data@.update(
                        j,
                        (old(self).script_data@[j].0, value),
                    )
                },
    {
        let owned: String = name.to_owned();
        let n = self.script_data.len();
        let mut j: usize = 0;
        while j < n
            invariant
                *self == *old(self),
                n == self.script_data@.len(),
                0 <= j <= n,
                owned@ == name@,
                forall|k: int| 0 <= k < j ==> (#[trigger] self.script_data@[k]).0@ != name@,
            decreases n - j,
        {
            if self.script_data[j].0 == owned {
                let p = &mut self.script_data[j];
                p.1 = value;
                proof {
                    assert(self.script_data@[j as int].0 == old(self).script_data@[j as int].0);
                    assert(self.script_data@ == old(self).script_data@.update(
                        j as int,
                        (old(self).script_data@[j as int].0, value),
                    ));
                }
                return ;
            }
            j += 1;
        }
        self.script_data.push((owned, value));
    }
}

/// Interns script names to small integers, starting at 1 so that 0 can
/// serve as a null handle on the sandbox side.
pub struct ScriptTagRegistry {
    entries: Vec<(String, u32)>,
    next_id: u32,
}

impl ScriptTagRegistry {
    /// Well-formed: identifier at position `j` is `j + 1`, names are
    /// pairwise distinct, and `next_id` is one past the number of entries.
    pub closed spec fn wf(self) -> bool {
        &&& self.next_id as nat == self.entries@.len() + 1
        &&& forall|j: int|
            0 <= j < self.entries@.len() ==> (#[trigger] self.entries@[j]).1 == (j + 1) as u32
        &&& forall|j: int, k: int|
            0 <= j < k < self.entries@.len() ==> self.entries@[j].0@ != self.entries@[k].0@
    }

    /// Whether `name` has been interned.
    pub closed spec fn spec_contains(self, name: Seq<char>) -> bool {
        exists|j: int| 0 <= j < self.entries@.len() && (#[trigger] self.entries@[j]).0@ == name
    }

    /// The identifier interned for `name` (meaningful when `spec_contains(name)`).
    pub closed spec fn spec_id(self, name: Seq<char>) -> u32 {
        self.entries@[choose|j: int|
            0 <= j < self.entries@.len() && (#[trigger] self.entries@[j]).0@ == name].1
    }

    /// How many names have been interned.
    pub closed spec fn spec_len(self) -> nat {
        self.entries@.len()
    }

    /// The name interned at position `j` (its identifier is `j + 1`).
    pub closed spec fn spec_name_at(self, j: int) -> Seq<char> {
        self.entries@[j].0@
    }

    /// Whether one more name can be interned without exhausting the
    /// identifier space.
    pub open spec fn can_intern(self, name: Seq<char>) -> bool {
        self.spec_contains(name) || self.spec_len() + 1 < u32::MAX as nat
    }

    /// Under `wf`, the entry at position `j` is what `spec_contains` and
    /// `spec_id` report for its name.
    proof fn lemma_id_at(self, j: int)
        requires
            self.wf(),
            0 <= j < self.spec_len(),
        ensures
            self.spec_contains(self.entries@[j].0@),
            self.spec_id(self.entries@[j].0@) == self.entries@[j].1,
    {
        let name = self.entries@[j].0@;
        assert(self.spec_contains(name));
        let c = choose|k: int| 0 <= k < self.entries@.len() && (#[trigger] self.entries@[k]).0@
            == name;
        if c < j {
            assert(self.entries@[c].0@ != self.entries@[j].0@);
        } else if j < c {
            assert(self.entries@[j].0@ != self.entries@[c].0@);
        }
    }

    /// An empty registry; the first interned name gets identifier 1.
    pub fn new() -> (r: ScriptTagRegistry)
        ensures
            r.wf(),
            r.spec_len() == 0,
            forall|n: Seq<char>| !r.spec_contains(n),
    {
        ScriptTagRegistry { entries: Vec::new(), next_id: 1 }
    }

    /// Interns `name`: returns its existing identifier, or assigns the
    /// next free one (never 0).  Existing names keep their identifiers.
    pub fn get_or_create(&mut self, name: &str) -> (id: u32)
        requires
            old(self).wf(),
            old(self).can_intern(name@),
        ensures
            final(self).wf(),
            final(self).spec_contains(name@),
            final(self).spec_id(name@) == id,
            id != 0,
            old(self).spec_contains(name@) ==> *final(self) == *old(self) && id == old(self).spec_id(name@),
            !old(self).spec_contains(name@) ==> id as nat == old(self).spec_len() + 1 && final(self).spec_len() == old(self).spec_len() + 1,
            forall|n: Seq<char>|
                n != name@ ==> (#[trigger] final(self).spec_contains(n) <==> old(self).spec_contains(n)),
            forall|n: Seq<char>|
                n != name@ && old(self).spec_contains(n) ==> #[trigger] final(self).spec_id(n)
                    == old(self).spec_id(n),
            forall|j: int|
                0 <= j < old(self).spec_len() ==> #[trigger] final(self).spec_name_at(j) == old(self).spec_name_at(j),
            !old(self).spec_contains(name@) ==> final(self).spec_name_at(
                old(self).spec_len() as int,
            ) == name@,
    {
        let owned: String = name.to_owned();
        let n = self.entries.len();
        let mut j: usize = 0;
        while j < n
            invariant
                *self == *old(self),
                old(self).wf(),
                n == self.entries@.len(),
                0 <= j <= n,
                owned@ == name@,
                forall|k: int| 0 <= k < j ==> (#[trigger] self.entries@[k]).0@ != name@,
            decreases n - j,
        {
            if self.entries[j].0 == owned {
                proof {
                    self.lemma_id_at(j as int);
                }
                return self.entries[j].1;
            }
            j += 1;
        }
        let id = self.next_id;
        self.entries.push((owned, id));
        self.next_id = id + 1;
        proof {
            assert(self.entries@[n as int].0@ == name@);
            assert(self.wf());
            self.lemma_id_at(n as int);
            assert forall|m: Seq<char>| m != name@ implies (#[trigger] self.spec_contains(m)
                <==> old(self).spec_contains(m)) by {
                if self.spec_contains(m) {
                    let k = choose|k: int|
                        0 <= k < self.entries@.len() && (#[trigger] self.entries@[k]).0@ == m;
                    assert(k < n);
                    assert(old(self).entries@[k].0@ == m);
                }
                if old(self).spec_contains(m) {
                    let k = choose|k: int|
                        0 <= k < old(self).entries@.len() && (#[trigger] old(self).entries@[k]).0@ == m;
                    assert(self.entries@[k].0@ == m);
                }
            }
            assert forall|m: Seq<char>|
                m != name@ && old(self).spec_contains(m) implies #[trigger] self.spec_id(m) == old(self).spec_id(m) by {
                let k = choose|k: int|
                    0 <= k < old(self).entries@.len() && (#[trigger] old(self).entries@[k]).0@
                        == m;
                assert(self.entries@[k].0@ == m);
                self.lemma_id_at(k);
                old(self).lemma_id_at(k);
            }
        }
        id
    }
}

/// Interns script source paths and remembers each identifier's path, so
/// that an identifier can be resolved back to the path it stands for.
pub struct ScriptRegistry {
    tags: ScriptTagRegistry,
    paths: Vec<(u32, String)>,
}

impl ScriptRegistry {
    /// Well-formed: the reverse table lists exactly the interned names,
    /// each under the identifier the interner gave it.
    pub closed spec fn wf(self) -> bool {
        &&& self.tags.wf()
        &&& self.paths@.len() == self.tags.spec_len()
        &&& forall|j: int|
            0 <= j < self.paths@.len() ==> (#[trigger] self.paths@[j]).0 == (j + 1) as u32
                && self.paths@[j].1@ == self.tags.spec_name_at(j)
    }

    /// Whether `path` has been interned.
    pub closed spec fn spec_contains(self, path: Seq<char>) -> bool {
        self.tags.spec_contains(path)
    }

    /// The identifier interned for `path`.
    pub closed spec fn spec_id(self, path: Seq<char>) -> u32 {
        self.tags.spec_id(path)
    }

    /// How many paths have been interned.
    pub closed spec fn spec_len(self) -> nat {
        self.tags.spec_len()
    }

    /// Whether one more path can be interned.
    pub closed spec fn can_intern(self, path: Seq<char>) -> bool {
        self.tags.can_intern(path)
    }

    /// What `can_intern` comes down to, in terms of this registry's own
    /// public spec functions: the path is already interned, or there is
    /// identifier headroom for one more.
    pub proof fn lemma_can_intern(self, path: Seq<char>)
        ensures
            self.can_intern(path) <==> (self.spec_contains(path) || self.spec_len() + 1
                < u32::MAX as nat),
    {
    }

    /// An empty registry.
    pub fn new() -> (r: ScriptRegistry)
        ensures
            r.wf(),
            r.spec_len() == 0,
            forall|n: Seq<char>| !r.spec_contains(n),
    {
        ScriptRegistry { tags: ScriptTagRegistry::new(), paths: Vec::new() }
    }

    /// Interns `path` and records the reverse mapping; stable for paths
    /// already interned.
    pub fn get_or_create(&mut self, path: &str) -> (id: ScriptId)
        requires
            old(self).wf(),
            old(self).can_intern(path@),
        ensures
            final(self).wf(),
            final(self).spec_contains(path@),
            final(self).spec_id(path@) == id,
            id != 0,
            old(self).spec_contains(path@) ==> *final(self) == *old(self) && id == old(self).spec_id(path@),
            !old(self).spec_contains(path@) ==> id as nat == old(self).spec_len() + 1 && final(self).spec_len() == old(self).spec_len() + 1,
            forall|n: Seq<char>|
                n != path@ ==> (#[trigger] final(self).spec_contains(n) <==> old(self).spec_contains(n)),
            forall|n: Seq<char>|
                n != path@ && old(self).spec_contains(n) ==> #[trigger] final(self).spec_id(n)
                    == old(self).spec_id(n),
    {
        let before = self.paths.len();
        let id = self.tags.get_or_create(path);
        if before < self.tags.entries.len() {
            let owned: String = path.to_owned();
            self.paths.push((id, owned));
            proof {
                self.tags.lemma_id_at(before as int);
            }
        }
        id
    }

    /// How many paths have been interned.
    pub fn count(&self) -> (r: usize)
        requires
            self.wf(),
        ensures
            r == self.spec_len(),
    {
        self.paths.len()
    }

    /// The path interned under `id`, if any.
    pub fn resolve(&self, id: ScriptId) -> (r: Option<&String>)
        requires
            self.wf(),
        ensures
            match r {
                Some(p) => self.spec_contains(p@) && self.spec_id(p@) == id,
                None => forall|n: Seq<char>|
                    #[trigger] self.spec_contains(n) ==> self.spec_id(n) != id,
            },
    {
        if id >= 1 {
            let j = (id - 1) as usize;
            if j < self.paths.len() {
                proof {
                    self.tags.lemma_id_at(j as int);
                }
                return Some(&self.paths[j].1);
            }
        }
        proof {
            assert forall|n: Seq<char>| #[trigger] self.spec_contains(n) implies self.spec_id(n)
                != id by {
                let k = choose|k: int|
                    0 <= k < self.tags.entries@.len() && (#[trigger] self.tags.entries@[k]).0@
                        == n;
                self.tags.lemma_id_at(k);
            }
        }
        None
    }
}

/// Identifies one running execution context: an entity paired with an
/// interned script identifier.
#[derive(Clone, Copy, PartialEq, Eq, Structural, Hash, Debug)]
pub struct ScriptInstanceId {
    pub entity_id: EntityId,
    pub script_id: ScriptId,
}

impl ScriptInstanceId {
    pub fn new(entity_id: EntityId, script_id: ScriptId) -> (r: ScriptInstanceId)
        ensures
            r == (ScriptInstanceId { entity_id, script_id }),
    {
        ScriptInstanceId { entity_id, script_id }
    }
}

/// The per-context data carried across the sandbox boundary: which
/// entity the context is bound to, and the small handle standing for it.
#[derive(Clone, Copy, PartialEq, Eq, Structural, Debug)]
pub struct ScriptContext {
    pub current_entity_id: Option<EntityId>,
    pub entity_handle: Option<u32>,
}


/// What a host-side read of one transform component returns for a
/// context: the addressed bit pattern when the context is bound to a
/// live entity that has a transform, and the bit pattern of `0.0` (a
/// neutral default) on any lookup miss.
pub open spec fn spec_host_component(w: World, ctx: ScriptContext, f: TransformField, a: Axis) -> u32 {
    match ctx.current_entity_id {
        Some(id) => if w.is_live(id) && w.spec_entity(id).transform is Some {
            spec_axis_of(spec_field_of(w.spec_entity(id).transform.unwrap(), f), a)
        } else {
            0
        },
        None => 0,
    }
}

/// Host read of one position component for the entity a context is
/// bound to; a stale or unbound context reads `0.0`.
pub fn get_position_component(world: &World, ctx: &ScriptContext, a: Axis) -> (r: u32)
    ensures
        r == spec_host_component(*world, *ctx, TransformField::Position, a),
{
    get_entity_component(world, ctx, TransformField::Position, a)
}

/// Host read of one rotation component; see [`get_position_component`].
pub fn get_rotation_component(world: &World, ctx: &ScriptContext, a: Axis) -> (r: u32)
    ensures
        r == spec_host_component(*world, *ctx, TransformField::Rotation, a),
{
    get_entity_component(world, ctx, TransformField::Rotation, a)
}

/// Host read of one scale component; see [`get_position_component`].
pub fn get_scale_component(world: &World, ctx: &ScriptContext, a: Axis) -> (r: u32)
    ensures
        r == spec_host_component(*world, *ctx, TransformField::Scale, a),
{
    get_entity_component(world, ctx, TransformField::Scale, a)
}

/// Host read of one transform component for the entity a context is
/// bound to.
pub fn get_entity_component(world: &World, ctx: &ScriptContext, f: TransformField, a: Axis) -> (r:
    u32)
    ensures
        r == spec_host_component(*world, *ctx, f, a),
{
    match &ctx.current_entity_id {
        Some(id) => world.get_transform_field(*id, f, a),
        None => 0,
    }
}

/// Host write of one position component; see [`set_entity_component`].
pub fn set_position_component(world: &mut World, ctx: &ScriptContext, a: Axis, val: u32) -> (r:
    bool)
    requires
        old(world).wf(),
    ensures
        final(world).wf(),
        set_component_spec(*old(world), *final(world), *ctx, TransformField::Position, a, val, r),
{
    set_entity_component(world, ctx, TransformField::Position, a, val)
}

/// Host write of one rotation component; see [`set_entity_component`].
pub fn set_rotation_component(world: &mut World, ctx: &ScriptContext, a: Axis, val: u32) -> (r:
    bool)
    requires
        old(world).wf(),
    ensures
        final(world).wf(),
        set_component_spec(*old(world), *final(world), *ctx, TransformField::Rotation, a, val, r),
{
    set_entity_component(world, ctx, TransformField::Rotation, a, val)
}

/// Host write of one scale component; see [`set_entity_component`].
pub fn set_scale_component(world: &mut World, ctx: &ScriptContext, a: Axis, val: u32) -> (r: bool)
    requires
        old(world).wf(),
    ensures
        final(world).wf(),
        set_component_spec(*old(world), *final(world), *ctx, TransformField::Scale, a, val, r),
{
    set_entity_component(world, ctx, TransformField::Scale, a, val)
}

/// What a host-side write does: when the context is bound to a live
/// entity with a transform, the bound entity becomes exactly its old
/// record with the one addressed component replaced by `val` — every
/// other axis, vector and field of it, and every other entity, is
/// untouched; on any lookup miss the world is untouched.
pub open spec fn set_component_spec(
    pre: World,
    post: World,
    ctx: ScriptContext,
    f: TransformField,
    a: Axis,
    val: u32,
    applied: bool,
) -> bool {
    match ctx.current_entity_id {
        Some(id) => {
            &&& applied == (pre.is_live(id) && pre.spec_entity(id).transform is Some)
            &&& applied ==> entity_update_step(pre, post, id) && post.spec_entity(id)
                == entity_with_transform(
                pre.spec_entity(id),
                spec_field_set(
                    pre.spec_entity(id).transform.unwrap(),
                    f,
                    spec_axis_set(
                        spec_field_of(pre.spec_entity(id).transform.unwrap(), f),
                        a,
                        val,
                    ),
                ),
            ) && spec_host_component(post, ctx, f, a) == val
            &&& !applied ==> post == pre
        },
        None => !applied && post == pre,
    }
}

/// Host write of one transform component for the entity a context is
/// bound to.  A stale or unbound context writes nothing.
pub fn set_entity_component(
    world: &mut World,
    ctx: &ScriptContext,
    f: TransformField,
    a: Axis,
    val: u32,
) -> (r: bool)
    requires
        old(world).wf(),
    ensures
        final(world).wf(),
        set_component_spec(*old(world), *final(world), *ctx, f, a, val, r),
{
    match &ctx.current_entity_id {
        Some(id) => world.set_transform_field(*id, f, a, val),
        None => false,
    }
}

/// Bookkeeping of the sandbox boundary: which entity is known under
/// which small handle, and which (entity, script) pairs have a live
/// execution context.  The execution contexts themselves are owned by
/// the embedding application; this table is the single source of truth
/// for handle identity.
pub struct ScriptRuntime {
    instances: Vec<ScriptInstanceId>,
    handles: Vec<(EntityId, u32)>,
    next_entity_handle: u32,
}

impl ScriptRuntime {
    /// Well-formed: handles start at 1 and stay below the allocation
    /// cursor, and both columns of the table are duplicate-free, so the
    /// mapping is a bijection between the entities and handles listed.
    pub closed spec fn wf(self) -> bool {
        &&& self.next_entity_handle >= 1
        &&& forall|j: int|
            0 <= j < self.handles@.len() ==> 1 <= (#[trigger] self.handles@[j]).1
                < self.next_entity_handle
        &&& forall|j: int, k: int|
            0 <= j < k < self.handles@.len() ==> self.handles@[j].0 != self.handles@[k].0
                && self.handles@[j].1 != self.handles@[k].1
        &&& forall|j: int, k: int|
            0 <= j < k < self.instances@.len() ==> self.instances@[j] != self.instances@[k]
    }

    /// Whether `id` already has a sandbox-facing handle.
    pub closed spec fn spec_has_handle(self, id: EntityId) -> bool {
        exists|j: int| 0 <= j < self.handles@.len() && (#[trigger] self.handles@[j]).0 == id
    }

    /// The handle standing for `id` (meaningful when `spec_has_handle(id)`).
    pub closed spec fn spec_handle_of(self, id: EntityId) -> u32 {
        self.handles@[choose|j: int|
            0 <= j < self.handles@.len() && (#[trigger] self.handles@[j]).0 == id].1
    }

    /// Whether `instance` has a registered execution context.
    pub closed spec fn spec_has_instance(self, instance: ScriptInstanceId) -> bool {
        self.instances@.contains(instance)
    }

    /// The allocation cursor: the next handle that would be given out.
    pub closed spec fn spec_next_handle(self) -> u32 {
        self.next_entity_handle
    }

    /// Whether a handle can still be allocated for `id`.
    pub open spec fn can_map(self, id: EntityId) -> bool {
        self.spec_has_handle(id) || self.spec_next_handle() < u32::MAX
    }

    /// Under `wf`, the row at position `j` is what `spec_has_handle` and
    /// `spec_handle_of` report for its entity.
    proof fn lemma_handle_at(self, j: int)
        requires
            self.wf(),
            0 <= j < self.handles@.len(),
        ensures
            self.spec_has_handle(self.handles@[j].0),
            self.spec_handle_of(self.handles@[j].0) == self.handles@[j].1,
    {
        let id = self.handles@[j].0;
        assert(self.spec_has_handle(id));
        let c = choose|k: int| 0 <= k < self.handles@.len() && (#[trigger] self.handles@[k]).0
            == id;
        if c < j {
            assert(self.handles@[c].0 != self.handles@[j].0);
        } else if j < c {
            assert(self.handles@[j].0 != self.handles@[c].0);
        }
    }

    /// An empty runtime; the first handle allocated is 1, so that 0 can
    /// serve as a null handle on the sandbox side.
    pub fn new() -> (r: ScriptRuntime)
        ensures
            r.wf(),
            forall|id: EntityId| !(#[trigger] r.spec_has_handle(id)),
            forall|i: ScriptInstanceId| !(#[trigger] r.spec_has_instance(i)),
    {
        let r = ScriptRuntime { instances: Vec::new(), handles: Vec::new(), next_entity_handle: 1 };
        proof {
            assert forall|i: ScriptInstanceId| !(#[trigger] r.spec_has_instance(i)) by {
                if r.spec_has_instance(i) {
                    let j = choose|j: int| 0 <= j < r.instances@.len() && r.instances@[j] == i;
                    assert(false);
                }
            }
        }
        r
    }

    /// Returns the handle already standing for `entity_id`, or allocates
    /// the next one.  Handles are stable: an entity keeps its handle for
    /// the life of the table, and a handle is never reused for a
    /// different entity.
    pub fn get_or_create_entity_handle(&mut self, entity_id: EntityId) -> (h: u32)
        requires
            old(self).wf(),
            old(self).can_map(entity_id),
        ensures
            final(self).wf(),
            h >= 1,
            final(self).spec_has_handle(entity_id),
            final(self).spec_handle_of(entity_id) == h,
            old(self).spec_has_handle(entity_id) ==> *final(self) == *old(self) && h == old(self).spec_handle_of(entity_id),
            forall|x: EntityId|
                x != entity_id ==> (#[trigger] final(self).spec_has_handle(x) <==> old(self).spec_has_handle(x)),
            forall|x: EntityId|
                x != entity_id && old(self).spec_has_handle(x) ==> #[trigger] final(self).spec_handle_of(x) == old(self).spec_handle_of(x),
            forall|i: ScriptInstanceId|
                (#[trigger] final(self).spec_has_instance(i)) <==> old(self).spec_has_instance(i),
    {
        let n = self.handles.len();
        let mut j: usize = 0;
        while j < n
            invariant
                *self == *old(self),
                old(self).wf(),
                n == self.handles@.len(),
                0 <= j <= n,
                forall|k: int| 0 <= k < j ==> (#[trigger] self.handles@[k]).0 != entity_id,
            decreases n - j,
        {
            if self.handles[j].0 == entity_id {
                proof {
                    self.lemma_handle_at(j as int);
                }
                return self.handles[j].1;
            }
            j += 1;
        }
        let h = self.next_entity_handle;
        self.handles.push((entity_id, h));
        self.next_entity_handle = h + 1;
        proof {
            assert(self.handles@[n as int].0 == entity_id);
            assert(self.wf());
            self.lemma_handle_at(n as int);
            assert forall|x: EntityId|
                x != entity_id implies (#[trigger] self.spec_has_handle(x) <==> old(self).spec_has_handle(x)) by {
                if self.spec_has_handle(x) {
                    let k = choose|k: int|
                        0 <= k < self.handles@.len() && (#[trigger] self.handles@[k]).0 == x;
                    assert(k < n);
                    assert(old(self).handles@[k].0 == x);
                }
                if old(self).spec_has_handle(x) {
                    let k = choose|k: int|
                        0 <= k < old(self).handles@.len() && (#[trigger] old(self).handles@[k]).0
                            == x;
                    assert(self.handles@[k].0 == x);
                }
            }
            assert forall|x: EntityId|
                x != entity_id && old(self).spec_has_handle(x) implies #[trigger] self.spec_handle_of(
                x,
            ) == old(self).spec_handle_of(x) by {
                let k = choose|k: int|
                    0 <= k < old(self).handles@.len() && (#[trigger] old(self).handles@[k]).0 == x;
                assert(self.handles@[k].0 == x);
                self.lemma_handle_at(k);
                old(self).lemma_handle_at(k);
            }
        }
        h
    }

    /// Whether another handle can still be allocated.
    pub fn can_allocate_handle(&self) -> (r: bool)
        ensures
            r == (self.spec_next_handle() < u32::MAX),
    {
        self.next_entity_handle < u32::MAX
    }

    /// The entity a handle stands for, if the handle was ever given out.
    pub fn get_entity_id_from_handle(&self, handle: u32) -> (r: Option<EntityId>)
        requires
            self.wf(),
        ensures
            match r {
                Some(id) => self.spec_has_handle(id) && self.spec_handle_of(id) == handle,
                None => forall|x: EntityId|
                    #[trigger] self.spec_has_handle(x) ==> self.spec_handle_of(x) != handle,
            },
    {
        let n = self.handles.len();
        let mut j: usize = 0;
        while j < n
            invariant
                self.wf(),
                n == self.handles@.len(),
                0 <= j <= n,
                forall|k: int| 0 <= k < j ==> (#[trigger] self.handles@[k]).1 != handle,
            decreases n - j,
        {
            if self.handles[j].1 == handle {
                proof {
                    self.lemma_handle_at(j as int);
                }
                return Some(self.handles[j].0);
            }
            j += 1;
        }
        proof {
            assert forall|x: EntityId| #[trigger] self.spec_has_handle(x) implies self.spec_handle_of(
                x,
            ) != handle by {
                let k = choose|k: int|
                    0 <= k < self.handles@.len() && (#[trigger] self.handles@[k]).0 == x;
                self.lemma_handle_at(k);
            }
        }
        None
    }

    /// Two runtimes with the same handle table agree on every handle
    /// question.
    proof fn lemma_same_handles(a: ScriptRuntime, b: ScriptRuntime)
        requires
            a.handles@ == b.handles@,
        ensures
            forall|x: EntityId|
                ((#[trigger] a.spec_has_handle(x)) <==> b.spec_has_handle(x)) && (
                b.spec_has_handle(x) ==> a.spec_handle_of(x) == b.spec_handle_of(x)),
    {
        assert forall|x: EntityId|
            ((#[trigger] a.spec_has_handle(x)) <==> b.spec_has_handle(x)) && (b.spec_has_handle(x)
                ==> a.spec_handle_of(x) == b.spec_handle_of(x)) by {
            if a.spec_has_handle(x) {
                let k = choose|k: int| 0 <= k < a.handles@.len() && (#[trigger] a.handles@[k]).0
                    == x;
                assert(b.handles@[k].0 == x);
            }
            if b.spec_has_handle(x) {
                let k = choose|k: int| 0 <= k < b.handles@.len() && (#[trigger] b.handles@[k]).0
                    == x;
                assert(a.handles@[k].0 == x);
            }
        }
    }

    /// Records that `instance` has a live execution context; recording
    /// an instance twice keeps the table duplicate-free.
    pub fn register_instance(&mut self, instance: ScriptInstanceId)
        requires
            old(self).wf(),
        ensures
            final(self).wf(),
            final(self).spec_has_instance(instance),
            forall|i: ScriptInstanceId|
                i != instance ==> (#[trigger] final(self).spec_has_instance(i) <==> old(self).spec_has_instance(i)),
            forall|x: EntityId|
                (#[trigger] final(self).spec_has_handle(x) <==> old(self).spec_has_handle(x)) && (
                old(self).spec_has_handle(x) ==> final(self).spec_handle_of(x) == old(self).spec_handle_of(x)),
    {
        if !self.has_instance(instance) {
            self.instances.push(instance);
            proof {
                assert(self.instances@[self.instances@.len() - 1] == instance);
                assert forall|i: ScriptInstanceId|
                    i != instance implies (#[trigger] self.spec_has_instance(i) <==> old(self).spec_has_instance(i)) by {
                    if self.spec_has_instance(i) {
                        let k = choose|k: int|
                            0 <= k < self.instances@.len() && self.instances@[k] == i;
                        assert(k < old(self).instances@.len());
                        assert(old(self).instances@[k] == i);
                    }
                    if old(self).spec_has_instance(i) {
                        let k = choose|k: int|
                            0 <= k < old(self).instances@.len() && old(self).instances@[k] == i;
                        assert(self.instances@[k] == i);
                    }
                }
                assert forall|j: int, k: int|
                    0 <= j < k < self.instances@.len() implies self.instances@[j]
                        != self.instances@[k] by {
                    if k < self.instances@.len() - 1 {
                        assert(self.instances@[j] == old(self).instances@[j]);
                        assert(self.instances@[k] == old(self).instances@[k]);
                    } else {
                        assert(self.instances@[k] == instance);
                        assert(self.instances@[j] == old(self).instances@[j]);
                        assert(!old(self).spec_has_instance(instance));
                        assert(old(self).instances@.contains(old(self).instances@[j]));
                    }
                }
            }
        }
        proof {
            ScriptRuntime::lemma_same_handles(*self, *old(self));
        }
    }

    /// Whether `instance` has a registered execution context.
    pub fn has_instance(&self, instance: ScriptInstanceId) -> (r: bool)
        ensures
            r == self.spec_has_instance(instance),
    {
        let n = self.instances.len();
        let mut j: usize = 0;
        while j < n
            invariant
                n == self.instances@.len(),
                0 <= j <= n,
                forall|k: int| 0 <= k < j ==> (#[trigger] self.instances@[k]) != instance,
            decreases n - j,
        {
            if self.instances[j] == instance {
                proof {
                    assert(self.instances@.contains(instance));
                }
                return true;
            }
            j += 1;
        }
        proof {
            if self.spec_has_instance(instance) {
                let k = choose|k: int| 0 <= k < self.instances@.len() && self.instances@[k]
                    == instance;
                assert(false);
            }
        }
        false
    }
}

} // verus!
