//! The entity store: a slot-based container with generational
//! identifiers, component queries, and the camera-activation invariant.

use vstd::prelude::*;

use crate::components::{
    spec_axis_of, spec_axis_set, spec_field_of, spec_field_set, Axis, Material, MeshHandle,
    Transform, TransformField,
};
use crate::entity::{
    entity_with_camera, entity_with_scripts, entity_with_tags, entity_with_transform,
    spec_tags_contain, spec_tags_without, Camera, Entity,
};
use crate::scripts::Script;

verus! {

/// A generational handle to an entity slot.  An identifier resolves only
/// while the slot still carries the generation it was issued with; after
/// removal the slot's generation is bumped, so the identifier goes stale
/// and can never name another entity.
#[derive(Clone, Copy, PartialEq, Eq, Structural, Hash, Debug)]
pub struct EntityId {
    index: usize,
    generation: u64,
}

impl EntityId {
    /// The slot index this identifier names.
    pub closed spec fn spec_index(self) -> int {
        self.index as int
    }

    /// The generation this identifier was issued with.
    pub closed spec fn spec_generation(self) -> int {
        self.generation as int
    }
}

struct Slot {
    generation: u64,
    entity: Option<Entity>,
}

/// `sl` with an active-flag write applied to its camera, if it has one.
spec fn slot_activated(sl: Slot, on: bool) -> Slot {
    match sl.entity {
        Some(e) => Slot { generation: sl.generation, entity: Some(entity_with_camera_active(e, on)) },
        None => sl,
    }
}

/// `e` with its camera's active flag set to `on`; entities without a
/// camera are unchanged.
pub open spec fn entity_with_camera_active(e: Entity, on: bool) -> Entity {
    match e.camera {
        Some(c) => entity_with_camera(e, Camera { fov: c.fov, near: c.near, far: c.far, is_active: on }),
        None => e,
    }
}

/// Owns all entities.  Entities are created, looked up, mutated and
/// removed through generational [`EntityId`]s; queries deliver snapshots
/// in slot order.
pub struct World {
    slots: Vec<Slot>,
}

spec fn occupied_count(s: Seq<Slot>) -> nat
    decreases s.len(),
{
    if s.len() == 0 {
        0
    } else {
        occupied_count(s.drop_last()) + if s.last().entity is Some {
            1nat
        } else {
            0nat
        }
    }
}

spec fn live_ids_upto(s: Seq<Slot>, n: int) -> Seq<EntityId>
    decreases n,
{
    if n <= 0 {
        Seq::empty()
    } else {
        let rest = live_ids_upto(s, n - 1);
        if s[n - 1].entity is Some {
            rest.push(EntityId { index: (n - 1) as usize, generation: s[n - 1].generation })
        } else {
            rest
        }
    }
}

spec fn tagged_ids_upto(s: Seq<Slot>, t: Seq<char>, n: int) -> Seq<EntityId>
    decreases n,
{
    if n <= 0 {
        Seq::empty()
    } else {
        let rest = tagged_ids_upto(s, t, n - 1);
        if s[n - 1].entity matches Some(e) && spec_tags_contain(e.tags@, t) {
            rest.push(EntityId { index: (n - 1) as usize, generation: s[n - 1].generation })
        } else {
            rest
        }
    }
}

/// Whether an entity has all three components a renderer needs.
pub open spec fn spec_is_renderable(e: Entity) -> bool {
    e.transform is Some && e.mesh_handle is Some && e.material is Some
}

spec fn renderables_upto(s: Seq<Slot>, n: int) -> Seq<(EntityId, u32, Transform, Material)>
    decreases n,
{
    if n <= 0 {
        Seq::empty()
    } else {
        let rest = renderables_upto(s, n - 1);
        match s[n - 1].entity {
            Some(e) => if spec_is_renderable(e) {
                rest.push(
                    (
                        EntityId { index: (n - 1) as usize, generation: s[n - 1].generation },
                        e.mesh_handle.unwrap().0,
                        e.transform.unwrap(),
                        e.material.unwrap(),
                    ),
                )
            } else {
                rest
            },
            None => rest,
        }
    }
}

spec fn first_active_from(s: Seq<Slot>, j: int) -> Option<EntityId>
    decreases s.len() - j,
{
    if j < 0 || j >= s.len() {
        None
    } else if s[j].entity matches Some(e) && e.camera matches Some(c) && c.is_active
        && e.transform is Some {
        Some(EntityId { index: j as usize, generation: s[j].generation })
    } else {
        first_active_from(s, j + 1)
    }
}

impl World {
    /// How many slots the store has ever allocated.
    pub closed spec fn slot_count(self) -> nat {
        self.slots@.len()
    }

    /// Whether `id` currently resolves to an entity.
    pub closed spec fn is_live(self, id: EntityId) -> bool {
        &&& id.index < self.slots@.len()
        &&& self.slots@[id.index as int].generation == id.generation
        &&& self.slots@[id.index as int].entity is Some
    }

    /// The entity `id` resolves to (meaningful when `is_live(id)`).
    pub closed spec fn spec_entity(self, id: EntityId) -> Entity {
        self.slots@[id.index as int].entity.unwrap()
    }

    /// Whether `id` was ever returned by an entity-creating operation on
    /// this store: its slot exists and has either moved past the
    /// identifier's generation or currently carries it occupied.
    pub closed spec fn was_issued(self, id: EntityId) -> bool {
        &&& id.index < self.slots@.len()
        &&& (id.generation < self.slots@[id.index as int].generation || (id.generation
            == self.slots@[id.index as int].generation && self.slots@[id.index as int].entity
            is Some))
    }

    /// Well-formed: every occupied slot can still bump its generation on
    /// removal.
    pub closed spec fn wf(self) -> bool {
        forall|j: int|
            0 <= j < self.slots@.len() && (#[trigger] self.slots@[j]).entity is Some
                ==> self.slots@[j].generation < u64::MAX
    }

    /// How many entities are live.
    pub closed spec fn num_live(self) -> nat {
        occupied_count(self.slots@)
    }

    /// The live identifiers, in slot order.
    pub closed spec fn spec_live_ids(self) -> Seq<EntityId> {
        live_ids_upto(self.slots@, self.slots@.len() as int)
    }

    /// The live identifiers whose entity carries the tag `t`, in slot
    /// order.
    pub closed spec fn spec_tagged_ids(self, t: Seq<char>) -> Seq<EntityId> {
        tagged_ids_upto(self.slots@, t, self.slots@.len() as int)
    }

    /// The renderable snapshot with identifiers, in slot order.
    pub closed spec fn spec_renderables(self) -> Seq<(EntityId, u32, Transform, Material)> {
        renderables_upto(self.slots@, self.slots@.len() as int)
    }

    /// The first live entity with an active camera and a transform.
    pub closed spec fn spec_active_camera(self) -> Option<EntityId> {
        first_active_from(self.slots@, 0)
    }

    /// Whether `id` is live with an active camera.
    pub open spec fn spec_camera_active(self, id: EntityId) -> bool {
        &&& self.is_live(id)
        &&& self.spec_entity(id).camera matches Some(c) && c.is_active
    }
}

/// One entity came into being: `id` was never issued before, it is now
/// live, and every other identifier keeps its standing and its data.
pub open spec fn creation_step(pre: World, post: World, id: EntityId) -> bool {
    &&& !pre.was_issued(id)
    &&& post.is_live(id)
    &&& forall|x: EntityId| x != id ==> ((#[trigger] post.is_live(x)) <==> pre.is_live(x))
    &&& forall|x: EntityId|
        x != id && pre.is_live(x) ==> (#[trigger] post.spec_entity(x)) == pre.spec_entity(x)
    &&& forall|x: EntityId| (#[trigger] pre.was_issued(x)) ==> post.was_issued(x)
    &&& forall|x: EntityId| (#[trigger] post.was_issued(x)) ==> pre.was_issued(x) || x == id
}

/// One live entity's record changed in place: liveness and issuance of
/// every identifier are untouched, and every other entity is unchanged.
pub open spec fn entity_update_step(pre: World, post: World, id: EntityId) -> bool {
    &&& pre.is_live(id)
    &&& post.is_live(id)
    &&& forall|x: EntityId| (#[trigger] post.is_live(x)) <==> pre.is_live(x)
    &&& forall|x: EntityId| (#[trigger] post.was_issued(x)) <==> pre.was_issued(x)
    &&& forall|x: EntityId|
        x != id && pre.is_live(x) ==> (#[trigger] post.spec_entity(x)) == pre.spec_entity(x)
}

/// One entity went away: `id` no longer resolves, no identifier's
/// issuance changed, and every other identifier keeps its standing and
/// its data.
pub open spec fn removal_step(pre: World, post: World, id: EntityId) -> bool {
    &&& pre.is_live(id)
    &&& !post.is_live(id)
    &&& forall|x: EntityId| x != id ==> ((#[trigger] post.is_live(x)) <==> pre.is_live(x))
    &&& forall|x: EntityId|
        x != id && pre.is_live(x) ==> (#[trigger] post.spec_entity(x)) == pre.spec_entity(x)
    &&& forall|x: EntityId| (#[trigger] post.was_issued(x)) <==> pre.was_issued(x)
}

/// A camera activation ran against `target`: liveness and issuance are
/// untouched, and every live entity's camera active flag now says
/// whether it is the target.
pub open spec fn camera_activation_step(pre: World, post: World, target: EntityId) -> bool {
    &&& forall|x: EntityId| (#[trigger] post.is_live(x)) <==> pre.is_live(x)
    &&& forall|x: EntityId| (#[trigger] post.was_issued(x)) <==> pre.was_issued(x)
    &&& forall|x: EntityId|
        pre.is_live(x) ==> (#[trigger] post.spec_entity(x)) == entity_with_camera_active(
            pre.spec_entity(x),
            x == target,
        )
}

proof fn lemma_occupied_count_update(s: Seq<Slot>, j: int, sl: Slot)
    requires
        0 <= j < s.len(),
    ensures
        occupied_count(s.update(j, sl)) + (if s[j].entity is Some {
            1nat
        } else {
            0nat
        }) == occupied_count(s) + (if sl.entity is Some {
            1nat
        } else {
            0nat
        }),
    decreases s.len(),
{
    let s2 = s.update(j, sl);
    if j == s.len() - 1 {
        assert(s2.drop_last() == s.drop_last());
        assert(s2.last() == sl);
    } else {
        assert(s2.drop_last() == s.drop_last().update(j, sl));
        assert(s2.last() == s.last());
        lemma_occupied_count_update(s.drop_last(), j, sl);
    }
}

proof fn lemma_occupied_count_push(s: Seq<Slot>, sl: Slot)
    ensures
        occupied_count(s.push(sl)) == occupied_count(s) + (if sl.entity is Some {
            1nat
        } else {
            0nat
        }),
{
    assert(s.push(sl).drop_last() == s);
    assert(s.push(sl).last() == sl);
}

impl World {
    /// Frame lemma: when only slot `id.index` changed, keeping its
    /// generation and occupancy, the store took an `entity_update_step`.
    proof fn lemma_entity_update_step(pre: World, post: World, id: EntityId)
        requires
            pre.wf(),
            pre.is_live(id),
            post.slots@.len() == pre.slots@.len(),
            post.slots@ == pre.slots@.update(id.index as int, post.slots@[id.index as int]),
            post.slots@[id.index as int].generation == id.generation,
            post.slots@[id.index as int].entity is Some,
        ensures
            post.wf(),
            entity_update_step(pre, post, id),
            post.num_live() == pre.num_live(),
    {
        assert forall|x: EntityId| (#[trigger] post.is_live(x)) <==> pre.is_live(x) by {
            if x.index != id.index && x.index < pre.slots@.len() {
                assert(post.slots@[x.index as int] == pre.slots@[x.index as int]);
            }
        }
        assert forall|x: EntityId| (#[trigger] post.was_issued(x)) <==> pre.was_issued(x) by {
            if x.index != id.index && x.index < pre.slots@.len() {
                assert(post.slots@[x.index as int] == pre.slots@[x.index as int]);
            }
        }
        assert forall|x: EntityId|
            x != id && pre.is_live(x) implies (#[trigger] post.spec_entity(x))
            == pre.spec_entity(x) by {
            if x.index != id.index {
                assert(post.slots@[x.index as int] == pre.slots@[x.index as int]);
            } else {
                assert(x.generation == pre.slots@[id.index as int].generation);
            }
        }
        assert forall|j: int|
            0 <= j < post.slots@.len() && (#[trigger] post.slots@[j]).entity
                is Some implies post.slots@[j].generation < u64::MAX by {
            if j != id.index as int {
                assert(post.slots@[j] == pre.slots@[j]);
            } else {
                assert(pre.slots@[j].entity is Some);
            }
        }
        lemma_occupied_count_update(
            pre.slots@,
            id.index as int,
            post.slots@[id.index as int],
        );
    }

    /// An empty store.
    pub fn new() -> (w: World)
        ensures
            w.wf(),
            w.slot_count() == 0,
            w.num_live() == 0,
            forall|id: EntityId| !(#[trigger] w.is_live(id)),
            forall|id: EntityId| !(#[trigger] w.was_issued(id)),
            w.spec_live_ids() == Seq::<EntityId>::empty(),
    {
        World { slots: Vec::new() }
    }

    /// Places `e` in a fresh or recycled slot and returns a
    /// never-before-issued identifier for it.
    pub fn insert_entity(&mut self, e: Entity) -> (id: EntityId)
        requires
            old(self).wf(),
        ensures
            final(self).wf(),
            creation_step(*old(self), *final(self), id),
            final(self).is_live(id),
            !old(self).was_issued(id),
            final(self).spec_entity(id) == e,
            final(self).num_live() == old(self).num_live() + 1,
    {
        let n = self.slots.len();
        let mut j: usize = 0;
        while j < n
            invariant
                *self == *old(self),
                old(self).wf(),
                n == self.slots@.len(),
                0 <= j <= n,
                forall|k: int|
                    0 <= k < j ==> !((#[trigger] self.slots@[k]).entity is None && self.slots@[k].generation
                        < u64::MAX),
            decreases n - j,
        {
            let vacant = self.slots[j].entity.is_none();
            if vacant && self.slots[j].generation < u64::MAX {
                let g = self.slots[j].generation;
                let slot = &mut self.slots[j];
                slot.entity = Some(e);
                let id = EntityId { index: j, generation: g };
                proof {
                    let pre = *old(self);
                    let post = *self;
                    assert(post.slots@ == pre.slots@.update(j as int, post.slots@[j as int]));
                    assert(!pre.was_issued(id));
                    assert(post.is_live(id));
                    assert forall|x: EntityId|
                        x != id implies ((#[trigger] post.is_live(x)) <==> pre.is_live(x)) by {
                        if x.index != id.index && x.index < pre.slots@.len() {
                            assert(post.slots@[x.index as int] == pre.slots@[x.index as int]);
                        }
                    }
                    assert forall|x: EntityId|
                        x != id && pre.is_live(x) implies (#[trigger] post.spec_entity(x))
                        == pre.spec_entity(x) by {
                        assert(x.index != id.index);
                    }
                    assert forall|x: EntityId| (#[trigger] pre.was_issued(x)) implies post.was_issued(
                        x,
                    ) by {
                        if x.index != id.index && x.index < pre.slots@.len() {
                            assert(post.slots@[x.index as int] == pre.slots@[x.index as int]);
                        }
                    }
                    assert forall|x: EntityId| (#[trigger] post.was_issued(x)) implies pre.was_issued(
                        x,
                    ) || x == id by {
                        if x.index != id.index && x.index < pre.slots@.len() {
                            assert(post.slots@[x.index as int] == pre.slots@[x.index as int]);
                        }
                    }
                    lemma_occupied_count_update(pre.slots@, j as int, post.slots@[j as int]);
                    assert forall|k: int|
                        0 <= k < post.slots@.len() && (#[trigger] post.slots@[k]).entity
                            is Some implies post.slots@[k].generation < u64::MAX by {
                        if k != j as int {
                            assert(post.slots@[k] == pre.slots@[k]);
                        }
                    }
                }
                return id;
            }
            j += 1;
        }
        self.slots.push(Slot { generation: 0, entity: Some(e) });
        let id = EntityId { index: n, generation: 0 };
        proof {
            let pre = *old(self);
            let post = *self;
            assert(post.slots@ == pre.slots@.push(post.slots@[n as int]));
            assert(!pre.was_issued(id));
            assert(post.is_live(id));
            assert forall|x: EntityId|
                x != id implies ((#[trigger] post.is_live(x)) <==> pre.is_live(x)) by {
                if x.index < n {
                    assert(post.slots@[x.index as int] == pre.slots@[x.index as int]);
                }
            }
            assert forall|x: EntityId|
                x != id && pre.is_live(x) implies (#[trigger] post.spec_entity(x))
                == pre.spec_entity(x) by {
                assert(x.index != n);
            }
            assert forall|x: EntityId| (#[trigger] pre.was_issued(x)) implies post.was_issued(x) by {
                assert(x.index < n);
                assert(post.slots@[x.index as int] == pre.slots@[x.index as int]);
            }
            assert forall|x: EntityId| (#[trigger] post.was_issued(x)) implies pre.was_issued(x) || x
                == id by {
                if x.index < n {
                    assert(post.slots@[x.index as int] == pre.slots@[x.index as int]);
                }
            }
            lemma_occupied_count_push(pre.slots@, post.slots@[n as int]);
            assert forall|k: int|
                0 <= k < post.slots@.len() && (#[trigger] post.slots@[k]).entity
                    is Some implies post.slots@[k].generation < u64::MAX by {
                if k < n {
                    assert(post.slots@[k] == pre.slots@[k]);
                }
            }
        }
        id
    }

    /// Creates a fresh entity with the given name and no components.
    pub fn create_entity(&mut self, name: String) -> (id: EntityId)
        requires
            old(self).wf(),
        ensures
            final(self).wf(),
            creation_step(*old(self), *final(self), id),
            final(self).is_live(id),
            !old(self).was_issued(id),
            final(self).spec_entity(id).name == name,
            final(self).spec_entity(id).transform is None,
            final(self).spec_entity(id).mesh_handle is None,
            final(self).spec_entity(id).material is None,
            final(self).spec_entity(id).camera is None,
            final(self).spec_entity(id).scripts is None,
            final(self).spec_entity(id).children is None,
            final(self).spec_entity(id).parent is None,
            final(self).spec_entity(id).tags@ == Seq::<String>::empty(),
            final(self).num_live() == old(self).num_live() + 1,
    {
        let e = Entity::new(name);
        self.insert_entity(e)
    }

    /// Resolves `id`, returning its entity while it is live and `None`
    /// once it has been removed or never existed.
    pub fn get_entity(&self, id: EntityId) -> (r: Option<&Entity>)
        ensures
            match r {
                Some(e) => self.is_live(id) && *e == self.spec_entity(id),
                None => !self.is_live(id),
            },
    {
        if id.index < self.slots.len() {
            if self.slots[id.index].generation == id.generation {
                match &self.slots[id.index].entity {
                    Some(e) => {
                        return Some(e);
                    },
                    None => {
                        return None;
                    },
                }
            }
        }
        None
    }

    /// Removes the entity `id` resolves to, returning it.  The slot's
    /// generation is bumped, so `id` never resolves again.  Parent and
    /// child links other entities hold toward the removed one are left in
    /// place; they go stale and no longer resolve.
    pub fn remove_entity(&mut self, id: EntityId) -> (r: Option<Entity>)
        requires
            old(self).wf(),
        ensures
            final(self).wf(),
            match r {
                Some(e) => {
                    &&& removal_step(*old(self), *final(self), id)
                    &&& e == old(self).spec_entity(id)
                    &&& final(self).num_live() + 1 == old(self).num_live()
                },
                None => !old(self).is_live(id) && *final(self) == *old(self),
            },
    {
        if id.index < self.slots.len() {
            if self.slots[id.index].generation == id.generation && self.slots[id.index].entity.is_some() {
                let g = id.generation;
                let slot = &mut self.slots[id.index];
                let taken = slot.entity.take();
                slot.generation = g + 1;
                proof {
                    let pre = *old(self);
                    let post = *self;
                    assert(post.slots@ == pre.slots@.update(
                        id.index as int,
                        post.slots@[id.index as int],
                    ));
                    assert(!post.is_live(id));
                    assert forall|x: EntityId|
                        x != id implies ((#[trigger] post.is_live(x)) <==> pre.is_live(x)) by {
                        if x.index != id.index && x.index < pre.slots@.len() {
                            assert(post.slots@[x.index as int] == pre.slots@[x.index as int]);
                        }
                    }
                    assert forall|x: EntityId|
                        x != id && pre.is_live(x) implies (#[trigger] post.spec_entity(x))
                        == pre.spec_entity(x) by {
                        assert(x.index != id.index);
                        assert(post.slots@[x.index as int] == pre.slots@[x.index as int]);
                    }
                    assert forall|x: EntityId| (#[trigger] post.was_issued(x)) <==> pre.was_issued(
                        x,
                    ) by {
                        if x.index != id.index && x.index < pre.slots@.len() {
                            assert(post.slots@[x.index as int] == pre.slots@[x.index as int]);
                        }
                    }
                    assert forall|k: int|
                        0 <= k < post.slots@.len() && (#[trigger] post.slots@[k]).entity
                            is Some implies post.slots@[k].generation < u64::MAX by {
                        if k != id.index as int {
                            assert(post.slots@[k] == pre.slots@[k]);
                        }
                    }
                    lemma_occupied_count_update(
                        pre.slots@,
                        id.index as int,
                        post.slots@[id.index as int],
                    );
                }
                return taken;
            }
        }
        None
    }

    /// How many entities are live.
    pub fn entity_count(&self) -> (r: usize)
        ensures
            r == self.num_live(),
    {
        let n = self.slots.len();
        let mut count: usize = 0;
        let mut j: usize = 0;
        while j < n
            invariant
                n == self.slots@.len(),
                0 <= j <= n,
                count == occupied_count(self.slots@.subrange(0, j as int)),
                count <= j,
            decreases n - j,
        {
            proof {
                assert(self.slots@.subrange(0, j + 1).drop_last() == self.slots@.subrange(
                    0,
                    j as int,
                ));
                assert(self.slots@.subrange(0, j + 1).last() == self.slots@[j as int]);
            }
            if self.slots[j].entity.is_some() {
                count += 1;
            }
            j += 1;
        }
        proof {
            assert(self.slots@.subrange(0, n as int) == self.slots@);
        }
        count
    }

    /// A snapshot of the live identifiers, in slot order.
    pub fn iter_entities(&self) -> (r: Vec<EntityId>)
        ensures
            r@ == self.spec_live_ids(),
    {
        let n = self.slots.len();
        let mut out: Vec<EntityId> = Vec::new();
        let mut j: usize = 0;
        while j < n
            invariant
                n == self.slots@.len(),
                0 <= j <= n,
                out@ == live_ids_upto(self.slots@, j as int),
            decreases n - j,
        {
            if self.slots[j].entity.is_some() {
                out.push(EntityId { index: j, generation: self.slots[j].generation });
            }
            j += 1;
        }
        out
    }

    /// The identifiers of the live entities carrying the tag named
    /// `tag`, in slot order.  The query walks the whole store; no
    /// interned-tag index is cached alongside it, so there is no index
    /// that could go stale — at the cost of a scan per query.
    pub fn get_entities_with_tag(&self, tag: &str) -> (r: Vec<EntityId>)
        ensures
            r@ == self.spec_tagged_ids(tag@),
    {
        let n = self.slots.len();
        let mut out: Vec<EntityId> = Vec::new();
        let mut j: usize = 0;
        while j < n
            invariant
                n == self.slots@.len(),
                0 <= j <= n,
                out@ == tagged_ids_upto(self.slots@, tag@, j as int),
            decreases n - j,
        {
            let mut push_it = false;
            match &self.slots[j].entity {
                Some(e) => {
                    if e.has_tag(tag) {
                        push_it = true;
                    }
                },
                None => {},
            }
            if push_it {
                out.push(EntityId { index: j, generation: self.slots[j].generation });
            }
            j += 1;
        }
        out
    }

    /// The renderable snapshot: one `(mesh, transform, material)` triple
    /// for each live entity that has all three, in slot order.  Entities
    /// missing any of the three contribute nothing.
    pub fn get_renderable_entities(&self) -> (r: Vec<(u32, Transform, Material)>)
        ensures
            r@.len() == self.spec_renderables().len(),
            forall|k: int|
                0 <= k < r@.len() ==> (#[trigger] r@[k]) == (
                self.spec_renderables()[k].1,
                self.spec_renderables()[k].2,
                self.spec_renderables()[k].3,
                ),
    {
        let with_ids = self.get_renderable_entities_with_ids();
        let n = with_ids.len();
        let mut out: Vec<(u32, Transform, Material)> = Vec::new();
        let mut j: usize = 0;
        while j < n
            invariant
                n == with_ids@.len(),
                with_ids@ == self.spec_renderables(),
                0 <= j <= n,
                out@.len() == j,
                forall|k: int|
                    0 <= k < j ==> (#[trigger] out@[k]) == (
                    with_ids@[k].1,
                    with_ids@[k].2,
                    with_ids@[k].3,
                    ),
            decreases n - j,
        {
            let (_, h, t, m) = with_ids[j];
            out.push((h, t, m));
            j += 1;
        }
        out
    }

    /// The renderable snapshot with each entity's identifier.
    pub fn get_renderable_entities_with_ids(&self) -> (r: Vec<(EntityId, u32, Transform, Material)>)
        ensures
            r@ == self.spec_renderables(),
    {
        let n = self.slots.len();
        let mut out: Vec<(EntityId, u32, Transform, Material)> = Vec::new();
        let mut j: usize = 0;
        while j < n
            invariant
                n == self.slots@.len(),
                0 <= j <= n,
                out@ == renderables_upto(self.slots@, j as int),
            decreases n - j,
        {
            match &self.slots[j].entity {
                Some(e) => {
                    match (&e.mesh_handle, &e.transform, &e.material) {
                        (Some(mh), Some(t), Some(m)) => {
                            let id = EntityId { index: j, generation: self.slots[j].generation };
                            out.push((id, mh.0, *t, *m));
                        },
                        _ => {},
                    }
                },
                None => {},
            }
            j += 1;
        }
        out
    }

    /// The first live entity with an active camera and a transform, in
    /// slot order; `None` when no entity qualifies.
    pub fn active_camera_entity(&self) -> (r: Option<EntityId>)
        ensures
            r == self.spec_active_camera(),
            r matches Some(id) ==> self.is_live(id) && (self.spec_entity(id).camera matches Some(c)
                && c.is_active) && self.spec_entity(id).transform is Some,
    {
        let n = self.slots.len();
        let mut j: usize = 0;
        while j < n
            invariant
                n == self.slots@.len(),
                0 <= j <= n,
                self.spec_active_camera() == first_active_from(self.slots@, j as int),
            decreases n - j,
        {
            let mut found = false;
            match &self.slots[j].entity {
                Some(e) => {
                    match &e.camera {
                        Some(c) => {
                            if c.is_active && e.transform.is_some() {
                                found = true;
                            }
                        },
                        None => {},
                    }
                },
                None => {},
            }
            if found {
                return Some(EntityId { index: j, generation: self.slots[j].generation });
            }
            j += 1;
        }
        None
    }

    /// Activates the camera of `target` and deactivates every other
    /// camera, restoring the at-most-one-active-camera invariant
    /// whatever state the cameras were in.
    pub fn set_active_camera(&mut self, target: EntityId)
        requires
            old(self).wf(),
        ensures
            final(self).wf(),
            camera_activation_step(*old(self), *final(self), target),
            final(self).num_live() == old(self).num_live(),
    {
        let n = self.slots.len();
        let mut j: usize = 0;
        while j < n
            invariant
                old(self).wf(),
                n == self.slots@.len(),
                n == old(self).slots@.len(),
                0 <= j <= n,
                forall|k: int|
                    j <= k < n ==> (#[trigger] self.slots@[k]) == old(self).slots@[k],
                forall|k: int|
                    0 <= k < j ==> (#[trigger] self.slots@[k]) == slot_activated(
                        old(self).slots@[k],
                        k == target.index as int && old(self).slots@[k].generation
                            == target.generation,
                    ),
            decreases n - j,
        {
            let g = self.slots[j].generation;
            let on = j == target.index && g == target.generation;
            let slot = &mut self.slots[j];
            match &mut slot.entity {
                Some(e) => {
                    match &mut e.camera {
                        Some(c) => {
                            c.is_active = on;
                        },
                        None => {},
                    }
                },
                None => {},
            }
            j += 1;
        }
        proof {
            let pre = *old(self);
            let post = *self;
            assert forall|x: EntityId| (#[trigger] post.is_live(x)) <==> pre.is_live(x) by {
                if x.index < n {
                    assert(post.slots@[x.index as int] == slot_activated(
                        pre.slots@[x.index as int],
                        x.index as int == target.index as int && pre.slots@[x.index as int].generation
                            == target.generation,
                    ));
                }
            }
            assert forall|x: EntityId| (#[trigger] post.was_issued(x)) <==> pre.was_issued(x) by {
                if x.index < n {
                    assert(post.slots@[x.index as int] == slot_activated(
                        pre.slots@[x.index as int],
                        x.index as int == target.index as int && pre.slots@[x.index as int].generation
                            == target.generation,
                    ));
                }
            }
            assert forall|x: EntityId|
                pre.is_live(x) implies (#[trigger] post.spec_entity(x)) == entity_with_camera_active(
                pre.spec_entity(x),
                x == target,
            ) by {
                assert(post.slots@[x.index as int] == slot_activated(
                    pre.slots@[x.index as int],
                    x.index as int == target.index as int && pre.slots@[x.index as int].generation
                        == target.generation,
                ));
            }
            assert forall|k: int|
                0 <= k < post.slots@.len() && (#[trigger] post.slots@[k]).entity
                    is Some implies post.slots@[k].generation < u64::MAX by {
                assert(post.slots@[k] == slot_activated(
                    pre.slots@[k],
                    k == target.index as int && pre.slots@[k].generation == target.generation,
                ));
            }
            lemma_occupied_count_activated(pre.slots@, post.slots@, target);
        }
    }

    /// Writes one component of one vector of the transform of `id`,
    /// when `id` is live and has a transform; otherwise leaves the
    /// store unchanged.  Returns whether the write happened.
    pub fn set_transform_field(&mut self, id: EntityId, f: TransformField, a: Axis, val: u32) -> (r:
        bool)
        requires
            old(self).wf(),
        ensures
            final(self).wf(),
            r == (old(self).is_live(id) && old(self).spec_entity(id).transform is Some),
            r ==> entity_update_step(*old(self), *final(self), id) && final(self).spec_entity(id)
                == entity_with_transform(
                old(self).spec_entity(id),
                spec_field_set(
                    old(self).spec_entity(id).transform.unwrap(),
                    f,
                    spec_axis_set(
                        spec_field_of(old(self).spec_entity(id).transform.unwrap(), f),
                        a,
                        val,
                    ),
                ),
            ),
            !r ==> *final(self) == *old(self),
            final(self).num_live() == old(self).num_live(),
    {
        if id.index < self.slots.len() {
            let can = self.slots[id.index].generation == id.generation && match &self.slots[id.index].entity {
                Some(e) => e.transform.is_some(),
                None => false,
            };
            if can {
                let slot = &mut self.slots[id.index];
                match &mut slot.entity {
                    Some(e) => {
                        match &mut e.transform {
                            Some(t) => {
                                let v = match f {
                                    TransformField::Position => &mut t.position,
                                    TransformField::Rotation => &mut t.rotation,
                                    TransformField::Scale => &mut t.scale,
                                };
                                match a {
                                    Axis::X => {
                                        v.x = val;
                                    },
                                    Axis::Y => {
                                        v.y = val;
                                    },
                                    Axis::Z => {
                                        v.z = val;
                                    },
                                }
                                proof {
                                    World::lemma_entity_update_step(*old(self), *self, id);
                                }
                                return true;
                            },
                            None => {
                                proof {
                                    assert(false);
                                }
                                return false;
                            },
                        }
                    },
                    None => {
                        proof {
                            assert(false);
                        }
                        return false;
                    },
                }
            }
        }
        false
    }

    /// Reads one component of one vector of the transform of `id`,
    /// returning the bit pattern of `0.0` when `id` does not resolve or
    /// has no transform.
    pub fn get_transform_field(&self, id: EntityId, f: TransformField, a: Axis) -> (r: u32)
        ensures
            r == (if self.is_live(id) && self.spec_entity(id).transform is Some {
                spec_axis_of(spec_field_of(self.spec_entity(id).transform.unwrap(), f), a)
            } else {
                0
            }),
    {
        match self.get_entity(id) {
            Some(e) => {
                match &e.transform {
                    Some(t) => {
                        let v = match f {
                            TransformField::Position => &t.position,
                            TransformField::Rotation => &t.rotation,
                            TransformField::Scale => &t.scale,
                        };
                        match a {
                            Axis::X => v.x,
                            Axis::Y => v.y,
                            Axis::Z => v.z,
                        }
                    },
                    None => 0,
                }
            },
            None => 0,
        }
    }

    /// Marks script `index` of entity `id` initialized.  Returns whether
    /// the mark was applied; the world is unchanged otherwise.
    pub fn set_script_initialized(&mut self, id: EntityId, index: usize) -> (r: bool)
        requires
            old(self).wf(),
        ensures
            final(self).wf(),
            r == (old(self).is_live(id) && (old(self).spec_entity(id).scripts matches Some(v)
                && index < v@.len())),
            r ==> entity_update_step(*old(self), *final(self), id) && final(self).spec_entity(id)
                == entity_with_scripts(old(self).spec_entity(id), final(self).spec_entity(id).scripts)
                && (final(self).spec_entity(id).scripts matches Some(v) && v@ == old(self).spec_entity(id).scripts.unwrap()@.update(
                index as int,
                spec_script_initialized(old(self).spec_entity(id).scripts.unwrap()@[index as int]),
            )),
            !r ==> *final(self) == *old(self),
            final(self).num_live() == old(self).num_live(),
    {
        if id.index < self.slots.len() {
            let can = self.slots[id.index].generation == id.generation && match &self.slots[id.index].entity {
                Some(e) => match &e.scripts {
                    Some(v) => index < v.len(),
                    None => false,
                },
                None => false,
            };
            if can {
                let slot = &mut self.slots[id.index];
                match &mut slot.entity {
                    Some(e) => {
                        match &mut e.scripts {
                            Some(v) => {
                                let s = &mut v[index];
                                s.is_initialized = true;
                                proof {
                                    World::lemma_entity_update_step(*old(self), *self, id);
                                }
                                return true;
                            },
                            None => {
                                proof {
                                    assert(false);
                                }
                                return false;
                            },
                        }
                    },
                    None => {
                        proof {
                            assert(false);
                        }
                        return false;
                    },
                }
            }
        }
        false
    }

    /// Appends the tag named `tag` to the tag list of `id`, when live.
    /// Returns whether the tag was added.
    pub fn add_tag_to_entity(&mut self, id: EntityId, tag: &str) -> (r: bool)
        requires
            old(self).wf(),
        ensures
            final(self).wf(),
            r == old(self).is_live(id),
            r ==> entity_update_step(*old(self), *final(self), id) && final(self).spec_entity(id)
                == entity_with_tags(old(self).spec_entity(id), final(self).spec_entity(id).tags)
                && final(self).spec_entity(id).tags@.len() == old(self).spec_entity(id).tags@.len()
                + 1 && final(self).spec_entity(id).tags@.drop_last() == old(self).spec_entity(
                id,
            ).tags@ && final(self).spec_entity(id).tags@.last()@ == tag@,
            !r ==> *final(self) == *old(self),
            final(self).num_live() == old(self).num_live(),
    {
        if id.index < self.slots.len() {
            if self.slots[id.index].generation == id.generation && self.slots[id.index].entity.is_some() {
                let owned: String = tag.to_owned();
                let slot = &mut self.slots[id.index];
                match &mut slot.entity {
                    Some(e) => {
                        e.tags.push(owned);
                        proof {
                            assert(self.slots@[id.index as int].entity.unwrap().tags@.drop_last()
                                == old(self).slots@[id.index as int].entity.unwrap().tags@);
                            World::lemma_entity_update_step(*old(self), *self, id);
                        }
                        return true;
                    },
                    None => {
                        proof {
                            assert(false);
                        }
                        return false;
                    },
                }
            }
        }
        false
    }

    /// Removes every occurrence of the tag named `tag` from the tag list
    /// of `id`, when live; the order of the remaining tags is kept.
    pub fn remove_tag_from_entity(&mut self, id: EntityId, tag: &str)
        requires
            old(self).wf(),
        ensures
            final(self).wf(),
            old(self).is_live(id) ==> entity_update_step(*old(self), *final(self), id) && final(self).spec_entity(id) == entity_with_tags(
                old(self).spec_entity(id),
                final(self).spec_entity(id).tags,
            ) && final(self).spec_entity(id).tags@ == spec_tags_without(
                old(self).spec_entity(id).tags@,
                tag@,
            ),
            !old(self).is_live(id) ==> *final(self) == *old(self),
            final(self).num_live() == old(self).num_live(),
    {
        if id.index < self.slots.len() {
            if self.slots[id.index].generation == id.generation && self.slots[id.index].entity.is_some() {
                let slot = &mut self.slots[id.index];
                match &mut slot.entity {
                    Some(e) => {
                        e.remove_tag(tag);
                        proof {
                            World::lemma_entity_update_step(*old(self), *self, id);
                        }
                    },
                    None => {},
                }
            }
        }
    }
}

/// `s` with its initialized flag raised.
pub open spec fn spec_script_initialized(s: Script) -> Script {
    Script { script_path: s.script_path, is_initialized: true, script_data: s.script_data }
}

proof fn lemma_occupied_count_activated(pre: Seq<Slot>, post: Seq<Slot>, target: EntityId)
    requires
        post.len() == pre.len(),
        forall|k: int|
            0 <= k < pre.len() ==> (#[trigger] post[k]) == slot_activated(
                pre[k],
                k == target.spec_index() && pre[k].generation as int == target.spec_generation(),
            ),
    ensures
        occupied_count(post) == occupied_count(pre),
    decreases pre.len(),
{
    if pre.len() > 0 {
        assert(post.drop_last().len() == pre.drop_last().len());
        assert forall|k: int|
            0 <= k < pre.drop_last().len() implies (#[trigger] post.drop_last()[k])
            == slot_activated(
            pre.drop_last()[k],
            k == target.spec_index() && pre.drop_last()[k].generation as int
                == target.spec_generation(),
        ) by {
            assert(post.drop_last()[k] == post[k]);
            assert(pre.drop_last()[k] == pre[k]);
        }
        lemma_occupied_count_activated(pre.drop_last(), post.drop_last(), target);
        assert(post.last() == slot_activated(
            pre.last(),
            pre.len() - 1 == target.spec_index() && pre.last().generation as int
                == target.spec_generation(),
        ));
    }
}


/// Generational safety: once an identifier has been issued and its
/// entity removed, no later creation can make it resolve again — the
/// fresh identifier differs from every stale one, and the stale one
/// stays dead.  Together with the frame clauses of `removal_step`,
/// `entity_update_step` and `camera_activation_step`, which never make a
/// dead identifier live, a stale identifier therefore stays dead across
/// any sequence of store operations.
pub proof fn lemma_stale_id_stays_dead(pre: World, post: World, fresh: EntityId, stale: EntityId)
    requires
        pre.was_issued(stale),
        !pre.is_live(stale),
        creation_step(pre, post, fresh),
    ensures
        fresh != stale,
        !post.is_live(stale),
{
    assert(!pre.was_issued(fresh));
}

/// Any single store operation, seen through its step predicate: an
/// entity was created, one was removed, one was edited in place, a
/// camera activation ran, or nothing happened.
pub open spec fn world_step(pre: World, post: World) -> bool {
    ||| exists|id: EntityId| #[trigger] creation_step(pre, post, id)
    ||| exists|id: EntityId| #[trigger] removal_step(pre, post, id)
    ||| exists|id: EntityId| #[trigger] entity_update_step(pre, post, id)
    ||| exists|id: EntityId| #[trigger] camera_activation_step(pre, post, id)
    ||| post == pre
}

/// The induction step behind generational safety: an identifier that
/// has been issued and no longer resolves stays issued and dead across
/// every store operation.  Chained over any sequence of operations, a
/// removed identifier therefore never resolves again.
pub proof fn lemma_dead_id_stays_dead(pre: World, post: World, stale: EntityId)
    requires
        pre.was_issued(stale),
        !pre.is_live(stale),
        world_step(pre, post),
    ensures
        post.was_issued(stale),
        !post.is_live(stale),
{
    if exists|id: EntityId| #[trigger] creation_step(pre, post, id) {
        let id = choose|id: EntityId| #[trigger] creation_step(pre, post, id);
        assert(id != stale);
    } else if exists|id: EntityId| #[trigger] removal_step(pre, post, id) {
        let id = choose|id: EntityId| #[trigger] removal_step(pre, post, id);
        assert(id != stale);
    }
}

/// Exactly one active camera after activation: whatever the cameras'
/// flags were before, activating `b` and then `a` leaves `a` as the one
/// and only active camera (provided `a` still has a camera).
pub proof fn lemma_exactly_one_active_camera(
    w0: World,
    w1: World,
    w2: World,
    a: EntityId,
    b: EntityId,
)
    requires
        camera_activation_step(w0, w1, b),
        camera_activation_step(w1, w2, a),
        w2.is_live(a),
        w2.spec_entity(a).camera is Some,
    ensures
        forall|x: EntityId| #[trigger] w2.spec_camera_active(x) <==> x == a,
{
    assert forall|x: EntityId| #[trigger] w2.spec_camera_active(x) <==> x == a by {
        if w2.is_live(x) {
            assert(w1.is_live(x));
            assert(w2.spec_entity(x) == entity_with_camera_active(w1.spec_entity(x), x == a));
        }
        if x == a {
            assert(w1.is_live(a));
            assert(w2.spec_entity(a) == entity_with_camera_active(w1.spec_entity(a), true));
            assert(w1.spec_entity(a).camera is Some);
        }
    }
}

proof fn lemma_push_contains<A>(s: Seq<A>, x: A)
    ensures
        forall|y: A| #[trigger] s.push(x).contains(y) <==> (s.contains(y) || y == x),
{
    assert forall|y: A| #[trigger] s.push(x).contains(y) <==> (s.contains(y) || y == x) by {
        if s.push(x).contains(y) {
            let k = choose|k: int| 0 <= k < s.push(x).len() && s.push(x)[k] == y;
            if k < s.len() {
                assert(s[k] == y);
            }
        }
        if s.contains(y) {
            let k = choose|k: int| 0 <= k < s.len() && s[k] == y;
            assert(s.push(x)[k] == y);
        }
        if y == x {
            assert(s.push(x)[s.len() as int] == y);
        }
    }
}

proof fn lemma_live_ids_upto_count(s: Seq<Slot>, n: int)
    requires
        0 <= n <= s.len(),
    ensures
        live_ids_upto(s, n).len() == occupied_count(s.subrange(0, n)),
    decreases n,
{
    if n > 0 {
        lemma_live_ids_upto_count(s, n - 1);
        assert(s.subrange(0, n).drop_last() == s.subrange(0, n - 1));
        assert(s.subrange(0, n).last() == s[n - 1]);
    }
}

proof fn lemma_live_ids_upto_char(s: Seq<Slot>, n: int)
    requires
        0 <= n <= s.len(),
        s.len() <= usize::MAX,
    ensures
        forall|id: EntityId| #[trigger]
            live_ids_upto(s, n).contains(id) <==> (id.spec_index() < n && s[id.spec_index()].generation as int
                == id.spec_generation() && s[id.spec_index()].entity is Some),
        forall|k: int|
            0 <= k < live_ids_upto(s, n).len() ==> (#[trigger] live_ids_upto(s, n)[k]).spec_index()
                < n,
        live_ids_upto(s, n).no_duplicates(),
    decreases n,
{
    if n > 0 {
        lemma_live_ids_upto_char(s, n - 1);
        let rest = live_ids_upto(s, n - 1);
        let whole = live_ids_upto(s, n);
        if s[n - 1].entity is Some {
            let added = EntityId { index: (n - 1) as usize, generation: s[n - 1].generation };
            assert(whole == rest.push(added));
            lemma_push_contains(rest, added);
            assert forall|id: EntityId| #[trigger]
                whole.contains(id) <==> (id.spec_index() < n && s[id.spec_index()].generation as int
                    == id.spec_generation() && s[id.spec_index()].entity is Some) by {
                assert(whole.contains(id) <==> (rest.contains(id) || id == added));
                assert(added.spec_index() == n - 1);
            }
            assert forall|k: int|
                0 <= k < whole.len() implies (#[trigger] whole[k]).spec_index() < n by {
                if k < rest.len() {
                    assert(whole[k] == rest[k]);
                }
            }
            assert forall|i: int, j: int|
                0 <= i < j < whole.len() implies whole[i] != whole[j] by {
                if j < rest.len() {
                    assert(whole[i] == rest[i] && whole[j] == rest[j]);
                } else {
                    assert(whole[i] == rest[i] && rest[i].spec_index() < n - 1);
                    assert(whole[j] == added);
                }
            }
        } else {
            assert(whole == rest);
        }
    }
}

proof fn lemma_tagged_upto_char(s: Seq<Slot>, t: Seq<char>, n: int)
    requires
        0 <= n <= s.len(),
        s.len() <= usize::MAX,
    ensures
        forall|id: EntityId| #[trigger]
            tagged_ids_upto(s, t, n).contains(id) <==> (id.spec_index() < n
                && s[id.spec_index()].generation as int == id.spec_generation()
                && (s[id.spec_index()].entity matches Some(e) && spec_tags_contain(e.tags@, t))),
        forall|k: int|
            0 <= k < tagged_ids_upto(s, t, n).len() ==> (#[trigger] tagged_ids_upto(s, t, n)[k]).spec_index()
                < n,
        tagged_ids_upto(s, t, n).no_duplicates(),
    decreases n,
{
    if n > 0 {
        lemma_tagged_upto_char(s, t, n - 1);
        let rest = tagged_ids_upto(s, t, n - 1);
        let whole = tagged_ids_upto(s, t, n);
        if s[n - 1].entity is Some && spec_tags_contain(s[n - 1].entity.unwrap().tags@, t) {
            let added = EntityId { index: (n - 1) as usize, generation: s[n - 1].generation };
            assert(whole == rest.push(added));
            lemma_push_contains(rest, added);
            assert forall|id: EntityId| #[trigger]
                whole.contains(id) <==> (id.spec_index() < n && s[id.spec_index()].generation as int
                    == id.spec_generation() && (s[id.spec_index()].entity matches Some(e)
                    && spec_tags_contain(e.tags@, t))) by {
                assert(whole.contains(id) <==> (rest.contains(id) || id == added));
                assert(added.spec_index() == n - 1);
            }
            assert forall|k: int|
                0 <= k < whole.len() implies (#[trigger] whole[k]).spec_index() < n by {
                if k < rest.len() {
                    assert(whole[k] == rest[k]);
                }
            }
            assert forall|i: int, j: int|
                0 <= i < j < whole.len() implies whole[i] != whole[j] by {
                if j < rest.len() {
                    assert(whole[i] == rest[i] && whole[j] == rest[j]);
                } else {
                    assert(whole[i] == rest[i] && rest[i].spec_index() < n - 1);
                    assert(whole[j] == added);
                }
            }
        } else {
            assert(whole == rest);
        }
    }
}

proof fn lemma_renderables_upto_char(s: Seq<Slot>, n: int)
    requires
        0 <= n <= s.len(),
        s.len() <= usize::MAX,
    ensures
        forall|x: (EntityId, u32, Transform, Material)| #[trigger]
            renderables_upto(s, n).contains(x) <==> (x.0.spec_index() < n
                && s[x.0.spec_index()].generation as int == x.0.spec_generation()
                && (s[x.0.spec_index()].entity matches Some(e) && e.transform == Some(x.2)
                && e.mesh_handle == Some(MeshHandle(x.1)) && e.material == Some(x.3))),
        forall|k: int|
            0 <= k < renderables_upto(s, n).len() ==> (#[trigger] renderables_upto(s, n)[k]).0.spec_index()
                < n,
    decreases n,
{
    if n > 0 {
        lemma_renderables_upto_char(s, n - 1);
        let rest = renderables_upto(s, n - 1);
        let whole = renderables_upto(s, n);
        if s[n - 1].entity is Some && spec_is_renderable(s[n - 1].entity.unwrap()) {
            let e = s[n - 1].entity.unwrap();
            let added = (
                EntityId { index: (n - 1) as usize, generation: s[n - 1].generation },
                e.mesh_handle.unwrap().0,
                e.transform.unwrap(),
                e.material.unwrap(),
            );
            assert(whole == rest.push(added));
            lemma_push_contains(rest, added);
            assert forall|x: (EntityId, u32, Transform, Material)| #[trigger]
                whole.contains(x) <==> (x.0.spec_index() < n && s[x.0.spec_index()].generation as int
                    == x.0.spec_generation() && (s[x.0.spec_index()].entity matches Some(e2)
                    && e2.transform == Some(x.2) && e2.mesh_handle == Some(MeshHandle(x.1))
                    && e2.material == Some(x.3))) by {
                assert(whole.contains(x) <==> (rest.contains(x) || x == added));
                assert(added.0.spec_index() == n - 1);
                if x.0.spec_index() == n - 1 && s[x.0.spec_index()].generation as int
                    == x.0.spec_generation() && (s[x.0.spec_index()].entity matches Some(e2)
                    && e2.transform == Some(x.2) && e2.mesh_handle == Some(MeshHandle(x.1))
                    && e2.material == Some(x.3)) {
                    assert(x.1 == e.mesh_handle.unwrap().0);
                    assert(x == added);
                }
            }
            assert forall|k: int|
                0 <= k < whole.len() implies (#[trigger] whole[k]).0.spec_index() < n by {
                if k < rest.len() {
                    assert(whole[k] == rest[k]);
                }
            }
        } else {
            assert(whole == rest);
        }
    }
}

impl World {
    /// A live identifier is an issued one: it was returned by the
    /// creating operation that filled its slot.
    pub proof fn lemma_live_is_issued(self, id: EntityId)
        requires
            self.is_live(id),
        ensures
            self.was_issued(id),
    {
    }

    /// The two counting views agree: the live-identifier snapshot has
    /// exactly `num_live()` entries.
    pub proof fn lemma_live_ids_count(self)
        ensures
            self.spec_live_ids().len() == self.num_live(),
    {
        lemma_live_ids_upto_count(self.slots@, self.slots@.len() as int);
        assert(self.slots@.subrange(0, self.slots@.len() as int) == self.slots@);
    }

    /// The live-identifier snapshot holds exactly the live identifiers,
    /// each once.
    pub proof fn lemma_live_ids_exact(self)
        ensures
            forall|id: EntityId| #[trigger]
                self.spec_live_ids().contains(id) <==> self.is_live(id),
            self.spec_live_ids().no_duplicates(),
    {
        vstd::std_specs::vec::axiom_spec_len(&self.slots);
        lemma_live_ids_upto_char(self.slots@, self.slots@.len() as int);
    }

    /// A tag query holds exactly the live identifiers whose entity
    /// carries the tag, each once.  An entity that does not carry the
    /// tag — or that was removed — never appears.
    pub proof fn lemma_tag_query_exact(self, t: Seq<char>)
        ensures
            forall|id: EntityId| #[trigger]
                self.spec_tagged_ids(t).contains(id) <==> (self.is_live(id) && spec_tags_contain(
                    self.spec_entity(id).tags@,
                    t,
                )),
            self.spec_tagged_ids(t).no_duplicates(),
    {
        vstd::std_specs::vec::axiom_spec_len(&self.slots);
        lemma_tagged_upto_char(self.slots@, t, self.slots@.len() as int);
    }

    /// The renderable snapshot holds exactly one entry per live entity
    /// that has all three of transform, mesh and material, carrying
    /// exactly those component values; an entity missing any of the
    /// three contributes nothing, whatever else it has.
    pub proof fn lemma_renderables_exact(self)
        ensures
            forall|x: (EntityId, u32, Transform, Material)| #[trigger]
                self.spec_renderables().contains(x) <==> (self.is_live(x.0) && self.spec_entity(
                    x.0,
                ).transform == Some(x.2) && self.spec_entity(x.0).mesh_handle == Some(
                    MeshHandle(x.1),
                ) && self.spec_entity(x.0).material == Some(x.3)),
    {
        vstd::std_specs::vec::axiom_spec_len(&self.slots);
        lemma_renderables_upto_char(self.slots@, self.slots@.len() as int);
    }
}

} // verus!
