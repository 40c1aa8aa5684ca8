//! A minimal entity-component store: entities are generational handles,
//! component types are registered keys, and each live entity holds at most
//! one instance of each component type.

use vstd::prelude::*;

verus! {

/// Payload carried by one component instance.
#[derive(Clone, Copy, PartialEq, Eq, Structural, Debug)]
pub enum Payload {
    /// A bare marker with no data.
    Unit,
    /// An opaque machine word; callers pick its interpretation.
    Bits(u64),
}

/// Declared payload shape of a component type.
#[derive(Clone, Copy, PartialEq, Eq, Structural, Debug)]
pub enum PayloadShape {
    Unit,
    Bits,
}

/// Backing-layout hint for one component type: a pure performance knob.
#[derive(Clone, Copy, PartialEq, Eq, Structural, Debug)]
pub enum StorageLayout {
    Dense,
    Sparse,
}

/// Handle to one entity: a slot index plus a generation counter, so that a
/// handle kept across the entity's destruction never matches its successor.
#[derive(Clone, Copy, PartialEq, Eq, Structural, Debug, Hash)]
pub struct Entity {
    pub index: usize,
    pub generation: u64,
}

struct Slot {
    generation: u64,
    alive: bool,
    comps: Vec<Option<Payload>>,
}

/// The component store.  Component types are keyed by the `usize` returned
/// at registration; a slot's `comps` vector is indexed by that key and may
/// be shorter than the number of registered types (missing means absent).
pub struct Store {
    slots: Vec<Slot>,
    names: Vec<String>,
    shapes: Vec<PayloadShape>,
    layouts: Vec<StorageLayout>,
}

impl Store {
    /// How many component types have been registered.
    pub closed spec fn num_types(self) -> nat {
        self.shapes@.len()
    }

    /// Whether `k` is a registered component-type key.
    pub open spec fn valid_key(self, k: usize) -> bool {
        k < self.num_types()
    }

    /// Whether the handle `e` refers to a currently live entity.
    pub closed spec fn live(self, e: Entity) -> bool {
        &&& e.index < self.slots@.len()
        &&& self.slots@[e.index as int].alive
        &&& self.slots@[e.index as int].generation == e.generation
    }

    /// The component instance of type `k` held by `e`, if any.  A dead or
    /// stale handle holds nothing.
    pub closed spec fn comp(self, e: Entity, k: usize) -> Option<Payload> {
        if self.live(e) && k < self.slots@[e.index as int].comps@.len() {
            self.slots@[e.index as int].comps@[k as int]
        } else {
            None
        }
    }

    /// Whether `e` currently holds a component of type `k`.
    pub open spec fn has(self, e: Entity, k: usize) -> bool {
        self.comp(e, k) is Some
    }

    /// The declared payload shape of type `k`.
    pub closed spec fn shape_of(self, k: usize) -> PayloadShape {
        self.shapes@[k as int]
    }

    /// The name type `k` was registered under.
    pub closed spec fn name_of(self, k: usize) -> Seq<char> {
        self.names@[k as int]@
    }

    /// The current backing-layout hint of type `k`.
    pub closed spec fn layout_of(self, k: usize) -> StorageLayout {
        self.layouts@[k as int]
    }

    /// Internal consistency: one shape and one layout per type, and no slot
    /// holds an instance of an unregistered type.
    pub closed spec fn wf(self) -> bool {
        &&& self.layouts@.len() == self.shapes@.len()
        &&& self.names@.len() == self.shapes@.len()
        &&& forall|i: int| 0 <= i < self.slots@.len()
            ==> (#[trigger] self.slots@[i]).comps@.len() <= self.shapes@.len()
    }

    /// An empty store: no entities, no component types.
    pub fn new() -> (s: Store)
        ensures
            s.wf(),
            s.num_types() == 0,
            forall|e: Entity| !s.live(e),
            forall|e: Entity, k: usize| s.comp(e, k) == Option::<Payload>::None,
    {
        Store { slots: Vec::new(), names: Vec::new(), shapes: Vec::new(), layouts: Vec::new() }
    }

    /// Registers a new component type under `name` with the given payload
    /// shape and the default dense layout, returning its key.  Nothing
    /// already stored changes.
    pub fn create_component_type(&mut self, name: String, shape: PayloadShape) -> (k: usize)
        requires
            old(self).wf(),
        ensures
            final(self).wf(),
            k == old(self).num_types(),
            final(self).num_types() == old(self).num_types() + 1,
            final(self).name_of(k) == name@,
            final(self).shape_of(k) == shape,
            final(self).layout_of(k) == StorageLayout::Dense,
            forall|k2: usize| old(self).valid_key(k2)
                ==> final(self).shape_of(k2) == old(self).shape_of(k2)
                    && final(self).layout_of(k2) == old(self).layout_of(k2)
                    && final(self).name_of(k2) == old(self).name_of(k2),
            forall|e: Entity| final(self).live(e) == old(self).live(e),
            forall|e: Entity, k2: usize| final(self).comp(e, k2) == old(self).comp(e, k2),
    {
        let k = self.shapes.len();
        self.names.push(name);
        self.shapes.push(shape);
        self.layouts.push(StorageLayout::Dense);
        k
    }

    /// Selects the backing layout for type `k`.  Only the hint changes:
    /// liveness and every stored component are untouched, so the call is
    /// safe to repeat.
    pub fn register_layout(&mut self, k: usize, layout: StorageLayout)
        requires
            old(self).wf(),
            old(self).valid_key(k),
        ensures
            final(self).wf(),
            final(self).num_types() == old(self).num_types(),
            final(self).layout_of(k) == layout,
            forall|k2: usize| old(self).valid_key(k2)
                ==> final(self).shape_of(k2) == old(self).shape_of(k2)
                    && final(self).name_of(k2) == old(self).name_of(k2),
            forall|k2: usize| old(self).valid_key(k2) && k2 != k
                ==> final(self).layout_of(k2) == old(self).layout_of(k2),
            forall|e: Entity| final(self).live(e) == old(self).live(e),
            forall|e: Entity, k2: usize| final(self).comp(e, k2) == old(self).comp(e, k2),
    {
        let slot = &mut self.layouts[k];
        *slot = layout;
    }

    /// Creates a live entity holding no components.  A dead slot is reused
    /// with a bumped generation, so the new handle matches no handle that
    /// was ever live before; otherwise a fresh slot is appended.
    pub fn spawn(&mut self) -> (e: Entity)
        requires
            old(self).wf(),
        ensures
            final(self).wf(),
            final(self).live(e),
            !old(self).live(e),
            forall|k: usize| !final(self).has(e, k),
            forall|e2: Entity| e2 != e ==> final(self).live(e2) == old(self).live(e2),
            forall|e2: Entity, k: usize| e2 != e
                ==> final(self).comp(e2, k) == old(self).comp(e2, k),
            final(self).num_types() == old(self).num_types(),
            forall|k2: usize| old(self).valid_key(k2)
                ==> final(self).shape_of(k2) == old(self).shape_of(k2)
                    && final(self).layout_of(k2) == old(self).layout_of(k2)
                    && final(self).name_of(k2) == old(self).name_of(k2),
    {
        let mut i: usize = 0;
        while i < self.slots.len()
            invariant
                *self == *old(self),
                self.wf(),
                i <= self.slots@.len(),
            decreases self.slots@.len() - i,
        {
            if !self.slots[i].alive && self.slots[i].generation < u64::MAX {
                let g = self.slots[i].generation + 1;
                let slot = &mut self.slots[i];
                slot.generation = g;
                slot.alive = true;
                slot.comps = Vec::new();
                return Entity { index: i, generation: g };
            }
            i += 1;
        }
        let idx = self.slots.len();
        self.slots.push(Slot { generation: 0, alive: true, comps: Vec::new() });
        Entity { index: idx, generation: 0 }
    }

    /// Destroys `e`: the entity goes dead and the store drops all its
    /// components, as the destruction contract promises.  A dead or stale
    /// handle is ignored.  No other entity and no type registration changes.
    pub fn destroy(&mut self, e: Entity)
        requires
            old(self).wf(),
        ensures
            final(self).wf(),
            !final(self).live(e),
            forall|e2: Entity| e2 != e ==> final(self).live(e2) == old(self).live(e2),
            forall|e2: Entity, k: usize| e2 != e
                ==> final(self).comp(e2, k) == old(self).comp(e2, k),
            forall|k: usize| final(self).comp(e, k) == Option::<Payload>::None,
            final(self).num_types() == old(self).num_types(),
            forall|k2: usize| old(self).valid_key(k2)
                ==> final(self).shape_of(k2) == old(self).shape_of(k2)
                    && final(self).layout_of(k2) == old(self).layout_of(k2)
                    && final(self).name_of(k2) == old(self).name_of(k2),
    {
        if e.index < self.slots.len() {
            if self.slots[e.index].alive && self.slots[e.index].generation == e.generation {
                let slot = &mut self.slots[e.index];
                slot.alive = false;
                slot.comps = Vec::new();
            }
        }
    }

    /// Gives `e` a component of type `k` with the given payload, replacing
    /// any instance of `k` it already held.  Nothing else changes.
    #[verifier::loop_isolation(false)]
    pub fn insert_component(&mut self, e: Entity, k: usize, value: Payload)
        requires
            old(self).wf(),
            old(self).live(e),
            old(self).valid_key(k),
        ensures
            final(self).wf(),
            final(self).comp(e, k) == Some(value),
            forall|e2: Entity, k2: usize| e2 != e || k2 != k
                ==> final(self).comp(e2, k2) == old(self).comp(e2, k2),
            forall|e2: Entity| final(self).live(e2) == old(self).live(e2),
            final(self).num_types() == old(self).num_types(),
            forall|k2: usize| old(self).valid_key(k2)
                ==> final(self).shape_of(k2) == old(self).shape_of(k2)
                    && final(self).layout_of(k2) == old(self).layout_of(k2)
                    && final(self).name_of(k2) == old(self).name_of(k2),
    {
        let ghost pre = *self;
        let n = self.shapes.len();
        let slot = &mut self.slots[e.index];
        while slot.comps.len() <= k
            invariant
                k < n,
                slot.comps@.len() <= n,
                slot.comps@.len() >= pre.slots@[e.index as int].comps@.len(),
                slot.generation == pre.slots@[e.index as int].generation,
                slot.alive == pre.slots@[e.index as int].alive,
                forall|j: int| 0 <= j < slot.comps@.len()
                    ==> slot.comps@[j] == if j < pre.slots@[e.index as int].comps@.len() {
                        pre.slots@[e.index as int].comps@[j]
                    } else {
                        Option::<Payload>::None
                    },
            decreases n - slot.comps@.len(),
        {
            slot.comps.push(None);
        }
        let cell = &mut slot.comps[k];
        *cell = Some(value);
    }

    /// Removes the component of type `k` from `e`, if present.  Nothing
    /// else changes.
    pub fn remove_component(&mut self, e: Entity, k: usize)
        requires
            old(self).wf(),
            old(self).live(e),
            old(self).valid_key(k),
        ensures
            final(self).wf(),
            final(self).comp(e, k) == Option::<Payload>::None,
            forall|e2: Entity, k2: usize| e2 != e || k2 != k
                ==> final(self).comp(e2, k2) == old(self).comp(e2, k2),
            forall|e2: Entity| final(self).live(e2) == old(self).live(e2),
            final(self).num_types() == old(self).num_types(),
            forall|k2: usize| old(self).valid_key(k2)
                ==> final(self).shape_of(k2) == old(self).shape_of(k2)
                    && final(self).layout_of(k2) == old(self).layout_of(k2)
                    && final(self).name_of(k2) == old(self).name_of(k2),
    {
        let slot = &mut self.slots[e.index];
        if k < slot.comps.len() {
            let cell = &mut slot.comps[k];
            *cell = None;
        }
    }

    /// Reads the component of type `k` on `e`: its payload, or `None` when
    /// absent or when `e` is dead or stale.
    pub fn get_component(&self, e: Entity, k: usize) -> (r: Option<Payload>)
        requires
            self.wf(),
        ensures
            r == self.comp(e, k),
    {
        if e.index < self.slots.len() {
            let slot = &self.slots[e.index];
            if slot.alive && slot.generation == e.generation && k < slot.comps.len() {
                return slot.comps[k];
            }
        }
        None
    }

    /// How many component types are registered.
    pub fn num_component_types(&self) -> (n: usize)
        ensures
            n == self.num_types(),
    {
        self.shapes.len()
    }

    /// Whether the handle `e` is currently live.
    pub fn is_live(&self, e: Entity) -> (r: bool)
        ensures
            r == self.live(e),
    {
        if e.index < self.slots.len() {
            let slot = &self.slots[e.index];
            slot.alive && slot.generation == e.generation
        } else {
            false
        }
    }

    /// All currently live entity handles, in strictly increasing slot
    /// order — which also makes them pairwise distinct.
    #[verifier::loop_isolation(false)]
    pub fn live_entities(&self) -> (r: Vec<Entity>)
        ensures
            forall|j: int| 0 <= j < r@.len() ==> self.live(#[trigger] r@[j]),
            forall|e: Entity| self.live(e) ==> r@.contains(e),
            forall|j1: int, j2: int| 0 <= j1 < j2 < r@.len() ==> r@[j1].index < r@[j2].index,
    {
        let mut r: Vec<Entity> = Vec::new();
        let mut i: usize = 0;
        while i < self.slots.len()
            invariant
                i <= self.slots@.len(),
                forall|j: int| 0 <= j < r@.len() ==> self.live(#[trigger] r@[j]),
                forall|e: Entity| self.live(e) && e.index < i ==> r@.contains(e),
                forall|j: int| 0 <= j < r@.len() ==> (#[trigger] r@[j]).index < i,
                forall|j1: int, j2: int| 0 <= j1 < j2 < r@.len() ==> r@[j1].index < r@[j2].index,
            decreases self.slots@.len() - i,
        {
            let slot = &self.slots[i];
            if slot.alive {
                let ghost r0 = r@;
                let e = Entity { index: i, generation: slot.generation };
                r.push(e);
                proof {
                    assert(r@[r@.len() - 1] == e);
                    assert forall|e2: Entity| self.live(e2) && e2.index < i + 1
                        implies r@.contains(e2) by {
                        if e2.index == i {
                            assert(e2 == r@[r@.len() - 1]);
                        } else {
                            assert(r0.contains(e2));
                            let j = choose|j: int| 0 <= j < r0.len() && r0[j] == e2;
                            assert(r@[j] == e2);
                        }
                    }
                }
            }
            i += 1;
        }
        r
    }
}

} // verus!
