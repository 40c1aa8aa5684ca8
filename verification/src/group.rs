//! Exclusive groups: a set of sibling variant tags declared together, one
//! component type per variant.  The descriptor is built once at
//! declaration and read-only afterwards.

use vstd::prelude::*;
use crate::store::{Entity, PayloadShape, StorageLayout, Store};

verus! {

/// One variant of a group, as given at declaration: its identity (the
/// name) and the payload shape its tag carries.
pub struct VariantSpec {
    pub name: String,
    pub shape: PayloadShape,
}

/// Configuration errors caught at declaration, before any entity exists.
#[derive(Clone, Copy, PartialEq, Eq, Structural, Debug)]
pub enum DeclareError {
    /// The group listed no variants.
    EmptyGroup,
    /// Two variants of the group carried the same name.
    DuplicateVariant,
}

/// Whether no two variants in `specs` share a name.
pub open spec fn distinct_variant_names(specs: Seq<VariantSpec>) -> bool {
    forall|a: int, b: int| 0 <= a < b < specs.len()
        ==> (#[trigger] specs[a]).name@ != (#[trigger] specs[b]).name@
}

/// An exclusive group's immutable descriptor: its name and the component
/// type key of each variant, in declaration order.  Every variant's
/// sibling set is the rest of `variants()`.
pub struct GroupDescriptor {
    name: String,
    keys: Vec<usize>,
}

impl GroupDescriptor {
    /// The component type keys of the group's variants, in order.
    pub closed spec fn variants(self) -> Seq<usize> {
        self.keys@
    }

    /// The group's declared name.
    pub closed spec fn name_chars(self) -> Seq<char> {
        self.name@
    }

    /// The descriptor fits store `s`: every variant key is registered
    /// there and no key appears twice.
    pub open spec fn wf(self, s: Store) -> bool {
        &&& forall|i: int| 0 <= i < self.variants().len()
            ==> s.valid_key(#[trigger] self.variants()[i])
        &&& forall|i: int, j: int| 0 <= i < j < self.variants().len()
            ==> self.variants()[i] != self.variants()[j]
    }

    /// Entity `e` holds at least one variant tag of this group, whatever
    /// else it holds.
    pub open spec fn any_present(self, s: Store, e: Entity) -> bool {
        exists|i: int| 0 <= i < self.variants().len()
            && s.has(e, #[trigger] self.variants()[i])
    }

    /// Entity `e` holds the variant at position `i` and none of its
    /// siblings.
    pub open spec fn exclusively_in(self, s: Store, e: Entity, i: int) -> bool {
        &&& s.has(e, self.variants()[i])
        &&& forall|j: int| 0 <= j < self.variants().len() && j != i
            ==> !s.has(e, #[trigger] self.variants()[j])
    }

    /// Entity `e` holds at most one variant tag of this group: the
    /// exclusivity invariant that transitions maintain.
    pub open spec fn at_most_one_of(self, s: Store, e: Entity) -> bool {
        forall|i: int, j: int|
            0 <= i < self.variants().len() && 0 <= j < self.variants().len()
                && s.has(e, #[trigger] self.variants()[i])
                && s.has(e, #[trigger] self.variants()[j]) ==> i == j
    }

    /// How many variants the group has.
    pub fn num_variants(&self) -> (n: usize)
        ensures
            n == self.variants().len(),
    {
        self.keys.len()
    }

    /// The component type key of the variant at position `i`.
    pub fn variant_key(&self, i: usize) -> (k: usize)
        requires
            i < self.variants().len(),
        ensures
            k == self.variants()[i as int],
    {
        self.keys[i]
    }

    /// The keys of every variant except the one at position `i`, in
    /// declaration order: the sibling set that a transition to `i`
    /// removes.
    #[verifier::loop_isolation(false)]
    pub fn siblings(&self, i: usize) -> (v: Vec<usize>)
        requires
            i < self.variants().len(),
        ensures
            v@ == self.variants().remove(i as int),
    {
        let n = self.num_variants();
        let mut sibs: Vec<usize> = Vec::new();
        let mut j: usize = 0;
        while j < n
            invariant
                j <= n,
                i < n,
                sibs@ == if j <= i {
                    self.variants().subrange(0, j as int)
                } else {
                    self.variants().subrange(0, i as int) + self.variants().subrange(
                        i as int + 1,
                        j as int,
                    )
                },
            decreases n - j,
        {
            if j != i {
                sibs.push(self.variant_key(j));
            }
            proof {
                let v = self.variants();
                if j < i {
                    assert(v.subrange(0, j + 1) =~= v.subrange(0, j as int).push(v[j as int]));
                } else if j == i {
                    assert(v.subrange(0, i as int) + v.subrange(i as int + 1, i as int + 1)
                        =~= v.subrange(0, i as int));
                } else {
                    assert(v.subrange(i as int + 1, j + 1) =~= v.subrange(
                        i as int + 1,
                        j as int,
                    ).push(v[j as int]));
                    assert(v.subrange(0, i as int) + v.subrange(i as int + 1, j + 1) =~= (
                    v.subrange(0, i as int) + v.subrange(i as int + 1, j as int)).push(
                        v[j as int],
                    ));
                }
            }
            j += 1;
        }
        sibs
    }

    /// The group's name.
    pub fn group_name(&self) -> (r: &String)
        ensures
            r@ == self.name_chars(),
    {
        &self.name
    }
}

/// Declares an exclusive group: registers one component type per variant
/// (dense layout, in declaration order) and returns the descriptor mapping
/// each variant to its key.  An empty variant list or a duplicate variant
/// name is rejected before anything is registered, so a failed declaration
/// leaves the store untouched.
#[verifier::loop_isolation(false)]
pub fn declare_group(store: &mut Store, name: String, specs: &Vec<VariantSpec>) -> (r: Result<
    GroupDescriptor,
    DeclareError,
>)
    requires
        old(store).wf(),
    ensures
        final(store).wf(),
        r is Err ==> *final(store) == *old(store),
        (r is Err && r->Err_0 == DeclareError::EmptyGroup) <==> specs@.len() == 0,
        (r is Err && r->Err_0 == DeclareError::DuplicateVariant) <==> (specs@.len() > 0
            && !distinct_variant_names(specs@)),
        (r is Ok) <==> (specs@.len() > 0 && distinct_variant_names(specs@)),
        r is Ok ==> (r->Ok_0).name_chars() == name@,
        r is Ok ==> (r->Ok_0).variants().len() == specs@.len(),
        r is Ok ==> forall|t: int| 0 <= t < specs@.len()
            ==> (r->Ok_0).variants()[t] == old(store).num_types() + t,
        r is Ok ==> (r->Ok_0).wf(*final(store)),
        r is Ok ==> final(store).num_types() == old(store).num_types() + specs@.len(),
        r is Ok ==> forall|t: int| 0 <= t < specs@.len()
            ==> final(store).shape_of(#[trigger] (r->Ok_0).variants()[t]) == specs@[t].shape
                && final(store).layout_of((r->Ok_0).variants()[t]) == StorageLayout::Dense
                && final(store).name_of((r->Ok_0).variants()[t]) == specs@[t].name@,
        forall|e: Entity| final(store).live(e) == old(store).live(e),
        forall|e: Entity, k: usize| final(store).comp(e, k) == old(store).comp(e, k),
        forall|k2: usize| old(store).valid_key(k2)
            ==> final(store).shape_of(k2) == old(store).shape_of(k2)
                && final(store).layout_of(k2) == old(store).layout_of(k2)
                && final(store).name_of(k2) == old(store).name_of(k2),
{
    if specs.len() == 0 {
        return Err(DeclareError::EmptyGroup);
    }
    let mut a: usize = 0;
    while a < specs.len()
        invariant
            forall|x: int, y: int| 0 <= x < y < specs@.len() && x < a
                ==> (#[trigger] specs@[x]).name@ != (#[trigger] specs@[y]).name@,
        decreases specs@.len() - a,
    {
        let mut b: usize = a + 1;
        while b < specs.len()
            invariant
                a < b,
                forall|y: int| a < y < b ==> specs@[a as int].name@ != (#[trigger] specs@[y]).name@,
            decreases specs@.len() - b,
        {
            if specs[a].name == specs[b].name {
                return Err(DeclareError::DuplicateVariant);
            }
            b += 1;
        }
        a += 1;
    }
    let mut keys: Vec<usize> = Vec::new();
    let mut t: usize = 0;
    while t < specs.len()
        invariant
            t == keys@.len(),
            t <= specs@.len(),
            store.wf(),
            store.num_types() == old(store).num_types() + t,
            forall|u: int| 0 <= u < t ==> #[trigger] keys@[u] == old(store).num_types() + u,
            forall|u: int| 0 <= u < t
                ==> store.shape_of(#[trigger] keys@[u]) == specs@[u].shape
                    && store.layout_of(keys@[u]) == StorageLayout::Dense
                    && store.name_of(keys@[u]) == specs@[u].name@,
            forall|e: Entity| store.live(e) == old(store).live(e),
            forall|e: Entity, k: usize| store.comp(e, k) == old(store).comp(e, k),
            forall|k2: usize| old(store).valid_key(k2)
                ==> store.shape_of(k2) == old(store).shape_of(k2)
                    && store.layout_of(k2) == old(store).layout_of(k2)
                    && store.name_of(k2) == old(store).name_of(k2),
        decreases specs@.len() - t,
    {
        let k = store.create_component_type(specs[t].name.clone(), specs[t].shape);
        keys.push(k);
        t += 1;
    }
    Ok(GroupDescriptor { name, keys })
}

} // verus!
