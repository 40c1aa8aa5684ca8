//! Deferred transitions: the "remove every sibling, insert the target"
//! edit group is queued into an append-only command buffer and applied at
//! a synchronization point, each edit as one indivisible unit.

use vstd::prelude::*;
use crate::group::GroupDescriptor;
use crate::store::{Entity, Payload, Store};

verus! {

/// One queued edit group against one entity: remove every listed tag,
/// then insert the target tag with its payload.  Owned by the buffer
/// until flushed; dropped silently at flush if the entity died first.
pub struct DeferredEdit {
    pub entity: Entity,
    pub removes: Vec<usize>,
    pub insert_key: usize,
    pub payload: Payload,
}

/// Every key the edit touches is registered in store `s`.
pub open spec fn edit_wf(s: Store, ed: DeferredEdit) -> bool {
    &&& s.valid_key(ed.insert_key)
    &&& forall|j: int| 0 <= j < ed.removes@.len() ==> s.valid_key(#[trigger] ed.removes@[j])
}

/// The component of type `k` on `e` once `ed` has been applied to a state
/// where it was `prev`; `live` says whether the edit's target entity is
/// live (a dead target makes the edit a no-op).
pub open spec fn edit_result(
    prev: Option<Payload>,
    ed: DeferredEdit,
    e: Entity,
    k: usize,
    live: bool,
) -> Option<Payload> {
    if ed.entity == e && live {
        if k == ed.insert_key {
            Some(ed.payload)
        } else if ed.removes@.contains(k) {
            None
        } else {
            prev
        }
    } else {
        prev
    }
}

/// The component of type `k` on `e` after `edits` have been applied to
/// `s` in order.  Flushing never changes liveness, so each edit's target
/// is live exactly when it is live in `s`.
pub open spec fn comp_after(s: Store, edits: Seq<DeferredEdit>, e: Entity, k: usize) -> Option<
    Payload,
>
    decreases edits.len(),
{
    if edits.len() == 0 {
        s.comp(e, k)
    } else {
        edit_result(
            comp_after(s, edits.drop_last(), e, k),
            edits.last(),
            e,
            k,
            s.live(edits.last().entity),
        )
    }
}

/// `ed` is the transition of `e` to the variant of `g` at position `i`
/// carrying `payload`: it removes exactly the sibling set and inserts the
/// variant's own tag.
pub open spec fn is_transition_edit(
    ed: DeferredEdit,
    g: GroupDescriptor,
    i: int,
    e: Entity,
    payload: Payload,
) -> bool {
    &&& 0 <= i < g.variants().len()
    &&& ed.entity == e
    &&& ed.insert_key == g.variants()[i]
    &&& ed.removes@ == g.variants().remove(i)
    &&& ed.payload == payload
}

/// `ed` is a transition edit of group `g`, whatever the variant, entity
/// and payload.
pub open spec fn is_group_transition(ed: DeferredEdit, g: GroupDescriptor) -> bool {
    exists|i: int| is_transition_edit(ed, g, i, ed.entity, ed.payload)
}

/// The per-phase deferred command buffer: edits queue in program order
/// and apply in that same order at the flush point.
pub struct CommandBuffer {
    edits: Vec<DeferredEdit>,
}

impl CommandBuffer {
    /// The queued edits, oldest first.
    pub closed spec fn queued(self) -> Seq<DeferredEdit> {
        self.edits@
    }

    /// An empty buffer.
    pub fn new() -> (b: CommandBuffer)
        ensures
            b.queued().len() == 0,
    {
        CommandBuffer { edits: Vec::new() }
    }

    /// How many edits are queued.
    pub fn num_queued(&self) -> (n: usize)
        ensures
            n == self.queued().len(),
    {
        self.edits.len()
    }

    /// Queues the transition of `e` to the variant of `group` at position
    /// `i` with `payload`: one edit group that removes every sibling tag
    /// and inserts the target tag, appended after everything already
    /// queued.
    pub fn transition(&mut self, e: Entity, group: &GroupDescriptor, i: usize, payload: Payload)
        requires
            i < group.variants().len(),
        ensures
            final(self).queued().len() == old(self).queued().len() + 1,
            final(self).queued().drop_last() == old(self).queued(),
            is_transition_edit(final(self).queued().last(), *group, i as int, e, payload),
    {
        let removes = group.siblings(i);
        let insert_key = group.variant_key(i);
        self.edits.push(DeferredEdit { entity: e, removes, insert_key, payload });
        proof {
            assert(self.edits@.drop_last() =~= old(self).edits@);
        }
    }

    /// Queues a bare insertion of the tag `k` with `payload` on `e`: the
    /// deferred form of direct mutation, which bypasses the group's
    /// sibling removal.
    pub fn insert(&mut self, e: Entity, k: usize, payload: Payload)
        ensures
            final(self).queued().len() == old(self).queued().len() + 1,
            final(self).queued().drop_last() == old(self).queued(),
            final(self).queued().last().entity == e,
            final(self).queued().last().insert_key == k,
            final(self).queued().last().payload == payload,
            final(self).queued().last().removes@ == Seq::<usize>::empty(),
    {
        let removes: Vec<usize> = Vec::new();
        self.edits.push(DeferredEdit { entity: e, removes, insert_key: k, payload });
        proof {
            assert(self.edits@.drop_last() =~= old(self).edits@);
        }
    }

    /// Applies every queued edit to `store` in append order — the flush
    /// order is the deterministic queue order, so conflicting transitions
    /// resolve last-applied-wins — then leaves the buffer empty.  An edit
    /// against a dead or stale entity is dropped silently.  Liveness and
    /// the type registry never change.
    #[verifier::loop_isolation(false)]
    pub fn flush(&mut self, store: &mut Store)
        requires
            old(store).wf(),
            forall|t: int| 0 <= t < old(self).queued().len()
                ==> edit_wf(*old(store), #[trigger] old(self).queued()[t]),
        ensures
            final(self).queued().len() == 0,
            final(store).wf(),
            forall|e: Entity, k: usize| final(store).comp(e, k) == comp_after(
                *old(store),
                old(self).queued(),
                e,
                k,
            ),
            forall|e: Entity| final(store).live(e) == old(store).live(e),
            final(store).num_types() == old(store).num_types(),
            forall|k2: usize| old(store).valid_key(k2)
                ==> final(store).shape_of(k2) == old(store).shape_of(k2)
                    && final(store).layout_of(k2) == old(store).layout_of(k2)
                    && final(store).name_of(k2) == old(store).name_of(k2),
    {
        let ghost q = self.edits@;
        let n = self.edits.len();
        let mut t: usize = 0;
        while t < n
            invariant
                t <= n,
                self.edits@ == q,
                n == q.len(),
                store.wf(),
                forall|e: Entity, k: usize| store.comp(e, k) == comp_after(
                    *old(store),
                    q.take(t as int),
                    e,
                    k,
                ),
                forall|e: Entity| store.live(e) == old(store).live(e),
                store.num_types() == old(store).num_types(),
                forall|k2: usize| old(store).valid_key(k2)
                    ==> store.shape_of(k2) == old(store).shape_of(k2)
                        && store.layout_of(k2) == old(store).layout_of(k2)
                        && store.name_of(k2) == old(store).name_of(k2),
            decreases n - t,
        {
            let ed = &self.edits[t];
            let ghost mid = *store;
            if store.is_live(ed.entity) {
                let mut u: usize = 0;
                while u < ed.removes.len()
                    invariant
                        u <= ed.removes@.len(),
                        store.wf(),
                        old(store).live(ed.entity),
                        forall|e: Entity, k: usize| store.comp(e, k) == (if e == ed.entity
                            && ed.removes@.take(u as int).contains(k) {
                            Option::<Payload>::None
                        } else {
                            mid.comp(e, k)
                        }),
                        forall|e: Entity| store.live(e) == old(store).live(e),
                        store.num_types() == old(store).num_types(),
                        forall|k2: usize| old(store).valid_key(k2)
                            ==> store.shape_of(k2) == old(store).shape_of(k2)
                                && store.layout_of(k2) == old(store).layout_of(k2)
                                && store.name_of(k2) == old(store).name_of(k2),
                    decreases ed.removes@.len() - u,
                {
                    store.remove_component(ed.entity, ed.removes[u]);
                    proof {
                        let rs = ed.removes@;
                        assert(rs.take(u + 1) =~= rs.take(u as int).push(rs[u as int]));
                        assert forall|k: usize| #[trigger] rs.take(u + 1).contains(k) == (rs.take(
                            u as int,
                        ).contains(k) || k == rs[u as int]) by {
                            if rs.take(u + 1).contains(k) {
                                let x = choose|x: int|
                                    0 <= x < rs.take(u + 1).len() && #[trigger] rs.take(
                                        u + 1,
                                    )[x] == k;
                                if x < u {
                                    assert(rs.take(u as int)[x] == k);
                                }
                            }
                            if rs.take(u as int).contains(k) {
                                let x = choose|x: int|
                                    0 <= x < rs.take(u as int).len() && #[trigger] rs.take(
                                        u as int,
                                    )[x] == k;
                                assert(rs.take(u + 1)[x] == k);
                            }
                            if k == rs[u as int] {
                                assert(rs.take(u + 1)[u as int] == k);
                            }
                        }
                    }
                    u += 1;
                }
                proof {
                    assert(ed.removes@.take(ed.removes@.len() as int) =~= ed.removes@);
                }
                store.insert_component(ed.entity, ed.insert_key, ed.payload);
            }
            proof {
                assert(q.take(t + 1).drop_last() =~= q.take(t as int));
                assert(q.take(t + 1).last() == q[t as int]);
                assert forall|e: Entity, k: usize| store.comp(e, k) == comp_after(
                    *old(store),
                    q.take(t + 1),
                    e,
                    k,
                ) by {
                    assert(comp_after(*old(store), q.take(t + 1), e, k) == edit_result(
                        comp_after(*old(store), q.take(t as int), e, k),
                        q[t as int],
                        e,
                        k,
                        old(store).live(q[t as int].entity),
                    ));
                }
            }
            t += 1;
        }
        proof {
            assert(q.take(n as int) =~= q);
        }
        self.edits.clear();
    }
}

/// The queued edit leaves `e`'s tags of group `g` shaped only by
/// transitions: it targets another entity, or is a transition of `g`, or
/// inserts no tag of `g` at all — a bare removal can never add a second
/// tag, so it cannot break exclusivity.
pub open spec fn respects_group(ed: DeferredEdit, g: GroupDescriptor, e: Entity) -> bool {
    ||| ed.entity != e
    ||| is_group_transition(ed, g)
    ||| !g.variants().contains(ed.insert_key)
}

/// Entity `e` holds at most one variant tag of `g` once `edits` have
/// been applied to `s`.
pub open spec fn at_most_one_after(
    g: GroupDescriptor,
    s: Store,
    edits: Seq<DeferredEdit>,
    e: Entity,
) -> bool {
    forall|i: int, j: int|
        0 <= i < g.variants().len() && 0 <= j < g.variants().len()
            && (#[trigger] comp_after(s, edits, e, g.variants()[i])) is Some
            && (#[trigger] comp_after(s, edits, e, g.variants()[j])) is Some ==> i == j
}

/// The exclusivity invariant: an entity that holds at most one variant
/// tag of a group, and whose tags of that group are only ever inserted
/// through transition edits of the group, still holds at most one
/// variant tag after any queue of such edits — whatever the other edits
/// target, and whether or not the entity was live.
pub proof fn lemma_transitions_preserve_exclusivity(
    g: GroupDescriptor,
    s: Store,
    edits: Seq<DeferredEdit>,
    e: Entity,
)
    requires
        g.wf(s),
        g.at_most_one_of(s, e),
        forall|t: int| 0 <= t < edits.len() ==> respects_group(#[trigger] edits[t], g, e),
    ensures
        at_most_one_after(g, s, edits, e),
    decreases edits.len(),
{
    if edits.len() == 0 {
        assert forall|i: int, j: int|
            0 <= i < g.variants().len() && 0 <= j < g.variants().len()
                && (#[trigger] comp_after(s, edits, e, g.variants()[i])) is Some
                && (#[trigger] comp_after(s, edits, e, g.variants()[j])) is Some
            implies i == j by {
            assert(s.has(e, g.variants()[i]));
            assert(s.has(e, g.variants()[j]));
        }
    } else {
        let prefix = edits.drop_last();
        assert forall|t: int| 0 <= t < prefix.len()
            implies respects_group(#[trigger] prefix[t], g, e) by {
            assert(prefix[t] == edits[t]);
        }
        lemma_transitions_preserve_exclusivity(g, s, prefix, e);
        let ed = edits.last();
        assert(edits[edits.len() - 1] == ed);
        assert(respects_group(ed, g, e));
        if ed.entity == e && s.live(e) && is_group_transition(ed, g) {
            let i0 = choose|i0: int| is_transition_edit(ed, g, i0, ed.entity, ed.payload);
            assert forall|j: int| 0 <= j < g.variants().len() && j != i0
                implies comp_after(s, edits, e, #[trigger] g.variants()[j]) is None by {
                let t0 = if j < i0 {
                    j
                } else {
                    j - 1
                };
                assert(ed.removes@[t0] == g.variants()[j]);
                assert(ed.removes@.contains(g.variants()[j]));
                assert(g.variants()[j] != g.variants()[i0]);
            }
            assert forall|i: int, j: int|
                0 <= i < g.variants().len() && 0 <= j < g.variants().len()
                    && (#[trigger] comp_after(s, edits, e, g.variants()[i])) is Some
                    && (#[trigger] comp_after(s, edits, e, g.variants()[j])) is Some
                implies i == j by {
                assert(i == i0 && j == i0);
            }
        } else if ed.entity == e && s.live(e) {
            // the last edit inserts no tag of the group, so a variant tag
            // present after it was present before it
            assert forall|i: int, j: int|
                0 <= i < g.variants().len() && 0 <= j < g.variants().len()
                    && (#[trigger] comp_after(s, edits, e, g.variants()[i])) is Some
                    && (#[trigger] comp_after(s, edits, e, g.variants()[j])) is Some
                implies i == j by {
                assert(g.variants()[i] != ed.insert_key);
                assert(g.variants()[j] != ed.insert_key);
                assert(comp_after(s, prefix, e, g.variants()[i]) is Some);
                assert(comp_after(s, prefix, e, g.variants()[j]) is Some);
            }
        } else {
            assert forall|i: int, j: int|
                0 <= i < g.variants().len() && 0 <= j < g.variants().len()
                    && (#[trigger] comp_after(s, edits, e, g.variants()[i])) is Some
                    && (#[trigger] comp_after(s, edits, e, g.variants()[j])) is Some
                implies i == j by {
                assert(comp_after(s, edits, e, g.variants()[i]) == comp_after(
                    s,
                    prefix,
                    e,
                    g.variants()[i],
                ));
                assert(comp_after(s, edits, e, g.variants()[j]) == comp_after(
                    s,
                    prefix,
                    e,
                    g.variants()[j],
                ));
            }
        }
    }
}

/// The invariant restated on a flushed store: flushing a queue whose
/// every edit respects the group for `e` onto a store where `e` held at
/// most one variant of `g` leaves `e` holding at most one variant of
/// `g`.
pub proof fn lemma_flush_preserves_exclusivity(
    g: GroupDescriptor,
    s: Store,
    edits: Seq<DeferredEdit>,
    post: Store,
    e: Entity,
)
    requires
        g.wf(s),
        g.at_most_one_of(s, e),
        forall|t: int| 0 <= t < edits.len() ==> respects_group(#[trigger] edits[t], g, e),
        forall|e2: Entity, k: usize| post.comp(e2, k) == comp_after(s, edits, e2, k),
    ensures
        g.at_most_one_of(post, e),
{
    lemma_transitions_preserve_exclusivity(g, s, edits, e);
}

/// After a flush whose last queued edit for `e` was the transition to
/// the variant of `g` at position `i`, entity `e` exclusively matches
/// that variant — whatever it held before — and exclusively matches no
/// sibling.
pub proof fn lemma_transition_then_flush_exclusive(
    g: GroupDescriptor,
    s: Store,
    edits: Seq<DeferredEdit>,
    post: Store,
    e: Entity,
    i: int,
    payload: Payload,
)
    requires
        g.wf(s),
        s.live(e),
        edits.len() > 0,
        is_transition_edit(edits.last(), g, i, e, payload),
        forall|e2: Entity, k: usize| post.comp(e2, k) == comp_after(s, edits, e2, k),
    ensures
        g.exclusively_in(post, e, i),
        forall|j: int| 0 <= j < g.variants().len() && j != i ==> !g.exclusively_in(post, e, j),
{
    let ed = edits.last();
    assert(post.comp(e, g.variants()[i]) == Some(ed.payload));
    assert forall|j: int| 0 <= j < g.variants().len() && j != i
        implies !post.has(e, #[trigger] g.variants()[j]) by {
        let t0 = if j < i {
            j
        } else {
            j - 1
        };
        assert(ed.removes@[t0] == g.variants()[j]);
        assert(ed.removes@.contains(g.variants()[j]));
    }
}

/// Idempotence of queued edits: a queue that ends in two copies of the
/// same edit leaves every component exactly as the queue with one copy
/// does — so queueing a transition twice in sequence yields the same
/// post-flush state as queueing it once.
pub proof fn lemma_transition_idempotent(s: Store, edits: Seq<DeferredEdit>, ed: DeferredEdit)
    ensures
        forall|e: Entity, k: usize| #[trigger] comp_after(s, edits.push(ed).push(ed), e, k)
            == comp_after(s, edits.push(ed), e, k),
{
    assert forall|e: Entity, k: usize| #[trigger] comp_after(s, edits.push(ed).push(ed), e, k)
        == comp_after(s, edits.push(ed), e, k) by {
        let q1 = edits.push(ed);
        let q2 = q1.push(ed);
        assert(q2.drop_last() =~= q1);
        assert(q1.drop_last() =~= edits);
        assert(comp_after(s, q2, e, k) == edit_result(
            comp_after(s, q1, e, k),
            ed,
            e,
            k,
            s.live(ed.entity),
        ));
        assert(comp_after(s, q1, e, k) == edit_result(
            comp_after(s, edits, e, k),
            ed,
            e,
            k,
            s.live(ed.entity),
        ));
    }
}

} // verus!
