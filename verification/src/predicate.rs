//! The query-filter algebra: presence and absence tests over component
//! type keys, closed under conjunction, union and negation.  Evaluation is
//! pure and total, so it is safe under arbitrary concurrent reads.

use vstd::prelude::*;
use crate::group::GroupDescriptor;
use crate::store::{Entity, Payload, Store};

verus! {

/// A boolean filter over one entity's components.  `Has` and `Lacks` are
/// the store's primitive tests; `And`, `Or` and `Not` compose them, so the
/// filters built by this layer mix freely with unrelated ones.
pub enum Predicate {
    Has(usize),
    Lacks(usize),
    And(Vec<Predicate>),
    Or(Vec<Predicate>),
    Not(Box<Predicate>),
}

/// What a predicate means: the truth of `p` on entity `e` in store `s`.
/// Defined over component presence alone, so only `Store::has` matters.
pub open spec fn holds(p: Predicate, s: Store, e: Entity) -> bool
    decreases p,
{
    match p {
        Predicate::Has(k) => s.has(e, k),
        Predicate::Lacks(k) => !s.has(e, k),
        Predicate::And(ps) => forall|i: int| 0 <= i < ps@.len() ==> holds(#[trigger] ps@[i], s, e),
        Predicate::Or(ps) => exists|i: int| 0 <= i < ps@.len() && holds(#[trigger] ps@[i], s, e),
        Predicate::Not(q) => !holds(*q, s, e),
    }
}

impl Predicate {
    /// Evaluates this predicate on `e`.  Total: every entity/state
    /// combination, dead or violating handles included, yields an answer.
    #[verifier::loop_isolation(false)]
    pub fn eval(&self, s: &Store, e: Entity) -> (r: bool)
        requires
            s.wf(),
        ensures
            r == holds(*self, *s, e),
        decreases *self,
    {
        match self {
            Predicate::Has(k) => s.get_component(e, *k).is_some(),
            Predicate::Lacks(k) => s.get_component(e, *k).is_none(),
            Predicate::And(ps) => {
                let mut i: usize = 0;
                while i < ps.len()
                    invariant
                        i <= ps@.len(),
                        forall|j: int| 0 <= j < i ==> holds(#[trigger] ps@[j], *s, e),
                    decreases ps@.len() - i,
                {
                    if !ps[i].eval(s, e) {
                        return false;
                    }
                    i += 1;
                }
                true
            },
            Predicate::Or(ps) => {
                let mut i: usize = 0;
                while i < ps.len()
                    invariant
                        i <= ps@.len(),
                        forall|j: int| 0 <= j < i ==> !holds(#[trigger] ps@[j], *s, e),
                    decreases ps@.len() - i,
                {
                    if ps[i].eval(s, e) {
                        return true;
                    }
                    i += 1;
                }
                false
            },
            Predicate::Not(q) => !q.eval(s, e),
        }
    }
}

impl GroupDescriptor {
    /// The loose-match filter for the variant at position `i`: a bare
    /// presence test, true whenever the variant is held, siblings or not —
    /// it stays true even under an exclusivity violation.
    pub fn loose_match(&self, i: usize) -> (p: Predicate)
        requires
            i < self.variants().len(),
        ensures
            forall|s: Store, e: Entity| #[trigger] holds(p, s, e) == s.has(
                e,
                self.variants()[i as int],
            ),
    {
        Predicate::Has(self.variant_key(i))
    }

    /// The any-of-group filter: a union of one presence test per variant,
    /// true when the entity holds at least one variant of the group — by
    /// design also when several are present at once.
    #[verifier::loop_isolation(false)]
    pub fn any_match(&self) -> (p: Predicate)
        ensures
            forall|s: Store, e: Entity| #[trigger] holds(p, s, e) == self.any_present(s, e),
    {
        let n = self.num_variants();
        let mut ps: Vec<Predicate> = Vec::new();
        let mut i: usize = 0;
        while i < n
            invariant
                i <= n,
                ps@.len() == i,
                forall|j: int| 0 <= j < i
                    ==> #[trigger] ps@[j] == Predicate::Has(self.variants()[j]),
            decreases n - i,
        {
            ps.push(Predicate::Has(self.variant_key(i)));
            i += 1;
        }
        let p = Predicate::Or(ps);
        proof {
            assert forall|s: Store, e: Entity| #[trigger] holds(p, s, e) == self.any_present(
                s,
                e,
            ) by {
                if holds(p, s, e) {
                    let t = choose|t: int|
                        0 <= t < self.variants().len() && holds(
                            #[trigger] (p->Or_0)@[t],
                            s,
                            e,
                        );
                    assert(s.has(e, self.variants()[t]));
                }
                if self.any_present(s, e) {
                    let t = choose|t: int|
                        0 <= t < self.variants().len() && s.has(
                            e,
                            #[trigger] self.variants()[t],
                        );
                    assert(holds((p->Or_0)@[t], s, e));
                }
            }
        }
        p
    }

    /// The exclusive-match filter for the variant at position `i`, in
    /// predicate form: the variant is held and no sibling is.
    pub fn exclusive_match(&self, i: usize) -> (p: Predicate)
        requires
            i < self.variants().len(),
        ensures
            forall|s: Store, e: Entity| #[trigger] holds(p, s, e) == self.exclusively_in(
                s,
                e,
                i as int,
            ),
    {
        let w = WithState::new(self, i);
        let p = w.predicate();
        proof {
            assert forall|s: Store, e: Entity| #[trigger] holds(p, s, e) == self.exclusively_in(
                s,
                e,
                i as int,
            ) by {
                assert(holds(p, s, e) == w.matches(s, e));
                assert(w.matches(s, e) == self.exclusively_in(s, e, i as int));
            }
        }
        p
    }
}

/// The exclusive-match filter for one variant, as a value of its own: it
/// matches an entity that holds the target variant and none of the
/// sibling variants.  Built from a group descriptor; convertible into the
/// general predicate algebra with [`WithState::predicate`].
pub struct WithState {
    target: usize,
    siblings: Vec<usize>,
}

impl WithState {
    /// The component type key of the matched variant.
    pub closed spec fn target_key(self) -> usize {
        self.target
    }

    /// The component type keys of the variant's siblings.
    pub closed spec fn sibling_keys(self) -> Seq<usize> {
        self.siblings@
    }

    /// What this filter means: target present, every sibling absent.
    pub open spec fn matches(self, s: Store, e: Entity) -> bool {
        &&& s.has(e, self.target_key())
        &&& forall|j: int| 0 <= j < self.sibling_keys().len()
            ==> !s.has(e, #[trigger] self.sibling_keys()[j])
    }

    /// Builds the exclusive-match filter for the variant of `group` at
    /// position `i`; its sibling set is every other variant of the group,
    /// so matching coincides with `group.exclusively_in` at `i`.
    #[verifier::loop_isolation(false)]
    pub fn new(group: &GroupDescriptor, i: usize) -> (w: WithState)
        requires
            i < group.variants().len(),
        ensures
            w.target_key() == group.variants()[i as int],
            w.sibling_keys() == group.variants().remove(i as int),
            forall|s: Store, e: Entity| #[trigger] w.matches(s, e) == group.exclusively_in(
                s,
                e,
                i as int,
            ),
    {
        let w = WithState { target: group.variant_key(i), siblings: group.siblings(i) };
        proof {
            let v = group.variants();
            assert(w.sibling_keys() == v.remove(i as int));
            assert forall|s: Store, e: Entity| #[trigger] w.matches(s, e) == group.exclusively_in(
                s,
                e,
                i as int,
            ) by {
                assert forall|j2: int| 0 <= j2 < v.len() && j2 != i
                    implies exists|t: int|
                        0 <= t < w.sibling_keys().len() && #[trigger] v[j2]
                            == w.sibling_keys()[t] by {
                    let t = if j2 < i { j2 } else { j2 - 1 };
                    assert(w.sibling_keys()[t] == v[j2]);
                }
                assert forall|t: int| 0 <= t < w.sibling_keys().len()
                    implies exists|j2: int|
                        0 <= j2 < v.len() && j2 != i && #[trigger] w.sibling_keys()[t]
                            == v[j2] by {
                    let j2 = if t < i { t } else { t + 1 };
                    assert(w.sibling_keys()[t] == v[j2]);
                }
            }
        }
        w
    }

    /// Evaluates this filter on `e`: target held, no sibling held.
    #[verifier::loop_isolation(false)]
    pub fn eval(&self, s: &Store, e: Entity) -> (r: bool)
        requires
            s.wf(),
        ensures
            r == self.matches(*s, e),
    {
        if s.get_component(e, self.target).is_none() {
            return false;
        }
        let mut t: usize = 0;
        while t < self.siblings.len()
            invariant
                t <= self.siblings@.len(),
                forall|u: int| 0 <= u < t ==> !s.has(e, #[trigger] self.siblings@[u]),
            decreases self.siblings@.len() - t,
        {
            if s.get_component(e, self.siblings[t]).is_some() {
                proof {
                    assert(s.has(e, self.sibling_keys()[t as int]));
                }
                return false;
            }
            t += 1;
        }
        true
    }

    /// This filter as a predicate value: the conjunction of one presence
    /// test for the target and one absence test per sibling, ready to mix
    /// with unrelated filters.
    #[verifier::loop_isolation(false)]
    pub fn predicate(&self) -> (p: Predicate)
        ensures
            forall|s: Store, e: Entity| #[trigger] holds(p, s, e) == self.matches(s, e),
    {
        let mut ps: Vec<Predicate> = Vec::new();
        ps.push(Predicate::Has(self.target));
        let mut t: usize = 0;
        while t < self.siblings.len()
            invariant
                t <= self.siblings@.len(),
                ps@.len() == t + 1,
                ps@[0] == Predicate::Has(self.target_key()),
                forall|u: int| 1 <= u <= t
                    ==> #[trigger] ps@[u] == Predicate::Lacks(self.sibling_keys()[u - 1]),
            decreases self.siblings@.len() - t,
        {
            ps.push(Predicate::Lacks(self.siblings[t]));
            t += 1;
        }
        let p = Predicate::And(ps);
        proof {
            assert forall|s: Store, e: Entity| #[trigger] holds(p, s, e) == self.matches(
                s,
                e,
            ) by {
                if holds(p, s, e) {
                    assert(holds((p->And_0)@[0], s, e));
                    assert forall|u: int| 0 <= u < self.sibling_keys().len()
                        implies !s.has(e, #[trigger] self.sibling_keys()[u]) by {
                        assert(holds((p->And_0)@[u + 1], s, e));
                    }
                }
                if self.matches(s, e) {
                    assert forall|t2: int| 0 <= t2 < (p->And_0)@.len()
                        implies holds(#[trigger] (p->And_0)@[t2], s, e) by {
                        if t2 > 0 {
                            assert((p->And_0)@[t2] == Predicate::Lacks(
                                self.sibling_keys()[t2 - 1],
                            ));
                        }
                    }
                }
            }
        }
        p
    }
}

impl Store {
    /// Runs a query: exactly the live entities that satisfy `p`, in
    /// strictly increasing slot order — so each appears at most once.
    #[verifier::loop_isolation(false)]
    pub fn query(&self, p: &Predicate) -> (r: Vec<Entity>)
        requires
            self.wf(),
        ensures
            forall|j: int| 0 <= j < r@.len()
                ==> self.live(#[trigger] r@[j]) && holds(*p, *self, r@[j]),
            forall|e: Entity| self.live(e) && holds(*p, *self, e) ==> r@.contains(e),
            forall|j1: int, j2: int| 0 <= j1 < j2 < r@.len() ==> r@[j1].index < r@[j2].index,
    {
        let all = self.live_entities();
        let mut r: Vec<Entity> = Vec::new();
        let mut j: usize = 0;
        while j < all.len()
            invariant
                j <= all@.len(),
                forall|t: int| 0 <= t < r@.len()
                    ==> self.live(#[trigger] r@[t]) && holds(*p, *self, r@[t]),
                forall|t: int| 0 <= t < r@.len()
                    ==> exists|u: int| 0 <= u < j && #[trigger] r@[t] == all@[u],
                forall|e: Entity| self.live(e) && holds(*p, *self, e) && (exists|u: int|
                    0 <= u < j && e == #[trigger] all@[u]) ==> r@.contains(e),
                forall|t1: int, t2: int| 0 <= t1 < t2 < r@.len() ==> r@[t1].index < r@[t2].index,
            decreases all@.len() - j,
        {
            let e = all[j];
            if p.eval(self, e) {
                let ghost r0 = r@;
                r.push(e);
                proof {
                    assert(r@[r@.len() - 1] == all@[j as int]);
                    assert forall|t1: int, t2: int| 0 <= t1 < t2 < r@.len()
                        implies r@[t1].index < r@[t2].index by {
                        if t2 == r@.len() - 1 {
                            let u = choose|u: int| 0 <= u < j && r0[t1] == all@[u];
                            assert(all@[u].index < all@[j as int].index);
                        }
                    }
                    assert forall|e2: Entity|
                        self.live(e2) && holds(*p, *self, e2) && (exists|u: int|
                            0 <= u < j + 1 && e2 == all@[u]) implies r@.contains(e2) by {
                        let u = choose|u: int| 0 <= u < j + 1 && e2 == all@[u];
                        if u == j {
                            assert(e2 == r@[r@.len() - 1]);
                        } else {
                            assert(r0.contains(e2));
                            let t = choose|t: int| 0 <= t < r0.len() && r0[t] == e2;
                            assert(r@[t] == e2);
                        }
                    }
                }
            }
            j += 1;
        }
        proof {
            assert forall|e: Entity| self.live(e) && holds(*p, *self, e)
                implies r@.contains(e) by {
                assert(all@.contains(e));
                let u = choose|u: int| 0 <= u < all@.len() && all@[u] == e;
                assert(exists|u2: int| 0 <= u2 < j && e == all@[u2]);
            }
        }
        r
    }

    /// Runs a query and pairs each matching entity with the payload of
    /// its component of type `k` — the matched data — or `None` where the
    /// entity lacks that component.
    #[verifier::loop_isolation(false)]
    pub fn query_with(&self, p: &Predicate, k: usize) -> (r: Vec<(Entity, Option<Payload>)>)
        requires
            self.wf(),
        ensures
            forall|j: int| 0 <= j < r@.len()
                ==> self.live((#[trigger] r@[j]).0) && holds(*p, *self, r@[j].0) && r@[j].1
                    == self.comp(r@[j].0, k),
            forall|e: Entity| self.live(e) && holds(*p, *self, e) ==> exists|j: int|
                0 <= j < r@.len() && (#[trigger] r@[j]).0 == e,
            forall|j1: int, j2: int| 0 <= j1 < j2 < r@.len() ==> r@[j1].0.index < r@[j2].0.index,
    {
        let q = self.query(p);
        let mut r: Vec<(Entity, Option<Payload>)> = Vec::new();
        let mut j: usize = 0;
        while j < q.len()
            invariant
                j <= q@.len(),
                r@.len() == j,
                forall|t: int| 0 <= t < j ==> (#[trigger] r@[t]).0 == q@[t] && r@[t].1
                    == self.comp(q@[t], k),
            decreases q@.len() - j,
        {
            let e = q[j];
            r.push((e, self.get_component(e, k)));
            j += 1;
        }
        proof {
            assert forall|e: Entity| self.live(e) && holds(*p, *self, e)
                implies exists|t: int| 0 <= t < r@.len() && (#[trigger] r@[t]).0 == e by {
                assert(q@.contains(e));
                let u = choose|u: int| 0 <= u < q@.len() && q@[u] == e;
                assert(r@[u].0 == e);
            }
        }
        r
    }
}

/// Predicate evaluation reads component presence and nothing else: two
/// stores that agree on `has` for every entity and key give every
/// predicate the same truth value.  In particular a storage-layout hint,
/// which touches no component, never alters any predicate's result set.
pub proof fn lemma_holds_only_on_presence(p: Predicate, s1: Store, s2: Store, e: Entity)
    requires
        forall|e2: Entity, k: usize| s1.has(e2, k) == s2.has(e2, k),
    ensures
        holds(p, s1, e) == holds(p, s2, e),
    decreases p,
{
    match p {
        Predicate::Has(k) => {},
        Predicate::Lacks(k) => {},
        Predicate::And(ps) => {
            assert forall|i: int| 0 <= i < ps@.len()
                implies holds(#[trigger] ps@[i], s1, e) == holds(ps@[i], s2, e) by {
                lemma_holds_only_on_presence(ps@[i], s1, s2, e);
            }
        },
        Predicate::Or(ps) => {
            assert forall|i: int| 0 <= i < ps@.len()
                implies holds(#[trigger] ps@[i], s1, e) == holds(ps@[i], s2, e) by {
                lemma_holds_only_on_presence(ps@[i], s1, s2, e);
            }
        },
        Predicate::Not(q) => {
            lemma_holds_only_on_presence(*q, s1, s2, e);
        },
    }
}

/// Storage-hint changes never alter any predicate's result: registering
/// a layout leaves every component untouched (see
/// `Store::register_layout`), and any two stores that agree on every
/// component give every predicate the same truth value on every entity.
pub proof fn lemma_layout_hint_preserves_predicates(p: Predicate, s1: Store, s2: Store, e: Entity)
    requires
        forall|e2: Entity, k: usize| s1.comp(e2, k) == s2.comp(e2, k),
    ensures
        holds(p, s1, e) == holds(p, s2, e),
{
    assert forall|e2: Entity, k: usize| s1.has(e2, k) == s2.has(e2, k) by {
        assert(s1.comp(e2, k) == s2.comp(e2, k));
    }
    lemma_holds_only_on_presence(p, s1, s2, e);
}

} // verus!
