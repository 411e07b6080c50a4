use vstd::prelude::*;
use crate::components::{Component, ComponentKind};
use crate::world::{Entity, World, WorldError};

verus! {

/// No two values of the sequence are of the same kind.
pub open spec fn distinct_kinds(s: Seq<Component>) -> bool {
    forall|i: int, j: int|
        0 <= i < j < s.len() ==> (#[trigger] s[i]).spec_kind() != (#[trigger] s[j]).spec_kind()
}

/// Every value of the sequence is valid.
pub open spec fn all_valid(s: Seq<Component>) -> bool {
    forall|i: int| 0 <= i < s.len() ==> (#[trigger] s[i]).wf()
}

/// The value of kind `k` in the sequence, if there is one.
pub open spec fn value_of(s: Seq<Component>, k: ComponentKind) -> Option<Component> {
    if exists|i: int| 0 <= i < s.len() && (#[trigger] s[i]).spec_kind() == k {
        Some(s[choose|i: int| 0 <= i < s.len() && (#[trigger] s[i]).spec_kind() == k])
    } else {
        None
    }
}

/// A blueprint for entities: at most one component value of each kind, in
/// the order in which the kinds were first added.
pub struct EntityTemplate {
    components: Vec<Component>,
}

impl EntityTemplate {
    #[verifier::type_invariant]
    spec fn inv(self) -> bool {
        distinct_kinds(self.components@) && all_valid(self.components@)
    }

    /// The component values, in order.
    pub closed spec fn view(self) -> Seq<Component> {
        self.components@
    }

    /// The value of kind `k` that this template carries, if any.
    pub open spec fn get(self, k: ComponentKind) -> Option<Component> {
        value_of(self@, k)
    }

    /// What applying this template to `e` makes of the world `before`: `e`
    /// carries every value of the template, in place of whatever it carried
    /// of those kinds, and nothing else differs.
    pub open spec fn applied(self, before: World, after: World, e: Entity) -> bool {
        &&& after.wf()
        &&& after.count() == before.count()
        &&& after.same_mechanisms(before)
        &&& forall|o: Entity, k: ComponentKind| #[trigger]
            after.component(o, k) == if o == e && self.get(k) is Some {
                self.get(k)
            } else {
                before.component(o, k)
            }
    }

    /// The empty template.
    pub fn new() -> (t: EntityTemplate)
        ensures
            t@.len() == 0,
    {
        EntityTemplate { components: Vec::new() }
    }

    pub fn len(&self) -> (n: usize)
        ensures
            n == self@.len(),
    {
        self.components.len()
    }

    /// The value at position `i`.
    pub fn component_at(&self, i: usize) -> (c: Component)
        requires
            i < self@.len(),
        ensures
            c == self@[i as int],
            c.wf(),
    {
        proof {
            use_type_invariant(self);
        }
        self.components[i]
    }

    /// Where the value of kind `kind` stands, if the template has one.
    pub fn position(&self, kind: ComponentKind) -> (r: Option<usize>)
        ensures
            r is Some <==> self.get(kind) is Some,
            r matches Some(i) ==> i < self@.len() && self@[i as int].spec_kind() == kind
                && self.get(kind) == Some(self@[i as int]) && self@[i as int].wf(),
    {
        proof {
            use_type_invariant(self);
        }
        let mut i: usize = 0;
        while i < self.components.len()
            invariant
                i <= self.components.len(),
                distinct_kinds(self.components@),
                all_valid(self.components@),
                forall|j: int| 0 <= j < i ==> (#[trigger] self.components@[j]).spec_kind() != kind,
            decreases self.components.len() - i,
        {
            if self.components[i].kind() == kind {
                proof {
                    let s = self.components@;
                    let w = choose|w: int| 0 <= w < s.len() && (#[trigger] s[w]).spec_kind() == kind;
                    assert(w == i) by {
                        if w < i {
                            assert(s[w].spec_kind() != s[i as int].spec_kind());
                        } else if i < w {
                            assert(s[i as int].spec_kind() != s[w].spec_kind());
                        }
                    }
                }
                return Some(i);
            }
            i += 1;
        }
        None
    }

    /// Adds `component`, in place of the value of the same kind if the
    /// template has one, else at the end.
    pub fn add_component(&mut self, component: Component)
        requires
            component.wf(),
        ensures
            old(self).get(component.spec_kind()) is None ==> final(self)@ == old(self)@.push(
                component,
            ),
            old(self).get(component.spec_kind()) is Some ==> exists|i: int|
                0 <= i < old(self)@.len() && (#[trigger] old(self)@[i]).spec_kind()
                    == component.spec_kind() && final(self)@ == old(self)@.update(i, component),
            forall|k: ComponentKind| #[trigger]
                final(self).get(k) == if k == component.spec_kind() {
                    Some(component)
                } else {
                    old(self).get(k)
                },
    {
        proof {
            use_type_invariant(&*self);
        }
        let ghost before = self.components@;
        match self.position(component.kind()) {
            Some(i) => {
                proof {
                    let after = before.update(i as int, component);
                    assert forall|a: int, b: int| 0 <= a < b < after.len() implies (
                    #[trigger] after[a]).spec_kind() != (#[trigger] after[b]).spec_kind() by {
                        assert(before[a].spec_kind() != before[b].spec_kind());
                    }
                    lemma_value_of_update(before, i as int, component);
                }
                let mut values: Vec<Component> = Vec::new();
                std::mem::swap(&mut values, &mut self.components);
                values[i] = component;
                std::mem::swap(&mut values, &mut self.components);
            },
            None => {
                let mut values: Vec<Component> = Vec::new();
                std::mem::swap(&mut values, &mut self.components);
                values.push(component);
                proof {
                    let after = values@;
                    assert(after == before.push(component));
                    assert forall|a: int, b: int| 0 <= a < b < after.len() implies (
                    #[trigger] after[a]).spec_kind() != (#[trigger] after[b]).spec_kind() by {
                        if b < before.len() {
                            assert(before[a].spec_kind() != before[b].spec_kind());
                        } else {
                            assert(before[a].spec_kind() != component.spec_kind());
                        }
                    }
                    lemma_value_of_push(before, component);
                }
                std::mem::swap(&mut values, &mut self.components);
            },
        }
    }

    /// This template with `component` added.
    pub fn with_component(self, component: Component) -> (t: EntityTemplate)
        requires
            component.wf(),
        ensures
            forall|k: ComponentKind| #[trigger]
                t.get(k) == if k == component.spec_kind() {
                    Some(component)
                } else {
                    self.get(k)
                },
    {
        let mut t = self;
        t.add_component(component);
        t
    }

    /// Gives `entity` every value of this template. Fails when the template
    /// holds a value and the entity is not alive; the world is then left as
    /// it was.
    pub fn add_to_entity(&self, entity: Entity, world: &mut World) -> (r: Result<(), WorldError>)
        requires
            old(world).wf(),
        ensures
            r is Ok <==> old(world).spec_is_alive(entity) || self@.len() == 0,
            r is Err ==> *final(world) == *old(world),
            r is Ok ==> self.applied(*old(world), *final(world), entity),
            old(world).moving_wf() ==> final(world).moving_wf(),
    {
        proof {
            use_type_invariant(self);
        }
        if self.components.len() == 0 {
            return Ok(());
        }
        if !world.is_alive(entity) {
            return Err(WorldError::NoSuchEntity);
        }
        let mut i: usize = 0;
        while i < self.components.len()
            invariant
                i <= self.components.len(),
                distinct_kinds(self.components@),
                all_valid(self.components@),
                world.wf(),
                old(world).moving_wf() ==> world.moving_wf(),
                world.count() == old(world).count(),
                world.same_mechanisms(*old(world)),
                world.spec_is_alive(entity),
                forall|o: Entity, k: ComponentKind| #[trigger]
                    world.component(o, k) == if o == entity && value_of(
                        self.components@.take(i as int),
                        k,
                    ) is Some {
                        value_of(self.components@.take(i as int), k)
                    } else {
                        old(world).component(o, k)
                    },
            decreases self.components.len() - i,
        {
            let c = self.components[i];
            let r = world.insert(entity, c);
            assert(r is Ok);
            proof {
                let s = self.components@;
                let head = s.take(i as int);
                assert(s.take(i as int + 1) == head.push(c));
                assert(distinct_kinds(head.push(c))) by {
                    assert forall|a: int, b: int| 0 <= a < b < head.push(c).len() implies (
                    #[trigger] head.push(c)[a]).spec_kind() != (#[trigger] head.push(
                        c,
                    )[b]).spec_kind() by {
                        assert(s[a].spec_kind() != s[b].spec_kind());
                    }
                }
                assert(value_of(head, c.spec_kind()) is None) by {
                    if value_of(head, c.spec_kind()) is Some {
                        let w = choose|w: int|
                            0 <= w < head.len() && (#[trigger] head[w]).spec_kind()
                                == c.spec_kind();
                        assert(s[w].spec_kind() != s[i as int].spec_kind());
                    }
                }
                lemma_value_of_push(head, c);
            }
            i += 1;
        }
        assert(self.components@.take(i as int) == self.components@);
        Ok(())
    }
}

/// Adding a value of a kind that is not yet there: lookups of that kind now
/// find it, and all others are as before.
pub proof fn lemma_value_of_push(s: Seq<Component>, c: Component)
    requires
        distinct_kinds(s),
        value_of(s, c.spec_kind()) is None,
    ensures
        forall|k: ComponentKind| #[trigger]
            value_of(s.push(c), k) == if k == c.spec_kind() {
                Some(c)
            } else {
                value_of(s, k)
            },
{
    let t = s.push(c);
    assert forall|k: ComponentKind| #[trigger]
        value_of(t, k) == if k == c.spec_kind() {
            Some(c)
        } else {
            value_of(s, k)
        } by {
        if k == c.spec_kind() {
            assert(t[s.len() as int].spec_kind() == k);
            let w = choose|w: int| 0 <= w < t.len() && (#[trigger] t[w]).spec_kind() == k;
            if w < s.len() {
                assert(s[w].spec_kind() == k);
            }
        } else if value_of(s, k) is Some {
            let v = choose|v: int| 0 <= v < s.len() && (#[trigger] s[v]).spec_kind() == k;
            assert(t[v].spec_kind() == k);
            let w = choose|w: int| 0 <= w < t.len() && (#[trigger] t[w]).spec_kind() == k;
            assert(w < s.len());
            if w < v {
                assert(s[w].spec_kind() != s[v].spec_kind());
            } else if v < w {
                assert(s[v].spec_kind() != s[w].spec_kind());
            }
        } else {
            if value_of(t, k) is Some {
                let w = choose|w: int| 0 <= w < t.len() && (#[trigger] t[w]).spec_kind() == k;
                assert(s[w].spec_kind() == k);
            }
        }
    }
}

/// Putting a value in the place of the one of its kind: lookups of that kind
/// now find it, and all others are as before.
pub proof fn lemma_value_of_update(s: Seq<Component>, i: int, c: Component)
    requires
        distinct_kinds(s),
        0 <= i < s.len(),
        s[i].spec_kind() == c.spec_kind(),
    ensures
        forall|k: ComponentKind| #[trigger]
            value_of(s.update(i, c), k) == if k == c.spec_kind() {
                Some(c)
            } else {
                value_of(s, k)
            },
{
    let t = s.update(i, c);
    assert forall|k: ComponentKind| #[trigger]
        value_of(t, k) == if k == c.spec_kind() {
            Some(c)
        } else {
            value_of(s, k)
        } by {
        if k == c.spec_kind() {
            assert(t[i].spec_kind() == k);
            let w = choose|w: int| 0 <= w < t.len() && (#[trigger] t[w]).spec_kind() == k;
            if w < i {
                assert(s[w].spec_kind() != s[i].spec_kind());
            } else if i < w {
                assert(s[i].spec_kind() != s[w].spec_kind());
            }
        } else if value_of(s, k) is Some {
            let v = choose|v: int| 0 <= v < s.len() && (#[trigger] s[v]).spec_kind() == k;
            assert(t[v].spec_kind() == k);
            let w = choose|w: int| 0 <= w < t.len() && (#[trigger] t[w]).spec_kind() == k;
            assert(s[w].spec_kind() == k);
            if w < v {
                assert(s[w].spec_kind() != s[v].spec_kind());
            } else if v < w {
                assert(s[v].spec_kind() != s[w].spec_kind());
            }
        } else {
            if value_of(t, k) is Some {
                let w = choose|w: int| 0 <= w < t.len() && (#[trigger] t[w]).spec_kind() == k;
                assert(s[w].spec_kind() == k);
            }
        }
    }
}

/// Applying one template to two bare entities leaves them with equal
/// components, kind for kind.
pub proof fn lemma_same_template_same_components(
    t: EntityTemplate,
    w0: World,
    w1: World,
    w2: World,
    a: Entity,
    b: Entity,
)
    requires
        w0.wf(),
        w0.is_bare(a),
        w0.is_bare(b),
        a != b,
        t.applied(w0, w1, a),
        t.applied(w1, w2, b),
    ensures
        forall|k: ComponentKind| #[trigger] w2.component(a, k) == w2.component(b, k),
{
    assert forall|k: ComponentKind| #[trigger] w2.component(a, k) == w2.component(b, k) by {
        assert(w0.component(a, k) is None);
        assert(w0.component(b, k) is None);
        assert(w1.component(a, k) == if t.get(k) is Some {
            t.get(k)
        } else {
            w0.component(a, k)
        });
        assert(w1.component(b, k) == w0.component(b, k));
        assert(w2.component(a, k) == w1.component(a, k));
    }
}

} // verus!
