use vstd::prelude::*;

verus! {

/// An animated object that contributes line geometry to each frame. Its
/// implementations live with the application.
pub trait Entity {
    /// The vertex type of the entity's line geometry.
    type Vertex;

    /// `after` is this entity advanced by `dt_micros` microseconds. An
    /// implementation that states nothing about its steps keeps this default.
    open spec fn stepped(&self, dt_micros: u64, after: &Self) -> bool {
        true
    }

    /// `lines` is this entity's line geometry in its current state, two
    /// vertices per segment. An implementation that states nothing about its
    /// geometry keeps this default.
    open spec fn yields(&self, lines: Seq<Self::Vertex>) -> bool {
        true
    }

    /// Advances the entity's state by `dt_micros` microseconds.
    fn update(&mut self, dt_micros: u64)
        ensures
            old(self).stepped(dt_micros, &*final(self)),
    ;

    /// A fresh copy of the entity's line geometry; changes nothing.
    fn line_vertices(&self) -> (r: Vec<Self::Vertex>)
        ensures
            self.yields(r@),
    ;
}

/// The parts concatenated in order.
pub open spec fn concat<V>(parts: Seq<Seq<V>>) -> Seq<V>
    decreases parts.len(),
{
    if parts.len() == 0 {
        Seq::empty()
    } else {
        concat(parts.drop_last()) + parts.last()
    }
}

/// No parts concatenate to nothing, and one more part lands after all the
/// others, whole.
pub proof fn lemma_concat<V>(parts: Seq<Seq<V>>, part: Seq<V>)
    ensures
        concat(Seq::<Seq<V>>::empty()) == Seq::<V>::empty(),
        concat(parts.push(part)) == concat(parts) + part,
        concat(parts.push(part)).len() == concat(parts).len() + part.len(),
{
    assert(parts.push(part).drop_last() =~= parts);
}

/// Owns a set of entities in insertion order, and updates and collects them
/// in that order.
pub struct EntityManager<E: Entity> {
    pub entities: Vec<E>,
}

impl<E: Entity> EntityManager<E> {
    /// A manager with no entities.
    pub fn new() -> (r: Self)
        ensures
            r.entities@ == Seq::<E>::empty(),
    {
        EntityManager { entities: Vec::new() }
    }

    /// Takes ownership of `entity`, after all the others.
    pub fn add_entity(&mut self, entity: E)
        ensures
            final(self).entities@ == old(self).entities@.push(entity),
    {
        self.entities.push(entity);
    }

    /// Updates every entity once with `dt_micros`, in insertion order; each
    /// stays in its place.
    pub fn update_all(&mut self, dt_micros: u64)
        ensures
            final(self).entities@.len() == old(self).entities@.len(),
            forall|i: int|
                0 <= i < old(self).entities@.len() ==> old(self).entities@[i].stepped(
                    dt_micros,
                    &final(self).entities@[i],
                ),
    {
        let n = self.entities.len();
        let mut i: usize = 0;
        while i < n
            invariant
                i <= n,
                self.entities@.len() == n,
                old(self).entities@.len() == n,
                forall|j: int|
                    0 <= j < i ==> old(self).entities@[j].stepped(dt_micros, &self.entities@[j]),
                forall|j: int| i <= j < n ==> self.entities@[j] == old(self).entities@[j],
            decreases n - i,
        {
            self.entities[i].update(dt_micros);
            i = i + 1;
        }
    }

    /// The line geometry of all entities, concatenated in insertion order:
    /// one part per entity, each the geometry that entity yields.
    pub fn collect_all_lines(&self) -> (r: Vec<E::Vertex>)
        ensures
            exists|parts: Seq<Seq<E::Vertex>>|
                {
                    &&& parts.len() == self.entities@.len()
                    &&& forall|i: int|
                        0 <= i < parts.len() ==> #[trigger] self.entities@[i].yields(parts[i])
                    &&& r@ == concat(parts)
                },
    {
        let mut all: Vec<E::Vertex> = Vec::new();
        let ghost mut parts: Seq<Seq<E::Vertex>> = Seq::empty();
        let mut i: usize = 0;
        while i < self.entities.len()
            invariant
                i <= self.entities@.len(),
                parts.len() == i,
                forall|j: int| 0 <= j < i ==> #[trigger] self.entities@[j].yields(parts[j]),
                all@ == concat(parts),
            decreases self.entities@.len() - i,
        {
            let mut more = self.entities[i].line_vertices();
            proof {
                lemma_concat(parts, more@);
                parts = parts.push(more@);
            }
            all.append(&mut more);
            i = i + 1;
        }
        all
    }
}

/// An entity whose geometry is one fixed sequence for a given state: what
/// `collect_all_lines` returns is then that of each entity, in order.
pub proof fn lemma_collect_determined<E: Entity>(es: Seq<E>, parts: Seq<Seq<E::Vertex>>, exact: Seq<Seq<E::Vertex>>)
    requires
        parts.len() == es.len(),
        exact.len() == es.len(),
        forall|i: int| 0 <= i < es.len() ==> #[trigger] es[i].yields(parts[i]),
        forall|i: int, l: Seq<E::Vertex>|
            0 <= i < es.len() && #[trigger] es[i].yields(l) ==> l == exact[i],
    ensures
        concat(parts) == concat(exact),
{
    assert forall|i: int| 0 <= i < parts.len() implies parts[i] == exact[i] by {
        assert(es[i].yields(parts[i]));
    }
    assert(parts =~= exact);
}

} // verus!
