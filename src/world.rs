use vstd::prelude::*;

use crate::value::{HostValue, Val};

verus! {

/// One component of an entity: a struct-shaped host value and its type identity.
pub struct Component {
    pub type_id: u64,
    pub value: HostValue,
}

pub struct Entity {
    pub id: u64,
    pub components: Vec<Component>,
}

/// The host object graph: entities, in the order they were spawned, and their components.
pub struct World {
    pub entities: Vec<Entity>,
    pub next_id: u64,
}

pub ghost struct WorldV {
    pub entities: Seq<(u64, Seq<(u64, Val)>)>,
    pub next_id: u64,
}

pub open spec fn component_view(c: Component) -> (u64, Val) {
    (c.type_id, c.value@)
}

pub open spec fn components_view(cs: Seq<Component>) -> Seq<(u64, Val)> {
    cs.map_values(|c: Component| component_view(c))
}

pub open spec fn entity_view(e: Entity) -> (u64, Seq<(u64, Val)>) {
    (e.id, components_view(e.components@))
}

impl View for World {
    type V = WorldV;

    open spec fn view(&self) -> WorldV {
        WorldV {
            entities: self.entities@.map_values(|e: Entity| entity_view(e)),
            next_id: self.next_id,
        }
    }
}

/// The first position from `i` on whose key is `k`, or -1.
pub open spec fn find_key<A>(s: Seq<(u64, A)>, k: u64, i: int) -> int
    decreases s.len() - i,
{
    if i < 0 || i >= s.len() {
        -1
    } else if s[i].0 == k {
        i
    } else {
        find_key(s, k, i + 1)
    }
}

pub proof fn lemma_find_key_range<A>(s: Seq<(u64, A)>, k: u64, i: int)
    ensures
        find_key(s, k, i) == -1 || (0 <= i <= find_key(s, k, i) < s.len() && s[find_key(
            s,
            k,
            i,
        )].0 == k),
    decreases s.len() - i,
{
    if 0 <= i < s.len() && s[i].0 != k {
        lemma_find_key_range(s, k, i + 1);
    }
}

/// A search by key depends on the keys alone.
pub proof fn lemma_find_key_same_keys<A, B>(a: Seq<(u64, A)>, b: Seq<(u64, B)>, k: u64, i: int)
    requires
        a.len() == b.len(),
        forall|j: int| 0 <= j < a.len() ==> #[trigger] a[j].0 == b[j].0,
    ensures
        find_key(a, k, i) == find_key(b, k, i),
    decreases a.len() - i,
{
    if 0 <= i < a.len() {
        lemma_find_key_same_keys(a, b, k, i + 1);
    }
}

/// The value of component `tid` of entity `id`, if there is one.
pub open spec fn lookup_component(es: Seq<(u64, Seq<(u64, Val)>)>, id: u64, tid: u64) -> Option<
    Val,
> {
    let e = find_key(es, id, 0);
    if e < 0 {
        None
    } else {
        let c = find_key(es[e].1, tid, 0);
        if c < 0 {
            None
        } else {
            Some(es[e].1[c].1)
        }
    }
}

/// Replacing one component's value keeps every other lookup.
pub proof fn lemma_lookup_after_set(
    es: Seq<(u64, Seq<(u64, Val)>)>,
    ei: int,
    ci: int,
    v: Val,
    id: u64,
    tid: u64,
)
    requires
        ei == find_key(es, es[ei].0, 0),
        0 <= ei < es.len(),
        ci == find_key(es[ei].1, es[ei].1[ci].0, 0),
        0 <= ci < es[ei].1.len(),
    ensures
        ({
            let es2 = es.update(ei, (es[ei].0, es[ei].1.update(ci, (es[ei].1[ci].0, v))));
            lookup_component(es2, id, tid) == if id == es[ei].0 && tid == es[ei].1[ci].0 {
                Some(v)
            } else {
                lookup_component(es, id, tid)
            }
        }),
{
    let es2 = es.update(ei, (es[ei].0, es[ei].1.update(ci, (es[ei].1[ci].0, v))));
    lemma_find_key_same_keys(es, es2, id, 0);
    lemma_find_key_range(es, id, 0);
    let e = find_key(es, id, 0);
    if e == ei {
        lemma_find_key_same_keys(es[ei].1, es2[ei].1, tid, 0);
        lemma_find_key_range(es[ei].1, tid, 0);
    }
}

/// `es` with the value of component `tid` of entity `id` replaced by `v`, where there is one.
pub open spec fn set_component(es: Seq<(u64, Seq<(u64, Val)>)>, id: u64, tid: u64, v: Val) -> Seq<
    (u64, Seq<(u64, Val)>),
> {
    let e = find_key(es, id, 0);
    if e < 0 {
        es
    } else {
        let c = find_key(es[e].1, tid, 0);
        if c < 0 {
            es
        } else {
            es.update(e, (es[e].0, es[e].1.update(c, (es[e].1[c].0, v))))
        }
    }
}

/// Replacing a component's value keeps the world well formed.
pub proof fn lemma_set_component_wf(w: WorldV, id: u64, tid: u64, v: Val)
    requires
        world_wf(w),
    ensures
        world_wf(WorldV { entities: set_component(w.entities, id, tid, v), next_id: w.next_id }),
{
    let es = w.entities;
    lemma_find_key_range(es, id, 0);
    let e = find_key(es, id, 0);
    if e >= 0 {
        lemma_find_key_range(es[e].1, tid, 0);
        let c = find_key(es[e].1, tid, 0);
        if c >= 0 {
            let es2 = set_component(es, id, tid, v);
            assert forall|i: int| 0 <= i < es2.len() implies distinct_keys(#[trigger] es2[i].1) by {
                if i == e {
                    assert forall|a: int, b: int|
                        0 <= a < es2[i].1.len() && 0 <= b < es2[i].1.len() && a != b implies #[trigger] es2[i].1[a].0
                        != #[trigger] es2[i].1[b].0 by {
                        assert(es2[i].1[a].0 == es[i].1[a].0);
                        assert(es2[i].1[b].0 == es[i].1[b].0);
                    }
                }
            }
            assert forall|i: int, j: int|
                0 <= i < es2.len() && 0 <= j < es2.len() && i != j implies #[trigger] es2[i].0
                != #[trigger] es2[j].0 by {
                assert(es2[i].0 == es[i].0);
                assert(es2[j].0 == es[j].0);
            }
            assert forall|i: int| 0 <= i < es2.len() implies #[trigger] es2[i].0 < w.next_id by {
                assert(es2[i].0 == es[i].0);
            }
        }
    }
}

/// No two entries of `s` share a key.
pub open spec fn distinct_keys<A>(s: Seq<(u64, A)>) -> bool {
    forall|i: int, j: int| 0 <= i < s.len() && 0 <= j < s.len() && i != j ==> #[trigger] s[i].0
        != #[trigger] s[j].0
}

/// Entity identities are unique and below the next one to hand out, and no entity has two
/// components of one type.
pub open spec fn world_wf(w: WorldV) -> bool {
    &&& distinct_keys(w.entities)
    &&& forall|i: int| 0 <= i < w.entities.len() ==> #[trigger] w.entities[i].0 < w.next_id
    &&& forall|i: int| 0 <= i < w.entities.len() ==> distinct_keys(#[trigger] w.entities[i].1)
}

/// With unique keys, a search by an entry's key finds that entry.
pub proof fn lemma_find_key_unique<A>(s: Seq<(u64, A)>, k: int)
    requires
        distinct_keys(s),
        0 <= k < s.len(),
    ensures
        find_key(s, s[k].0, 0) == k,
{
    lemma_find_key_range(s, s[k].0, 0);
    lemma_find_key_skips(s, s[k].0, 0, k);
}

/// A search from `i` finds nothing before `k` when no key before `k` matches.
proof fn lemma_find_key_skips<A>(s: Seq<(u64, A)>, key: u64, i: int, k: int)
    requires
        0 <= i <= k < s.len(),
        s[k].0 == key,
        forall|j: int| i <= j < k ==> #[trigger] s[j].0 != key,
    ensures
        find_key(s, key, i) == k,
    decreases k - i,
{
    if i < k {
        lemma_find_key_skips(s, key, i + 1, k);
    }
}

fn distinct_types(cs: &Vec<Component>) -> (r: bool)
    ensures
        r == distinct_keys(components_view(cs@)),
{
    let ghost cv = components_view(cs@);
    let mut i: usize = 0;
    while i < cs.len()
        invariant
            i <= cs.len(),
            cv == components_view(cs@),
            cv.len() == cs.len(),
            forall|a: int, b: int| 0 <= a < i && 0 <= b < cs.len() && a != b ==> #[trigger] cv[a].0
                != #[trigger] cv[b].0,
        decreases cs.len() - i,
    {
        let mut j: usize = 0;
        while j < cs.len()
            invariant
                i < cs.len(),
                j <= cs.len(),
                cv == components_view(cs@),
                cv.len() == cs.len(),
                forall|a: int, b: int|
                    0 <= a < i && 0 <= b < cs.len() && a != b ==> #[trigger] cv[a].0 != #[trigger] cv[b].0,
                forall|b: int| 0 <= b < j && b != i ==> cv[i as int].0 != #[trigger] cv[b].0,
            decreases cs.len() - j,
        {
            if j != i && cs[i].type_id == cs[j].type_id {
                proof {
                    assert(cv[i as int].0 == cv[j as int].0);
                }
                return false;
            }
            j += 1;
        }
        i += 1;
    }
    true
}

impl World {
    pub fn new() -> (r: World)
        ensures
            r@.entities.len() == 0,
            r@.next_id == 0,
            world_wf(r@),
    {
        World { entities: Vec::new(), next_id: 0 }
    }

    /// Adds an entity with `components`; its identity is the next unused one. Nothing is added
    /// when the identities are used up or when two components share a type.
    pub fn spawn_entity(&mut self, components: Vec<Component>) -> (r: Option<u64>)
        ensures
            old(self).next_id < u64::MAX && distinct_keys(components_view(components@)) ==> {
                &&& r == Some(old(self).next_id)
                &&& final(self)@.entities == old(self)@.entities.push(
                    (old(self).next_id, components_view(components@)),
                )
                &&& final(self)@.next_id == old(self).next_id + 1
            },
            !(old(self).next_id < u64::MAX && distinct_keys(components_view(components@))) ==> r
                is None && final(self)@ == old(self)@,
            world_wf(old(self)@) ==> world_wf(final(self)@),
    {
        if self.next_id == u64::MAX || !distinct_types(&components) {
            return None;
        }
        let id = self.next_id;
        self.entities.push(Entity { id, components });
        self.next_id = self.next_id + 1;
        proof {
            assert(final(self)@.entities =~= old(self)@.entities.push(
                (id, components_view(components@)),
            ));
        }
        Some(id)
    }

    /// Where component `tid` of entity `id` is stored.
    pub fn locate(&self, id: u64, tid: u64) -> (r: Option<(usize, usize)>)
        ensures
            match r {
                Some((ei, ci)) => {
                    &&& ei < self@.entities.len()
                    &&& ei as int == find_key(self@.entities, id, 0)
                    &&& ci < self@.entities[ei as int].1.len()
                    &&& ci as int == find_key(self@.entities[ei as int].1, tid, 0)
                    &&& self@.entities[ei as int].0 == id
                    &&& self@.entities[ei as int].1[ci as int].0 == tid
                    &&& lookup_component(self@.entities, id, tid) == Some(
                        self@.entities[ei as int].1[ci as int].1,
                    )
                },
                None => lookup_component(self@.entities, id, tid) is None,
            },
    {
        let ghost es = self@.entities;
        let mut ei: usize = 0;
        while ei < self.entities.len()
            invariant
                ei <= self.entities.len(),
                es == self@.entities,
                es.len() == self.entities.len(),
                find_key(es, id, 0) == find_key(es, id, ei as int),
            decreases self.entities.len() - ei,
        {
            if self.entities[ei].id == id {
                let cs = &self.entities[ei].components;
                let ghost cv = es[ei as int].1;
                let mut ci: usize = 0;
                while ci < cs.len()
                    invariant
                        ci <= cs.len(),
                        es == self@.entities,
                        ei < self.entities.len(),
                        es[ei as int].0 == id,
                        find_key(es, id, 0) == ei as int,
                        cv == es[ei as int].1,
                        cv == components_view(cs@),
                        cv.len() == cs.len(),
                        find_key(cv, tid, 0) == find_key(cv, tid, ci as int),
                    decreases cs.len() - ci,
                {
                    if cs[ci].type_id == tid {
                        return Some((ei, ci));
                    }
                    ci += 1;
                }
                return None;
            }
            ei += 1;
        }
        None
    }

    /// Puts `v` into the component at (`ei`, `ci`) and hands back what was there.
    pub fn swap_value(&mut self, ei: usize, ci: usize, v: HostValue) -> (r: HostValue)
        requires
            ei < old(self)@.entities.len(),
            ci < old(self)@.entities[ei as int].1.len(),
        ensures
            r@ == old(self)@.entities[ei as int].1[ci as int].1,
            final(self)@.next_id == old(self)@.next_id,
            final(self)@.entities == old(self)@.entities.update(
                ei as int,
                (
                    old(self)@.entities[ei as int].0,
                    old(self)@.entities[ei as int].1.update(
                        ci as int,
                        (old(self)@.entities[ei as int].1[ci as int].0, v@),
                    ),
                ),
            ),
    {
        let mut e = self.entities.remove(ei);
        let c = e.components.remove(ci);
        let Component { type_id, value } = c;
        e.components.insert(ci, Component { type_id, value: v });
        self.entities.insert(ei, e);
        proof {
            let ov = old(self)@.entities;
            assert(components_view(e.components@) =~= ov[ei as int].1.update(
                ci as int,
                (ov[ei as int].1[ci as int].0, v@),
            ));
            assert(final(self)@.entities =~= ov.update(
                ei as int,
                (ov[ei as int].0, ov[ei as int].1.update(ci as int, (ov[ei as int].1[ci as int].0, v@))),
            ));
        }
        value
    }
}

} // verus!
