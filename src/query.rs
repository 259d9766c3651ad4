use vstd::prelude::*;

use crate::handle::{Location, ReflectPtr, ReflectType};
use crate::value::BridgeError;
use crate::world::{components_view, find_key, World};

verus! {

/// A filter token: a component type identity, read (`Ref`) or written (`Mut`).
#[derive(Clone, Copy, Debug, PartialEq, Eq, Structural)]
pub enum ComponentType {
    Ref(u64),
    Mut(u64),
}

/// The token that asks for a deferred-mutation sink instead of a query.
#[derive(Clone, Copy, Debug, PartialEq, Eq, Structural)]
pub struct CommandQueueMarker;

/// One entry of a script's parameter table, as the script side hands it over. A filter table
/// holds `None` where an entry is not a filter token.
pub enum ParameterEntry {
    Commands(CommandQueueMarker),
    Filters(Vec<Option<ComponentType>>),
    Other,
}

/// What a behavior asks for: the rows of a query, or a deferred-mutation sink.
pub enum SystemParameter {
    Query(Vec<ComponentType>),
    CommandQueue,
}

pub open spec fn type_of(c: ComponentType) -> u64 {
    match c {
        ComponentType::Ref(t) => t,
        ComponentType::Mut(t) => t,
    }
}

/// The position of the first filter on type `t`, or -1.
pub open spec fn find_filter(fs: Seq<ComponentType>, t: u64, i: int) -> int
    decreases fs.len() - i,
{
    if i < 0 || i >= fs.len() {
        -1
    } else if type_of(fs[i]) == t {
        i
    } else {
        find_filter(fs, t, i + 1)
    }
}

/// The filter set that the first `n` tokens build: in order of first mention, a repeated token
/// counted once, and a type asked for with both modes rejected.
pub open spec fn filters_of(tokens: Seq<Option<ComponentType>>, n: int) -> Result<
    Seq<ComponentType>,
    BridgeError,
>
    decreases n,
{
    if n <= 0 {
        Ok(Seq::empty())
    } else {
        match filters_of(tokens, n - 1) {
            Err(e) => Err(e),
            Ok(acc) => match tokens[n - 1] {
                None => Err(BridgeError::TypeMismatch),
                Some(c) => {
                    let k = find_filter(acc, type_of(c), 0);
                    if k < 0 {
                        Ok(acc.push(c))
                    } else if acc[k] == c {
                        Ok(acc)
                    } else {
                        Err(BridgeError::ConflictingAccessMode)
                    }
                },
            },
        }
    }
}

fn find_filter_exec(fs: &Vec<ComponentType>, t: u64) -> (r: Option<usize>)
    ensures
        match r {
            Some(k) => k < fs.len() && find_filter(fs@, t, 0) == k as int,
            None => find_filter(fs@, t, 0) == -1,
        },
{
    let mut i: usize = 0;
    while i < fs.len()
        invariant
            i <= fs.len(),
            find_filter(fs@, t, 0) == find_filter(fs@, t, i as int),
        decreases fs.len() - i,
    {
        let c = fs[i];
        let ti = match c {
            ComponentType::Ref(x) => x,
            ComponentType::Mut(x) => x,
        };
        if ti == t {
            return Some(i);
        }
        i += 1;
    }
    None
}

/// Turns one entry of a parameter table into a parameter descriptor.
pub fn build_parameter(entry: &ParameterEntry) -> (r: Result<SystemParameter, BridgeError>)
    ensures
        match entry {
            ParameterEntry::Commands(_) => r matches Ok(SystemParameter::CommandQueue),
            ParameterEntry::Other => r == Err::<SystemParameter, BridgeError>(
                BridgeError::TypeMismatch,
            ),
            ParameterEntry::Filters(tokens) => match filters_of(tokens@, tokens.len() as int) {
                Ok(fs) => r is Ok && r->Ok_0 is Query && r->Ok_0->Query_0@ == fs,
                Err(e) => r == Err::<SystemParameter, BridgeError>(e),
            },
        },
{
    match entry {
        ParameterEntry::Commands(_) => Ok(SystemParameter::CommandQueue),
        ParameterEntry::Other => Err(BridgeError::TypeMismatch),
        ParameterEntry::Filters(tokens) => {
            let mut acc: Vec<ComponentType> = Vec::new();
            let mut i: usize = 0;
            while i < tokens.len()
                invariant
                    *entry is Filters,
                    entry->Filters_0 == *tokens,
                    i <= tokens.len(),
                    filters_of(tokens@, i as int) == Ok::<Seq<ComponentType>, BridgeError>(acc@),
                decreases tokens.len() - i,
            {
                match tokens[i] {
                    None => {
                        proof {
                            assert(filters_of(tokens@, i as int + 1) == Err::<Seq<ComponentType>, BridgeError>(BridgeError::TypeMismatch));
                            lemma_filters_error_stays(tokens@, i as int + 1, tokens.len() as int);
                        }
                        return Err(BridgeError::TypeMismatch);
                    },
                    Some(c) => {
                        let t = match c {
                            ComponentType::Ref(x) => x,
                            ComponentType::Mut(x) => x,
                        };
                        match find_filter_exec(&acc, t) {
                            None => {
                                acc.push(c);
                            },
                            Some(k) => {
                                if acc[k] != c {
                                    proof {
                                        assert(filters_of(tokens@, i as int + 1) == Err::<Seq<ComponentType>, BridgeError>(BridgeError::ConflictingAccessMode));
                                        lemma_filters_error_stays(
                                            tokens@,
                                            i as int + 1,
                                            tokens.len() as int,
                                        );
                                    }
                                    return Err(BridgeError::ConflictingAccessMode);
                                }
                            },
                        }
                    },
                }
                i += 1;
            }
            Ok(SystemParameter::Query(acc))
        },
    }
}

/// Once building fails, it fails with the same error however many tokens follow.
pub proof fn lemma_filters_error_stays(tokens: Seq<Option<ComponentType>>, n: int, m: int)
    requires
        0 <= n <= m,
        filters_of(tokens, n) is Err,
    ensures
        filters_of(tokens, m) == filters_of(tokens, n),
    decreases m - n,
{
    if n < m {
        lemma_filters_error_stays(tokens, n, m - 1);
    }
}

/// The first error among `entries` from `i` on, if any.
pub open spec fn first_entry_error(entries: Seq<ParameterEntry>, i: int) -> Option<BridgeError>
    decreases entries.len() - i,
{
    if i < 0 || i >= entries.len() {
        None
    } else {
        match entries[i] {
            ParameterEntry::Commands(_) => first_entry_error(entries, i + 1),
            ParameterEntry::Other => Some(BridgeError::TypeMismatch),
            ParameterEntry::Filters(tokens) => match filters_of(tokens@, tokens.len() as int) {
                Err(e) => Some(e),
                Ok(_) => first_entry_error(entries, i + 1),
            },
        }
    }
}

/// `p` is the descriptor that entry `e` builds.
pub open spec fn built_from(p: SystemParameter, e: ParameterEntry) -> bool {
    match e {
        ParameterEntry::Commands(_) => p is CommandQueue,
        ParameterEntry::Other => false,
        ParameterEntry::Filters(tokens) => match filters_of(tokens@, tokens.len() as int) {
            Ok(fs) => p is Query && p->Query_0@ == fs,
            Err(_) => false,
        },
    }
}

/// Builds a descriptor for each entry, in order; the first failing entry fails the whole table.
pub fn build_parameters(entries: &Vec<ParameterEntry>) -> (r: Result<Vec<SystemParameter>, BridgeError>)
    ensures
        match first_entry_error(entries@, 0) {
            Some(e) => r == Err::<Vec<SystemParameter>, BridgeError>(e),
            None => r is Ok && r->Ok_0.len() == entries.len() && forall|i: int|
                0 <= i < entries.len() ==> built_from(#[trigger] r->Ok_0@[i], entries@[i]),
        },
{
    let mut out: Vec<SystemParameter> = Vec::new();
    let mut i: usize = 0;
    while i < entries.len()
        invariant
            i <= entries.len(),
            out.len() == i,
            first_entry_error(entries@, 0) == first_entry_error(entries@, i as int),
            forall|j: int| 0 <= j < i ==> built_from(#[trigger] out@[j], entries@[j]),
        decreases entries.len() - i,
    {
        match build_parameter(&entries[i]) {
            Err(e) => {
                return Err(e);
            },
            Ok(p) => {
                out.push(p);
            },
        }
        i += 1;
    }
    Ok(out)
}

/// Entity `e` (its components) holds a component of each filtered type.
pub open spec fn has_all(cs: Seq<(u64, crate::value::Val)>, filters: Seq<ComponentType>) -> bool {
    forall|j: int| 0 <= j < filters.len() ==> find_key(cs, type_of(#[trigger] filters[j]), 0) >= 0
}

/// The identities of the entities that a query with `filters` matches, in world order.
pub open spec fn matched(es: Seq<(u64, Seq<(u64, crate::value::Val)>)>, filters: Seq<ComponentType>) -> Seq<u64>
    decreases es.len(),
{
    if es.len() == 0 {
        Seq::empty()
    } else {
        let rest = matched(es.drop_last(), filters);
        if has_all(es.last().1, filters) {
            rest.push(es.last().0)
        } else {
            rest
        }
    }
}

/// `row` holds one handle per filter, in filter order, on entity `id`, at the root, under `g`.
pub open spec fn row_for(row: Seq<ReflectPtr>, id: u64, filters: Seq<ComponentType>, g: usize) -> bool {
    &&& row.len() == filters.len()
    &&& forall|j: int|
        0 <= j < filters.len() ==> {
            &&& (#[trigger] row[j]).data == ReflectType::Ptr(
                Location { entity: id, type_id: type_of(filters[j]) },
            )
            &&& row[j].path@.len() == 0
            &&& row[j].ptr_state == g
        }
}

/// The rows that one query evaluation produced, consumed front to back.
pub struct IteratorState {
    pub components: Vec<Vec<ReflectPtr>>,
    pub ptr_state: usize,
}

/// `it` holds, in order, one row for each id of `ids`.
pub open spec fn rows_match(rows: Seq<Vec<ReflectPtr>>, ids: Seq<u64>, filters: Seq<ComponentType>, g: usize) -> bool {
    &&& rows.len() == ids.len()
    &&& forall|i: int| 0 <= i < ids.len() ==> row_for(#[trigger] rows[i]@, ids[i], filters, g)
}

fn has_type(cs: &Vec<crate::world::Component>, t: u64) -> (r: bool)
    ensures
        r == (find_key(components_view(cs@), t, 0) >= 0),
{
    let ghost cv = components_view(cs@);
    let mut c: usize = 0;
    while c < cs.len()
        invariant
            c <= cs.len(),
            cv == components_view(cs@),
            cv.len() == cs.len(),
            find_key(cv, t, 0) == find_key(cv, t, c as int),
        decreases cs.len() - c,
    {
        if cs[c].type_id == t {
            return true;
        }
        c += 1;
    }
    false
}

fn has_all_exec(cs: &Vec<crate::world::Component>, filters: &Vec<ComponentType>) -> (r: bool)
    ensures
        r == has_all(components_view(cs@), filters@),
{
    let mut j: usize = 0;
    while j < filters.len()
        invariant
            j <= filters.len(),
            forall|jj: int|
                0 <= jj < j ==> find_key(components_view(cs@), type_of(#[trigger] filters@[jj]), 0)
                    >= 0,
        decreases filters.len() - j,
    {
        let t = match filters[j] {
            ComponentType::Ref(x) => x,
            ComponentType::Mut(x) => x,
        };
        if !has_type(cs, t) {
            return false;
        }
        j += 1;
    }
    true
}

/// Evaluates a query against the world as it is now: one row per matching entity, in world order.
pub fn materialize(world: &World, filters: &Vec<ComponentType>, g: usize) -> (r: IteratorState)
    ensures
        r.ptr_state == g,
        rows_match(r.components@, matched(world@.entities, filters@), filters@, g),
{
    let ghost es = world@.entities;
    let mut rows: Vec<Vec<ReflectPtr>> = Vec::new();
    let mut i: usize = 0;
    while i < world.entities.len()
        invariant
            i <= world.entities.len(),
            es == world@.entities,
            es.len() == world.entities.len(),
            rows_match(rows@, matched(es.subrange(0, i as int), filters@), filters@, g),
        decreases world.entities.len() - i,
    {
        let e = &world.entities[i];
        proof {
            assert(es.subrange(0, i as int + 1).drop_last() =~= es.subrange(0, i as int));
            assert(es.subrange(0, i as int + 1).last() == es[i as int]);
        }
        if has_all_exec(&e.components, filters) {
            let mut row: Vec<ReflectPtr> = Vec::new();
            let mut j: usize = 0;
            while j < filters.len()
                invariant
                    j <= filters.len(),
                    row.len() == j,
                    forall|jj: int|
                        0 <= jj < j ==> {
                            &&& (#[trigger] row@[jj]).data == ReflectType::Ptr(
                                Location { entity: e.id, type_id: type_of(filters@[jj]) },
                            )
                            &&& row@[jj].path@.len() == 0
                            &&& row@[jj].ptr_state == g
                        },
                decreases filters.len() - j,
            {
                let t = match filters[j] {
                    ComponentType::Ref(x) => x,
                    ComponentType::Mut(x) => x,
                };
                row.push(ReflectPtr::new(Location { entity: e.id, type_id: t }, g));
                j += 1;
            }
            rows.push(row);
        }
        i += 1;
    }
    proof {
        assert(es.subrange(0, es.len() as int) =~= es);
    }
    IteratorState { components: rows, ptr_state: g }
}

impl IteratorState {
    /// The next row, or an empty one once every row has been handed out.
    pub fn next(&mut self) -> (r: Vec<ReflectPtr>)
        ensures
            old(self).components.len() == 0 ==> r@.len() == 0 && final(self).components@ == old(
                self,
            ).components@,
            old(self).components.len() > 0 ==> r@ == old(self).components@[0]@
                && final(self).components@ == old(self).components@.drop_first(),
            final(self).ptr_state == old(self).ptr_state,
    {
        if self.components.len() == 0 {
            return Vec::new();
        }
        let r = self.components.remove(0);
        proof {
            assert(self.components@ =~= old(self).components@.drop_first());
        }
        r
    }

    pub fn remaining(&self) -> (r: usize)
        ensures
            r == self.components.len(),
    {
        self.components.len()
    }
}

} // verus!
