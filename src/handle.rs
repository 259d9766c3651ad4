use vstd::prelude::*;

use crate::value::{
    coerce, coerce_spec, copy_value, path_view, replace_at, resolve,
    resolve_ref, update, BridgeError, HostValue, Incoming, IncomingV, Val,
};
use crate::world::{
    lemma_lookup_after_set, lemma_set_component_wf, lookup_component, set_component, world_wf,
    World, WorldV,
};

verus! {

/// Whether the memory behind a set of handles may still be reached.
#[derive(Clone, Copy, Debug, PartialEq, Eq, Structural)]
pub enum PtrState {
    Valid,
    Invalid,
}

/// A component of a live entity: the entity's identity and the component's type identity.
#[derive(Clone, Copy, Debug, PartialEq, Eq, Structural)]
pub struct Location {
    pub entity: u64,
    pub type_id: u64,
}

/// What a handle stands on: a component in the world, or a value that it owns.
#[derive(Clone, Copy, Debug, PartialEq, Eq, Structural)]
pub enum ReflectType {
    Ptr(Location),
    Boxed(usize),
}

/// A reflective handle: a backing, a field path below it, and the guard that it obeys.
pub struct ReflectPtr {
    pub data: ReflectType,
    pub path: Vec<String>,
    pub ptr_state: usize,
}

/// A dynamically typed value of the script side.
pub enum ScriptValue {
    Nil,
    Bool(bool),
    /// A script integer, with the bit patterns of its nearest 64-bit and 32-bit floats, so that
    /// it can go into a field of either float kind.
    Int { value: i64, wide: u64, narrow: u32 },
    /// A script number, by the bit patterns of its 64-bit value and of that value rounded to
    /// 32 bits, and its value truncated toward zero to a 64-bit integer, saturating at the
    /// bounds, so that it can be narrowed into an integer field.
    Number { wide: u64, narrow: u32, truncated: i64 },
    Str(String),
    Table,
    Function,
    Thread,
    Handle(ReflectPtr),
}

/// What reading through a handle yields; an aggregate stays behind the handle.
pub enum ReadValue {
    Bool(bool),
    Int(i64),
    Float32(u32),
    Float64(u64),
    Text(String),
    Aggregate(u64),
    /// A value of a kind that the bridge does not carry, by its type identity.
    Opaque(u64),
}

pub ghost enum ReadV {
    Bool(bool),
    Int(i64),
    Float32(u32),
    Float64(u64),
    Text(Seq<char>),
    Aggregate(u64),
    Opaque(u64),
}

impl View for ReadValue {
    type V = ReadV;

    open spec fn view(&self) -> ReadV {
        match *self {
            ReadValue::Bool(b) => ReadV::Bool(b),
            ReadValue::Int(i) => ReadV::Int(i),
            ReadValue::Float32(x) => ReadV::Float32(x),
            ReadValue::Float64(x) => ReadV::Float64(x),
            ReadValue::Text(s) => ReadV::Text(s@),
            ReadValue::Aggregate(t) => ReadV::Aggregate(t),
            ReadValue::Opaque(t) => ReadV::Opaque(t),
        }
    }
}

pub open spec fn read_view(v: Val) -> ReadV {
    match v {
        Val::Bool(b) => ReadV::Bool(b),
        Val::Int32(i) => ReadV::Int(i as i64),
        Val::Int64(i) => ReadV::Int(i),
        Val::Float32(x) => ReadV::Float32(x),
        Val::Float64(x) => ReadV::Float64(x),
        Val::Text(s) => ReadV::Text(s),
        Val::Opaque(t) => ReadV::Opaque(t),
        Val::Record(t, _) => ReadV::Aggregate(t),
    }
}

/// The storage that handles reach: the world, the guards, and the values that handles own.
pub struct Host {
    pub world: World,
    pub ptr_states: Vec<PtrState>,
    pub owned: Vec<Option<HostValue>>,
}

pub open spec fn guard_valid(h: Host, g: usize) -> bool {
    g < h.ptr_states.len() && h.ptr_states@[g as int] == PtrState::Valid
}

/// The whole value behind a backing, if it is still there.
pub open spec fn backing_val(h: Host, d: ReflectType) -> Option<Val> {
    match d {
        ReflectType::Ptr(l) => lookup_component(h.world@.entities, l.entity, l.type_id),
        ReflectType::Boxed(s) => if s < h.owned.len() && h.owned@[s as int] is Some {
            Some(h.owned@[s as int]->0@)
        } else {
            None
        },
    }
}

impl ReflectPtr {
    pub open spec fn path_v(&self) -> Seq<Seq<char>> {
        path_view(self.path@)
    }
}

/// What `path` below backing `d`, under guard `g`, reaches, or why it reaches nothing.
pub open spec fn value_at(h: Host, d: ReflectType, g: usize, path: Seq<Seq<char>>) -> Result<
    Val,
    BridgeError,
> {
    if !guard_valid(h, g) {
        Err(BridgeError::UseAfterInvalidation)
    } else {
        match backing_val(h, d) {
            None => Err(BridgeError::UseAfterInvalidation),
            Some(root) => resolve(root, path),
        }
    }
}

/// What a handle reaches, or why it reaches nothing.
pub open spec fn handle_value(h: Host, p: ReflectPtr) -> Result<Val, BridgeError> {
    value_at(h, p.data, p.ptr_state, p.path_v())
}

pub open spec fn read_spec(h: Host, p: ReflectPtr) -> Result<ReadV, BridgeError> {
    match handle_value(h, p) {
        Ok(v) => Ok(read_view(v)),
        Err(e) => Err(e),
    }
}

/// What an assigned script value turns into, once a source handle is resolved.
pub open spec fn incoming_spec(h: Host, v: ScriptValue) -> Result<IncomingV, BridgeError> {
    match v {
        ScriptValue::Bool(b) => Ok(IncomingV::Bool(b)),
        ScriptValue::Int { value, wide, narrow } => Ok(IncomingV::Int(value, wide, narrow)),
        ScriptValue::Number { wide, narrow, truncated } => Ok(IncomingV::Number(wide, narrow, truncated)),
        ScriptValue::Handle(src) => match handle_value(h, src) {
            Ok(sv) => Ok(IncomingV::Copy(sv)),
            Err(e) => Err(e),
        },
        _ => Ok(IncomingV::Unsupported),
    }
}

/// The whole value behind backing `d` after `v` is written at `path` below it, or the failure.
pub open spec fn write_at(h: Host, d: ReflectType, g: usize, path: Seq<Seq<char>>, v: ScriptValue) -> Result<Val, BridgeError> {
    if !guard_valid(h, g) {
        Err(BridgeError::UseAfterInvalidation)
    } else {
        match backing_val(h, d) {
            None => Err(BridgeError::UseAfterInvalidation),
            Some(root) => match resolve(root, path) {
                Err(e) => Err(e),
                Ok(target) => match incoming_spec(h, v) {
                    Err(e) => Err(e),
                    Ok(inc) => match coerce_spec(target, inc) {
                        Err(e) => Err(e),
                        Ok(nv) => Ok(update(root, path, nv)),
                    },
                },
            },
        }
    }
}

/// The whole value behind `p`'s backing after `v` is written through `p`, or the failure.
pub open spec fn write_spec(h: Host, p: ReflectPtr, v: ScriptValue) -> Result<Val, BridgeError> {
    write_at(h, p.data, p.ptr_state, p.path_v(), v)
}

/// `b` is `a` with the value behind backing `d` replaced by `root`, and nothing else changed.
pub open spec fn replaced_backing(a: Host, b: Host, d: ReflectType, root: Val) -> bool {
    &&& b.ptr_states@ == a.ptr_states@
    &&& match d {
        ReflectType::Ptr(l) => {
            &&& b.world@ == WorldV {
                entities: set_component(a.world@.entities, l.entity, l.type_id, root),
                next_id: a.world@.next_id,
            }
            &&& b.owned@ == a.owned@
        },
        ReflectType::Boxed(s) => {
            &&& b.world@ == a.world@
            &&& s < a.owned.len()
            &&& b.owned@.len() == a.owned@.len()
            &&& forall|i: int| 0 <= i < a.owned@.len() && i != s ==> #[trigger] b.owned@[i] == a.owned@[i]
            &&& b.owned@[s as int] is Some
            &&& b.owned@[s as int]->0@ == root
        },
    }
    &&& backing_val(b, d) == Some(root)
    &&& forall|d2: ReflectType| d2 != d ==> #[trigger] backing_val(b, d2) == backing_val(a, d2)
}

/// Invalid guards stay invalid, and guards are only ever added.
pub open spec fn guards_kept(a: Host, b: Host) -> bool {
    &&& a.ptr_states.len() <= b.ptr_states.len()
    &&& forall|g: int|
        0 <= g < a.ptr_states.len() && a.ptr_states@[g] == PtrState::Invalid ==> #[trigger] b.ptr_states@[g]
            == PtrState::Invalid
}

impl Host {
    pub fn new(world: World) -> (r: Host)
        ensures
            r.world@ == world@,
            r.ptr_states@.len() == 0,
            r.owned@.len() == 0,
    {
        Host { world, ptr_states: Vec::new(), owned: Vec::new() }
    }

    /// A fresh guard, valid until it is invalidated.
    pub fn new_ptr_state(&mut self) -> (g: usize)
        ensures
            g == old(self).ptr_states.len(),
            final(self).ptr_states@ == old(self).ptr_states@.push(PtrState::Valid),
            final(self).world@ == old(self).world@,
            final(self).owned@ == old(self).owned@,
    {
        let g = self.ptr_states.len();
        self.ptr_states.push(PtrState::Valid);
        g
    }

    /// Marks guard `g` invalid; it never becomes valid again.
    pub fn invalidate(&mut self, g: usize)
        ensures
            g < old(self).ptr_states.len() ==> final(self).ptr_states@ == old(
                self,
            ).ptr_states@.update(g as int, PtrState::Invalid),
            g >= old(self).ptr_states.len() ==> final(self).ptr_states@ == old(self).ptr_states@,
            final(self).world@ == old(self).world@,
            final(self).owned@ == old(self).owned@,
    {
        if g < self.ptr_states.len() {
            self.ptr_states.set(g, PtrState::Invalid);
        }
    }

    pub fn is_valid(&self, g: usize) -> (r: bool)
        ensures
            r == guard_valid(*self, g),
    {
        g < self.ptr_states.len() && self.ptr_states[g] == PtrState::Valid
    }

    /// Takes sole ownership of `v`; a handle on the returned slot reaches it.
    pub fn adopt(&mut self, v: HostValue) -> (slot: usize)
        ensures
            slot == old(self).owned.len(),
            final(self).owned@ == old(self).owned@.push(Some(v)),
            final(self).world@ == old(self).world@,
            final(self).ptr_states@ == old(self).ptr_states@,
    {
        let slot = self.owned.len();
        self.owned.push(Some(v));
        slot
    }

    /// Takes the value out of an owned slot, leaving it empty.
    pub fn take_owned(&mut self, slot: usize) -> (r: Option<HostValue>)
        ensures
            r == if slot < old(self).owned.len() {
                old(self).owned@[slot as int]
            } else {
                None
            },
            slot < old(self).owned.len() ==> final(self).owned@ == old(self).owned@.update(
                slot as int,
                None,
            ),
            slot >= old(self).owned.len() ==> final(self).owned@ == old(self).owned@,
            final(self).world@ == old(self).world@,
            final(self).ptr_states@ == old(self).ptr_states@,
    {
        if slot < self.owned.len() {
            let r = self.owned.remove(slot);
            self.owned.insert(slot, None);
            proof {
                assert(self.owned@ =~= old(self).owned@.update(slot as int, None));
            }
            r
        } else {
            None
        }
    }

    /// Drops every owned value; the slots stay, empty, so that no slot is ever reused.
    pub fn release_owned(&mut self)
        ensures
            final(self).owned@.len() == old(self).owned@.len(),
            forall|i: int| 0 <= i < final(self).owned@.len() ==> #[trigger] final(self).owned@[i] is None,
            final(self).world@ == old(self).world@,
            final(self).ptr_states@ == old(self).ptr_states@,
    {
        let mut i: usize = 0;
        while i < self.owned.len()
            invariant
                i <= self.owned.len(),
                self.owned@.len() == old(self).owned@.len(),
                forall|j: int| 0 <= j < i ==> #[trigger] self.owned@[j] is None,
                self.world@ == old(self).world@,
                self.ptr_states@ == old(self).ptr_states@,
            decreases self.owned.len() - i,
        {
            self.owned.set(i, None);
            i += 1;
        }
    }

    /// The whole value behind a backing.
    pub fn backing_ref(&self, d: ReflectType) -> (r: Option<&HostValue>)
        ensures
            match r {
                Some(x) => backing_val(*self, d) == Some(x@),
                None => backing_val(*self, d) is None,
            },
    {
        match d {
            ReflectType::Ptr(l) => match self.world.locate(l.entity, l.type_id) {
                Some((ei, ci)) => Some(&self.world.entities[ei].components[ci].value),
                None => None,
            },
            ReflectType::Boxed(s) => if s < self.owned.len() {
                match &self.owned[s] {
                    Some(v) => Some(v),
                    None => None,
                }
            } else {
                None
            },
        }
    }

    /// Replaces the whole value behind a backing that is there.
    fn put_backing(&mut self, d: ReflectType, v: HostValue, path: &Vec<String>, new: HostValue)
        requires
            backing_val(*old(self), d) is Some,
            resolve(backing_val(*old(self), d)->0, path_view(path@)) is Ok,
        ensures
            replaced_backing(
                *old(self),
                *final(self),
                d,
                update(backing_val(*old(self), d)->0, path_view(path@), new@),
            ),
            world_wf(old(self).world@) ==> world_wf(final(self).world@),
    {
        let ghost root = backing_val(*self, d)->0;
        let ghost nr = update(root, path_view(path@), new@);
        match d {
            ReflectType::Ptr(l) => {
                match self.world.locate(l.entity, l.type_id) {
                    Some((ei, ci)) => {
                        let ghost es = self.world@.entities;
                        proof {
                            if world_wf(self.world@) {
                                lemma_set_component_wf(self.world@, l.entity, l.type_id, nr);
                            }
                        }
                        let old_root = self.world.swap_value(ei, ci, v);
                        let new_root = replace_at(old_root, path, 0, new);
                        let ghost es1 = self.world@.entities;
                        let _ = self.world.swap_value(ei, ci, new_root);
                        proof {
                            assert(new_root@ == nr);
                            assert(es1[ei as int].1.update(ci as int, (es1[ei as int].1[ci as int].0, nr)) =~= es[ei as int].1.update(ci as int, (es[ei as int].1[ci as int].0, nr)));
                            assert(self.world@.entities =~= es.update(
                                ei as int,
                                (es[ei as int].0, es[ei as int].1.update(ci as int, (es[ei as int].1[ci as int].0, nr))),
                            ));
                            assert forall|d2: ReflectType| d2 != d implies #[trigger] backing_val(
                                *self,
                                d2,
                            ) == backing_val(*old(self), d2) by {
                                match d2 {
                                    ReflectType::Ptr(l2) => {
                                        lemma_lookup_after_set(es, ei as int, ci as int, nr, l2.entity, l2.type_id);
                                    },
                                    _ => {},
                                }
                            }
                            lemma_lookup_after_set(es, ei as int, ci as int, nr, l.entity, l.type_id);
                            assert(self.world@ == WorldV {
                                entities: set_component(es, l.entity, l.type_id, nr),
                                next_id: old(self).world@.next_id,
                            });
                        }
                    },
                    None => {},
                }
            },
            ReflectType::Boxed(s) => {
                let old_root = self.owned.remove(s);
                match old_root {
                    Some(x) => {
                        let new_root = replace_at(x, path, 0, new);
                        self.owned.insert(s, Some(new_root));
                    },
                    None => {
                        self.owned.insert(s, None);
                    },
                }
                proof {
                    assert(self.owned@ =~= old(self).owned@.update(s as int, Some(self.owned@[s as int]->0)));
                }
            },
        }
    }
}

impl ReflectPtr {
    /// A handle on a component of a live entity, at its root.
    pub fn new(location: Location, ptr_state: usize) -> (r: ReflectPtr)
        ensures
            r.data == ReflectType::Ptr(location),
            r.path@.len() == 0,
            r.ptr_state == ptr_state,
    {
        ReflectPtr { data: ReflectType::Ptr(location), path: Vec::new(), ptr_state }
    }

    /// A handle that owns `value`, which `host` keeps for it.
    pub fn new_boxed(host: &mut Host, value: HostValue, ptr_state: usize) -> (r: ReflectPtr)
        ensures
            r.data == ReflectType::Boxed(old(host).owned.len()),
            r.path@.len() == 0,
            r.ptr_state == ptr_state,
            final(host).owned@ == old(host).owned@.push(Some(value)),
            final(host).world@ == old(host).world@,
            final(host).ptr_states@ == old(host).ptr_states@,
    {
        let slot = host.adopt(value);
        ReflectPtr { data: ReflectType::Boxed(slot), path: Vec::new(), ptr_state }
    }

    /// The same handle, path and guard.
    pub fn copy_ptr(&self) -> (r: ReflectPtr)
        ensures
            r.data == self.data,
            r.path@ == self.path@,
            r.ptr_state == self.ptr_state,
    {
        let mut path: Vec<String> = Vec::new();
        let mut i: usize = 0;
        while i < self.path.len()
            invariant
                i <= self.path.len(),
                path@ == self.path@.subrange(0, i as int),
            decreases self.path.len() - i,
        {
            path.push(self.path[i].clone());
            i += 1;
            proof {
                assert(path@ =~= self.path@.subrange(0, i as int));
            }
        }
        proof {
            assert(path@ =~= self.path@);
        }
        ReflectPtr { data: self.data, path, ptr_state: self.ptr_state }
    }

    /// The handle on field `name` below this one; memory is not touched.
    pub fn field(&self, name: &String) -> (r: ReflectPtr)
        ensures
            r.data == self.data,
            r.path@.len() == self.path@.len() + 1,
            r.path_v() == self.path_v().push(name@),
            r.ptr_state == self.ptr_state,
    {
        let mut r = self.copy_ptr();
        let n = name.clone();
        r.path.push(n);
        proof {
            assert(r.path_v() =~= self.path_v().push(name@));
        }
        r
    }

    /// The value this handle reaches, after the guard is checked.
    pub fn get_field_value_ref<'a>(&self, host: &'a Host) -> (r: Result<&'a HostValue, BridgeError>)
        ensures
            match r {
                Ok(x) => handle_value(*host, *self) == Ok::<Val, BridgeError>(x@),
                Err(e) => handle_value(*host, *self) == Err::<Val, BridgeError>(e),
            },
    {
        if !host.is_valid(self.ptr_state) {
            return Err(BridgeError::UseAfterInvalidation);
        }
        match host.backing_ref(self.data) {
            None => Err(BridgeError::UseAfterInvalidation),
            Some(root) => resolve_ref(root, &self.path),
        }
    }

    /// Reads the value this handle reaches.
    pub fn read(&self, host: &Host) -> (r: Result<ReadValue, BridgeError>)
        ensures
            match r {
                Ok(x) => read_spec(*host, *self) == Ok::<ReadV, BridgeError>(x@),
                Err(e) => read_spec(*host, *self) == Err::<ReadV, BridgeError>(e),
            },
    {
        match self.get_field_value_ref(host) {
            Err(e) => Err(e),
            Ok(v) => Ok(
                match v {
                    HostValue::Bool(b) => ReadValue::Bool(*b),
                    HostValue::Int32(i) => ReadValue::Int(*i as i64),
                    HostValue::Int64(i) => ReadValue::Int(*i),
                    HostValue::Float32(x) => ReadValue::Float32(*x),
                    HostValue::Float64(x) => ReadValue::Float64(*x),
                    HostValue::Text(s) => ReadValue::Text(s.clone()),
                    HostValue::Opaque(t) => ReadValue::Opaque(*t),
                    HostValue::Record { type_id, .. } => ReadValue::Aggregate(*type_id),
                },
            ),
        }
    }

    /// Writes `v` into the field this handle reaches, converted to the field's kind.
    pub fn write(&self, host: &mut Host, v: &ScriptValue) -> (r: Result<(), BridgeError>)
        ensures
            match write_spec(*old(host), *self, *v) {
                Ok(root) => r is Ok && replaced_backing(*old(host), *final(host), self.data, root),
                Err(e) => r == Err::<(), BridgeError>(e) && *final(host) == *old(host),
            },
            guards_kept(*old(host), *final(host)),
            world_wf(old(host).world@) ==> world_wf(final(host).world@),
    {
        let new_value = {
            if !host.is_valid(self.ptr_state) {
                return Err(BridgeError::UseAfterInvalidation);
            }
            let root = match host.backing_ref(self.data) {
                None => {
                    return Err(BridgeError::UseAfterInvalidation);
                },
                Some(root) => root,
            };
            let target = match resolve_ref(root, &self.path) {
                Err(e) => {
                    return Err(e);
                },
                Ok(t) => t,
            };
            let inc = match v {
                ScriptValue::Bool(b) => Incoming::Bool(*b),
                ScriptValue::Int { value, wide, narrow } => Incoming::Int {
                    value: *value,
                    wide: *wide,
                    narrow: *narrow,
                },
                ScriptValue::Number { wide, narrow, truncated } => Incoming::Number {
                    wide: *wide,
                    narrow: *narrow,
                    truncated: *truncated,
                },
                ScriptValue::Handle(src) => match src.get_field_value_ref(host) {
                    Ok(x) => Incoming::Copy(copy_value(x)),
                    Err(e) => {
                        return Err(e);
                    },
                },
                _ => Incoming::Unsupported,
            };
            match coerce(target, inc) {
                Err(e) => {
                    return Err(e);
                },
                Ok(nv) => nv,
            }
        };
        host.put_backing(self.data, HostValue::Bool(false), &self.path, new_value);
        Ok(())
    }

    /// Assignment to field `key` below this handle.
    pub fn lua_new_index(&self, host: &mut Host, key: &String, v: &ScriptValue) -> (r: Result<
        (),
        BridgeError,
    >)
        ensures
            match write_at(*old(host), self.data, self.ptr_state, self.path_v().push(key@), *v) {
                Ok(root) => r is Ok && replaced_backing(*old(host), *final(host), self.data, root),
                Err(e) => r == Err::<(), BridgeError>(e) && *final(host) == *old(host),
            },
            guards_kept(*old(host), *final(host)),
            world_wf(old(host).world@) ==> world_wf(final(host).world@),
    {
        let f = self.field(key);
        f.write(host, v)
    }
}

/// What adding `rhs` to the number that a handle reaches gives: integers add with wrap-around,
/// in the 64-bit integer kind of the script side.
pub open spec fn add_spec(h: Host, p: ReflectPtr, rhs: ScriptValue) -> Result<i64, BridgeError> {
    match handle_value(h, p) {
        Err(e) => Err(e),
        Ok(v) => match (v, rhs) {
            (Val::Int32(a), ScriptValue::Int { value: b, .. }) => Ok(
                vstd::wrapping::i64_specs::wrapping_add(a as i64, b),
            ),
            (Val::Int64(a), ScriptValue::Int { value: b, .. }) => Ok(vstd::wrapping::i64_specs::wrapping_add(a, b)),
            _ => Err(BridgeError::TypeMismatch),
        },
    }
}

impl ReflectPtr {
    /// The `+` operator on a handle, delegated to the numeric kind of the value it reaches.
    pub fn lua_add(&self, host: &Host, rhs: &ScriptValue) -> (r: Result<i64, BridgeError>)
        ensures
            r == add_spec(*host, *self, *rhs),
    {
        let v = match self.get_field_value_ref(host) {
            Err(e) => {
                return Err(e);
            },
            Ok(v) => v,
        };
        match (v, rhs) {
            (HostValue::Int32(a), ScriptValue::Int { value: b, .. }) => Ok((*a as i64).wrapping_add(*b)),
            (HostValue::Int64(a), ScriptValue::Int { value: b, .. }) => Ok(a.wrapping_add(*b)),
            _ => Err(BridgeError::TypeMismatch),
        }
    }
}

} // verus!
