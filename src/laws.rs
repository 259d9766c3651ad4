use vstd::prelude::*;

use crate::handle::{
    guards_kept, handle_value, read_spec, replaced_backing, write_spec, Host, PtrState, ReadV,
    ReflectPtr, ScriptValue,
};
use crate::registry::{arg_error, find_fn, lemma_find_fn_push, RegisteredFunction};
use crate::scheduler::{apply_sinks, finished, host_state, SystemRun};
use crate::query::{has_all, matched, type_of, ComponentType};
use crate::value::{lemma_update_resolve, BridgeError, Val};
use crate::world::{
    find_key, lemma_find_key_range, lemma_find_key_unique, lookup_component, world_wf, WorldV,
};

verus! {

/// A scalar written through a handle reads back through the same handle as that value in the
/// kind of the field it went to: a boolean as itself; an integer as itself in an integer field
/// (a write that does not fit fails instead) and as its nearest float in a float field; a number
/// in the width of a float field, and as its integer part, saturated to the field's width, in an
/// integer field.
pub proof fn write_then_read(a: Host, b: Host, p: ReflectPtr, v: ScriptValue)
    requires
        write_spec(a, p, v) is Ok,
        replaced_backing(a, b, p.data, write_spec(a, p, v)->Ok_0),
        v is Bool || v is Int || v is Number,
    ensures
        ({
            let field = handle_value(a, p)->Ok_0;
            let r = read_spec(b, p);
            &&& v is Bool ==> r == Ok::<ReadV, BridgeError>(ReadV::Bool(v->Bool_0))
            &&& v is Int && (field is Int32 || field is Int64) ==> r == Ok::<ReadV, BridgeError>(
                ReadV::Int(v->Int_value),
            )
            &&& v is Int && field is Float32 ==> r == Ok::<ReadV, BridgeError>(
                ReadV::Float32(v->Int_narrow),
            )
            &&& v is Int && field is Float64 ==> r == Ok::<ReadV, BridgeError>(
                ReadV::Float64(v->Int_wide),
            )
            &&& v is Number && field is Float32 ==> r == Ok::<ReadV, BridgeError>(
                ReadV::Float32(v->Number_narrow),
            )
            &&& v is Number && field is Float64 ==> r == Ok::<ReadV, BridgeError>(
                ReadV::Float64(v->Number_wide),
            )
            &&& v is Number && field is Int32 ==> r == Ok::<ReadV, BridgeError>(
                ReadV::Int(crate::value::saturate_i32(v->Number_truncated) as i64),
            )
            &&& v is Number && field is Int64 ==> r == Ok::<ReadV, BridgeError>(
                ReadV::Int(v->Number_truncated),
            )
        }),
{
    let root = match crate::handle::backing_val(a, p.data) {
        Some(r) => r,
        None => crate::value::Val::Bool(false),
    };
    let path = p.path_v();
    let target = crate::value::resolve(root, path)->Ok_0;
    let inc = crate::handle::incoming_spec(a, v)->Ok_0;
    let nv = crate::value::coerce_spec(target, inc)->Ok_0;
    lemma_update_resolve(root, path, 0, nv);
}

/// Once a behavior's invocation window has closed, every handle obtained in it fails with
/// `UseAfterInvalidation`, in any later state of the host whose guards have only been kept or
/// added to: reads, writes, and passing it as an argument alike.
pub proof fn handles_expire(
    a: Host,
    b: Host,
    later: Host,
    run: SystemRun,
    succeeded: bool,
    p: ReflectPtr,
    v: ScriptValue,
)
    requires
        run.ptr_state < a.ptr_states.len(),
        finished(a, b, run, succeeded),
        guards_kept(b, later),
        p.ptr_state == run.ptr_state,
    ensures
        handle_value(later, p) == Err::<crate::value::Val, BridgeError>(
            BridgeError::UseAfterInvalidation,
        ),
        read_spec(later, p) == Err::<ReadV, BridgeError>(BridgeError::UseAfterInvalidation),
        write_spec(later, p, v) == Err::<crate::value::Val, BridgeError>(
            BridgeError::UseAfterInvalidation,
        ),
        arg_error(later, ScriptValue::Handle(p)) == Some(BridgeError::UseAfterInvalidation),
{
    assert(b.ptr_states@[run.ptr_state as int] == PtrState::Invalid);
    assert(later.ptr_states@[run.ptr_state as int] == PtrState::Invalid);
}

/// A second function registered under a name that a type already has is refused, and a lookup
/// still finds the first.
pub proof fn duplicate_name_keeps_first(
    fs: Seq<RegisteredFunction>,
    first: RegisteredFunction,
    second: RegisteredFunction,
)
    requires
        find_fn(fs, first.type_id, first.info.name@, 0) < 0,
        second.type_id == first.type_id,
        second.info.name@ == first.info.name@,
    ensures
        find_fn(fs.push(first), second.type_id, second.info.name@, 0) >= 0,
        find_fn(fs.push(first), first.type_id, first.info.name@, 0) == fs.len(),
        fs.push(first)[fs.len() as int] == first,
{
    lemma_find_fn_push(fs, first, first.type_id, first.info.name@, 0);
}

/// A behavior whose script fails changes no entity and no component, and a behavior that
/// succeeds has its own deferred commands applied, whatever failed before it in the tick.
pub proof fn failure_is_isolated(
    h0: Host,
    h1: Host,
    failed: SystemRun,
    h2: Host,
    h3: Host,
    next: SystemRun,
)
    requires
        finished(h0, h1, failed, false),
        finished(h2, h3, next, true),
    ensures
        h1.world@ == h0.world@,
        h3.world@.entities == apply_sinks(
            host_state(h2),
            next.params@,
            next.params.len() as int,
        ).entities,
        h3.world@.next_id == apply_sinks(host_state(h2), next.params@, next.params.len() as int).next_id,
{
    assert(h1.world@.entities == h0.world@.entities);
    assert(h1.world@.next_id == h0.world@.next_id);
}

/// Every identity that a query matches belongs to an entity that holds all the filtered types.
pub proof fn lemma_matched_entity(es: Seq<(u64, Seq<(u64, Val)>)>, fs: Seq<ComponentType>, i: int)
    requires
        0 <= i < matched(es, fs).len(),
    ensures
        exists|k: int| 0 <= k < es.len() && es[k].0 == matched(es, fs)[i] && has_all(es[k].1, fs),
    decreases es.len(),
{
    let rest = matched(es.drop_last(), fs);
    if i < rest.len() {
        lemma_matched_entity(es.drop_last(), fs, i);
        let k = choose|k: int|
            0 <= k < es.drop_last().len() && es.drop_last()[k].0 == rest[i] && has_all(
                es.drop_last()[k].1,
                fs,
            );
        assert(es[k] == es.drop_last()[k]);
    } else {
        assert(es[es.len() - 1] == es.last());
    }
}

/// In a well-formed world, the handle for filter `j` in row `i` of a query reaches the component
/// of that filter's type on the row's entity, and nothing else.
pub proof fn query_rows_reach_their_entity(w: WorldV, fs: Seq<ComponentType>, i: int, j: int)
    requires
        world_wf(w),
        0 <= i < matched(w.entities, fs).len(),
        0 <= j < fs.len(),
    ensures
        exists|k: int|
            0 <= k < w.entities.len() && w.entities[k].0 == matched(w.entities, fs)[i] && {
                let cs = w.entities[k].1;
                let c = find_key(cs, type_of(fs[j]), 0);
                &&& 0 <= c < cs.len()
                &&& cs[c].0 == type_of(fs[j])
                &&& lookup_component(w.entities, w.entities[k].0, type_of(fs[j])) == Some(cs[c].1)
            },
{
    let es = w.entities;
    lemma_matched_entity(es, fs, i);
    let k = choose|k: int| 0 <= k < es.len() && es[k].0 == matched(es, fs)[i] && has_all(es[k].1, fs);
    lemma_find_key_unique(es, k);
    let t = type_of(fs[j]);
    assert(find_key(es[k].1, t, 0) >= 0);
    lemma_find_key_range(es[k].1, t, 0);
}

} // verus!
