use vstd::prelude::*;

use crate::handle::{handle_value, Host, ReflectPtr, ReflectType, ScriptValue};
use crate::value::{BridgeError, HostValue, Val};

verus! {

/// How a function takes one of its parameters.
#[derive(Clone, Copy, Debug, PartialEq, Eq, Structural)]
pub enum ArgMode {
    Value,
    Ref,
    Mut,
}

/// A callable's name and the access mode of each of its parameters.
pub struct FunctionInfo {
    pub name: String,
    pub params: Vec<ArgMode>,
}

pub struct RegisteredFunction {
    pub type_id: u64,
    pub info: FunctionInfo,
}

/// The type identities of the host's scalar kinds, under which functions on scalars are
/// registered.
#[derive(Clone, Copy, Debug, PartialEq, Eq, Structural)]
pub struct ScalarTypes {
    pub bool_type: u64,
    pub int32_type: u64,
    pub int64_type: u64,
    pub float32_type: u64,
    pub float64_type: u64,
    pub text_type: u64,
}

/// The functions that scripts may call on values of each host type.
pub struct ObjectFunctionRegistry {
    pub map: Vec<RegisteredFunction>,
    pub scalar_types: ScalarTypes,
}

/// The type identity of a value: a struct's own, or that of its scalar kind.
pub open spec fn type_of_value(v: Val, s: ScalarTypes) -> u64 {
    match v {
        Val::Bool(_) => s.bool_type,
        Val::Int32(_) => s.int32_type,
        Val::Int64(_) => s.int64_type,
        Val::Float32(_) => s.float32_type,
        Val::Float64(_) => s.float64_type,
        Val::Text(_) => s.text_type,
        Val::Opaque(t) => t,
        Val::Record(t, _) => t,
    }
}

pub open spec fn fn_key(f: RegisteredFunction) -> (u64, Seq<char>) {
    (f.type_id, f.info.name@)
}

/// The first position from `i` on registered for `type_id` under `name`, or -1.
pub open spec fn find_fn(fs: Seq<RegisteredFunction>, type_id: u64, name: Seq<char>, i: int) -> int
    decreases fs.len() - i,
{
    if i < 0 || i >= fs.len() {
        -1
    } else if fn_key(fs[i]) == (type_id, name) {
        i
    } else {
        find_fn(fs, type_id, name, i + 1)
    }
}

/// Appending an entry leaves every earlier search as it was, and makes a search for the entry's
/// key succeed.
pub proof fn lemma_find_fn_push(
    fs: Seq<RegisteredFunction>,
    f: RegisteredFunction,
    type_id: u64,
    name: Seq<char>,
    i: int,
)
    requires
        0 <= i <= fs.len(),
    ensures
        find_fn(fs, type_id, name, i) >= 0 ==> find_fn(fs.push(f), type_id, name, i) == find_fn(
            fs,
            type_id,
            name,
            i,
        ),
        find_fn(fs, type_id, name, i) < 0 ==> find_fn(fs.push(f), type_id, name, i) == if fn_key(f)
            == (type_id, name) {
            fs.len() as int
        } else {
            -1
        },
    decreases fs.len() - i,
{
    if i < fs.len() {
        assert(fs.push(f)[i] == fs[i]);
        lemma_find_fn_push(fs, f, type_id, name, i + 1);
    } else {
        assert(fs.push(f)[i] == f);
        assert(find_fn(fs.push(f), type_id, name, i + 1) == -1);
    }
}

impl ObjectFunctionRegistry {
    pub fn new(scalar_types: ScalarTypes) -> (r: ObjectFunctionRegistry)
        ensures
            r.map@.len() == 0,
            r.scalar_types == scalar_types,
    {
        ObjectFunctionRegistry { map: Vec::new(), scalar_types }
    }

    /// The function registered for `type_id` under `name`.
    pub fn get(&self, type_id: u64, name: &String) -> (r: Option<usize>)
        ensures
            match r {
                Some(i) => i < self.map.len() && find_fn(self.map@, type_id, name@, 0) == i as int,
                None => find_fn(self.map@, type_id, name@, 0) == -1,
            },
    {
        let mut i: usize = 0;
        while i < self.map.len()
            invariant
                i <= self.map.len(),
                find_fn(self.map@, type_id, name@, 0) == find_fn(self.map@, type_id, name@, i as int),
            decreases self.map.len() - i,
        {
            if self.map[i].type_id == type_id && self.map[i].info.name == *name {
                return Some(i);
            }
            i += 1;
        }
        None
    }

    /// Adds `info` for values of `type_id`, unless a function of that name is there already.
    pub fn register(&mut self, type_id: u64, info: FunctionInfo) -> (r: Result<usize, BridgeError>)
        ensures
            find_fn(old(self).map@, type_id, info.name@, 0) >= 0 ==> r == Err::<usize, BridgeError>(
                BridgeError::DuplicateFunctionName,
            ) && final(self).map@ == old(self).map@,
            final(self).scalar_types == old(self).scalar_types,
            find_fn(old(self).map@, type_id, info.name@, 0) < 0 ==> r == Ok::<usize, BridgeError>(
                old(self).map.len(),
            ) && final(self).map@ == old(self).map@.push(RegisteredFunction { type_id, info }),
    {
        match self.get(type_id, &info.name) {
            Some(_) => Err(BridgeError::DuplicateFunctionName),
            None => {
                let i = self.map.len();
                self.map.push(RegisteredFunction { type_id, info });
                Ok(i)
            },
        }
    }
}

/// An argument in the form a host function takes it.
pub enum ArgValue {
    Bool(bool),
    Int(i64),
    /// A 64-bit float, by its bit pattern.
    Number(u64),
    Text(String),
    Ref(ReflectPtr),
    Mut(ReflectPtr),
}

pub open spec fn same_handle(p: ReflectPtr, q: ReflectPtr) -> bool {
    p.data == q.data && p.path@ == q.path@ && p.ptr_state == q.ptr_state
}

/// Why argument `v` cannot be passed, if it cannot.
pub open spec fn arg_error(h: Host, v: ScriptValue) -> Option<BridgeError> {
    match v {
        ScriptValue::Bool(_) => None,
        ScriptValue::Int { .. } => None,
        ScriptValue::Number { .. } => None,
        ScriptValue::Str(_) => None,
        ScriptValue::Handle(p) => match handle_value(h, p) {
            Ok(_) => None,
            Err(e) => Some(e),
        },
        _ => Some(BridgeError::UnsupportedArgumentKind),
    }
}

/// `a` is what `v` becomes for a parameter taken in mode `m`.
pub open spec fn arg_matches(a: ArgValue, m: ArgMode, v: ScriptValue) -> bool {
    match (v, a) {
        (ScriptValue::Bool(b), ArgValue::Bool(c)) => b == c,
        (ScriptValue::Int { value, .. }, ArgValue::Int(j)) => value == j,
        (ScriptValue::Number { wide, .. }, ArgValue::Number(w)) => wide == w,
        (ScriptValue::Str(s), ArgValue::Text(t)) => s@ == t@,
        (ScriptValue::Handle(p), ArgValue::Ref(q)) => m != ArgMode::Mut && same_handle(p, q),
        (ScriptValue::Handle(p), ArgValue::Mut(q)) => m == ArgMode::Mut && same_handle(p, q),
        _ => false,
    }
}

/// The error of the first argument from `i` on that cannot be passed.
pub open spec fn first_arg_error(h: Host, args: Seq<ScriptValue>, i: int) -> Option<BridgeError>
    decreases args.len() - i,
{
    if i < 0 || i >= args.len() {
        None
    } else {
        match arg_error(h, args[i]) {
            Some(e) => Some(e),
            None => first_arg_error(h, args, i + 1),
        }
    }
}

/// Converts script arguments to the form that a function with `info` takes.
pub fn prepare_args(host: &Host, info: &FunctionInfo, args: &Vec<ScriptValue>) -> (r: Result<
    Vec<ArgValue>,
    BridgeError,
>)
    ensures
        args.len() != info.params.len() ==> r == Err::<Vec<ArgValue>, BridgeError>(
            BridgeError::ArgCountMismatch { expected: info.params.len(), received: args.len() },
        ),
        args.len() == info.params.len() ==> match first_arg_error(*host, args@, 0) {
            Some(e) => r == Err::<Vec<ArgValue>, BridgeError>(e),
            None => r is Ok && r->Ok_0.len() == args.len() && forall|i: int|
                0 <= i < args.len() ==> arg_matches(
                    #[trigger] r->Ok_0@[i],
                    info.params@[i],
                    args@[i],
                ),
        },
{
    if args.len() != info.params.len() {
        return Err(BridgeError::ArgCountMismatch { expected: info.params.len(), received: args.len() });
    }
    let mut out: Vec<ArgValue> = Vec::new();
    let mut i: usize = 0;
    while i < args.len()
        invariant
            i <= args.len(),
            args.len() == info.params.len(),
            out.len() == i,
            first_arg_error(*host, args@, 0) == first_arg_error(*host, args@, i as int),
            forall|j: int| 0 <= j < i ==> arg_matches(#[trigger] out@[j], info.params@[j], args@[j]),
        decreases args.len() - i,
    {
        let mode = info.params[i];
        let a = match &args[i] {
            ScriptValue::Bool(b) => ArgValue::Bool(*b),
            ScriptValue::Int { value, .. } => ArgValue::Int(*value),
            ScriptValue::Number { wide, .. } => ArgValue::Number(*wide),
            ScriptValue::Str(s) => ArgValue::Text(s.clone()),
            ScriptValue::Handle(p) => {
                match p.get_field_value_ref(host) {
                    Err(e) => {
                        return Err(e);
                    },
                    Ok(_) => {},
                }
                let q = p.copy_ptr();
                if mode == ArgMode::Mut {
                    ArgValue::Mut(q)
                } else {
                    ArgValue::Ref(q)
                }
            },
            _ => {
                return Err(BridgeError::UnsupportedArgumentKind);
            },
        };
        out.push(a);
        i += 1;
    }
    Ok(out)
}

/// A function's result on its way back to the script.
pub enum Returned {
    Bool(bool),
    Int(i64),
    /// A 32-bit float, by its bit pattern.
    Float32(u32),
    /// A 64-bit float, by its bit pattern.
    Float64(u64),
    Text(String),
    Handle(ReflectPtr),
}

/// `r` is how a function's result `ret` reaches the script, and `b` is `a` after it.
pub open spec fn returned(a: Host, b: Host, ret: Val, g: usize, r: Returned) -> bool {
    match ret {
        Val::Bool(x) => r == Returned::Bool(x) && b == a,
        Val::Int32(x) => r == Returned::Int(x as i64) && b == a,
        Val::Int64(x) => r == Returned::Int(x) && b == a,
        Val::Float32(x) => r == Returned::Float32(x) && b == a,
        Val::Float64(x) => r == Returned::Float64(x) && b == a,
        Val::Text(s) => r is Text && r->Text_0@ == s && b == a,
        Val::Record(_, _) | Val::Opaque(_) => {
            &&& r is Handle
            &&& r->Handle_0.data == ReflectType::Boxed(a.owned.len())
            &&& r->Handle_0.path@.len() == 0
            &&& r->Handle_0.ptr_state == g
            &&& b.owned.len() == a.owned.len() + 1
            &&& b.owned@.drop_last() == a.owned@
            &&& b.owned@.last() is Some && b.owned@.last()->0@ == ret
            &&& b.world@ == a.world@
            &&& b.ptr_states@ == a.ptr_states@
        },
    }
}

/// Hands a function's result to the script: scalars as they are, aggregates and values of other
/// kinds as a new handle that owns the value and obeys guard `g`.
pub fn marshal_return(host: &mut Host, ret: HostValue, g: usize) -> (r: Returned)
    ensures
        returned(*old(host), *final(host), ret@, g, r),
{
    match ret {
        HostValue::Bool(x) => Returned::Bool(x),
        HostValue::Int32(x) => Returned::Int(x as i64),
        HostValue::Int64(x) => Returned::Int(x),
        HostValue::Float32(x) => Returned::Float32(x),
        HostValue::Float64(x) => Returned::Float64(x),
        HostValue::Text(s) => Returned::Text(s),
        HostValue::Record { type_id, fields } => {
            let v = HostValue::Record { type_id, fields };
            let p = ReflectPtr::new_boxed(host, v, g);
            proof {
                assert(host.owned@.drop_last() =~= old(host).owned@);
            }
            Returned::Handle(p)
        },
        HostValue::Opaque(t) => {
            let p = ReflectPtr::new_boxed(host, HostValue::Opaque(t), g);
            proof {
                assert(host.owned@.drop_last() =~= old(host).owned@);
            }
            Returned::Handle(p)
        },
    }
}

/// What indexing a handle by a key finds: a registered function, or a field below it.
pub enum IndexTarget {
    Method(usize),
    Field(ReflectPtr),
}

impl ReflectPtr {
    /// Indexing by `key`: a function registered under `key` for the type of the reached value
    /// (a struct's type, or its scalar kind's), else the field `key` below this handle.
    pub fn lua_index(&self, host: &Host, functions: &ObjectFunctionRegistry, key: &String) -> (r:
        Result<IndexTarget, BridgeError>)
        ensures
            match handle_value(*host, *self) {
                Err(e) => r == Err::<IndexTarget, BridgeError>(e),
                Ok(v) => {
                    let t = find_fn(functions.map@, type_of_value(v, functions.scalar_types), key@, 0);
                    if t >= 0 {
                        r == Ok::<IndexTarget, BridgeError>(IndexTarget::Method(t as usize))
                    } else {
                        &&& r is Ok
                        &&& r->Ok_0 is Field
                        &&& r->Ok_0->Field_0.data == self.data
                        &&& r->Ok_0->Field_0.ptr_state == self.ptr_state
                        &&& r->Ok_0->Field_0.path_v() == self.path_v().push(key@)
                    }
                },
            },
    {
        let v = match self.get_field_value_ref(host) {
            Err(e) => {
                return Err(e);
            },
            Ok(v) => v,
        };
        let s = functions.scalar_types;
        let t = match v {
            HostValue::Bool(_) => s.bool_type,
            HostValue::Int32(_) => s.int32_type,
            HostValue::Int64(_) => s.int64_type,
            HostValue::Float32(_) => s.float32_type,
            HostValue::Float64(_) => s.float64_type,
            HostValue::Text(_) => s.text_type,
            HostValue::Opaque(t) => *t,
            HostValue::Record { type_id, .. } => *type_id,
        };
        match functions.get(t, key) {
            Some(i) => Ok(IndexTarget::Method(i)),
            None => Ok(IndexTarget::Field(self.field(key))),
        }
    }
}

} // verus!
