use vstd::prelude::*;

verus! {

/// The failures that the bridge reports; none of them is fatal to the host.
#[derive(Clone, Copy, Debug, PartialEq, Eq, Structural)]
pub enum BridgeError {
    UseAfterInvalidation,
    FieldNotFound,
    TypeMismatch,
    UnsupportedAssignment,
    UnsupportedArgumentKind,
    ConflictingAccessMode,
    DuplicateFunctionName,
    ScriptRuntimeError,
    RegistrationClosed,
    ArgCountMismatch { expected: usize, received: usize },
}

/// A named field of a struct-shaped host value.
pub struct Field {
    pub name: String,
    pub value: HostValue,
}

/// A host value as reflection sees it: a scalar or a struct of named fields.
pub enum HostValue {
    Bool(bool),
    Int32(i32),
    Int64(i64),
    /// A 32-bit float, by its IEEE 754 bit pattern.
    Float32(u32),
    /// A 64-bit float, by its IEEE 754 bit pattern.
    Float64(u64),
    Text(String),
    /// A field of a kind that the bridge does not carry, by its type identity: it can be
    /// reached, but neither read as a scalar nor assigned.
    Opaque(u64),
    Record { type_id: u64, fields: Vec<Field> },
}

/// The mathematical form of a host value.
pub ghost enum Val {
    Bool(bool),
    Int32(i32),
    Int64(i64),
    Float32(u32),
    Float64(u64),
    Text(Seq<char>),
    Opaque(u64),
    Record(u64, Seq<(Seq<char>, Val)>),
}

pub open spec fn view_value(v: HostValue) -> Val
    decreases v,
{
    match v {
        HostValue::Bool(b) => Val::Bool(b),
        HostValue::Int32(i) => Val::Int32(i),
        HostValue::Int64(i) => Val::Int64(i),
        HostValue::Float32(x) => Val::Float32(x),
        HostValue::Float64(x) => Val::Float64(x),
        HostValue::Text(s) => Val::Text(s@),
        HostValue::Opaque(t) => Val::Opaque(t),
        HostValue::Record { type_id, fields } => Val::Record(type_id, view_fields(fields@)),
    }
}

pub open spec fn view_fields(fs: Seq<Field>) -> Seq<(Seq<char>, Val)>
    decreases fs,
{
    if fs.len() == 0 {
        Seq::empty()
    } else {
        view_fields(fs.drop_last()).push((fs.last().name@, view_value(fs.last().value)))
    }
}

pub proof fn lemma_view_fields(fs: Seq<Field>)
    ensures
        view_fields(fs).len() == fs.len(),
        forall|j: int|
            0 <= j < fs.len() ==> #[trigger] view_fields(fs)[j] == (
            fs[j].name@,
            view_value(fs[j].value),
        ),
    decreases fs.len(),
{
    if fs.len() > 0 {
        lemma_view_fields(fs.drop_last());
    }
}

/// The index of the first field called `name` at or after `i`, or -1.
pub open spec fn find_field(fs: Seq<(Seq<char>, Val)>, name: Seq<char>, i: int) -> int
    decreases fs.len() - i,
{
    if i < 0 || i >= fs.len() {
        -1
    } else if fs[i].0 == name {
        i
    } else {
        find_field(fs, name, i + 1)
    }
}

pub proof fn lemma_find_field_range(fs: Seq<(Seq<char>, Val)>, name: Seq<char>, i: int)
    ensures
        find_field(fs, name, i) == -1 || (0 <= i <= find_field(fs, name, i) < fs.len()
            && fs[find_field(fs, name, i)].0 == name),
    decreases fs.len() - i,
{
    if 0 <= i < fs.len() && fs[i].0 != name {
        lemma_find_field_range(fs, name, i + 1);
    }
}

/// What a walk along `path`, from segment `i` on, finds below `v`.
pub open spec fn resolve_from(v: Val, path: Seq<Seq<char>>, i: int) -> Result<Val, BridgeError>
    decreases path.len() - i,
{
    if i < 0 || i >= path.len() {
        Ok(v)
    } else {
        match v {
            Val::Record(_, fs) => {
                let k = find_field(fs, path[i], 0);
                if k < 0 {
                    Err(BridgeError::FieldNotFound)
                } else {
                    resolve_from(fs[k].1, path, i + 1)
                }
            },
            _ => Err(BridgeError::TypeMismatch),
        }
    }
}

pub open spec fn resolve(v: Val, path: Seq<Seq<char>>) -> Result<Val, BridgeError> {
    resolve_from(v, path, 0)
}

/// `v` with the value that `path` (from segment `i` on) reaches replaced by `new`.
pub open spec fn update_from(v: Val, path: Seq<Seq<char>>, i: int, new: Val) -> Val
    decreases path.len() - i,
{
    if i < 0 || i >= path.len() {
        new
    } else {
        match v {
            Val::Record(t, fs) => {
                let k = find_field(fs, path[i], 0);
                if k < 0 {
                    v
                } else {
                    Val::Record(t, fs.update(k, (fs[k].0, update_from(fs[k].1, path, i + 1, new))))
                }
            },
            _ => v,
        }
    }
}

pub open spec fn update(v: Val, path: Seq<Seq<char>>, new: Val) -> Val {
    update_from(v, path, 0, new)
}

pub open spec fn path_view(p: Seq<String>) -> Seq<Seq<char>> {
    p.map_values(|s: String| s@)
}

/// Two values of one shape: the same scalar kind, or records of one type.
pub open spec fn same_kind(a: Val, b: Val) -> bool {
    match (a, b) {
        (Val::Bool(_), Val::Bool(_)) => true,
        (Val::Int32(_), Val::Int32(_)) => true,
        (Val::Int64(_), Val::Int64(_)) => true,
        (Val::Float32(_), Val::Float32(_)) => true,
        (Val::Float64(_), Val::Float64(_)) => true,
        (Val::Text(_), Val::Text(_)) => true,
        (Val::Record(s, _), Val::Record(t, _)) => s == t,
        _ => false,
    }
}

/// Writing through a path, then resolving the same path, gives what was written.
pub proof fn lemma_update_resolve(v: Val, path: Seq<Seq<char>>, i: int, new: Val)
    requires
        0 <= i,
        resolve_from(v, path, i) is Ok,
    ensures
        resolve_from(update_from(v, path, i, new), path, i) == Ok::<Val, BridgeError>(new),
    decreases path.len() - i,
{
    if i < path.len() {
        match v {
            Val::Record(t, fs) => {
                let k = find_field(fs, path[i], 0);
                lemma_find_field_range(fs, path[i], 0);
                let child = update_from(fs[k].1, path, i + 1, new);
                let fs2 = fs.update(k, (fs[k].0, child));
                lemma_update_resolve(fs[k].1, path, i + 1, new);
                lemma_find_field_same_names(fs, fs2, path[i], 0);
            },
            _ => {},
        }
    }
}

/// A search by name depends on the names alone.
pub proof fn lemma_find_field_same_names(
    a: Seq<(Seq<char>, Val)>,
    b: Seq<(Seq<char>, Val)>,
    name: Seq<char>,
    i: int,
)
    requires
        a.len() == b.len(),
        forall|j: int| 0 <= j < a.len() ==> #[trigger] a[j].0 == b[j].0,
    ensures
        find_field(a, name, i) == find_field(b, name, i),
    decreases a.len() - i,
{
    if 0 <= i < a.len() {
        lemma_find_field_same_names(a, b, name, i + 1);
    }
}

impl View for HostValue {
    type V = Val;

    open spec fn view(&self) -> Val {
        view_value(*self)
    }
}

/// The position of the first field called `name`.
pub fn field_position(fields: &Vec<Field>, name: &String) -> (r: Option<usize>)
    ensures
        match r {
            Some(k) => k < fields.len() && find_field(view_fields(fields@), name@, 0) == k as int,
            None => find_field(view_fields(fields@), name@, 0) == -1,
        },
{
    let ghost vf = view_fields(fields@);
    proof {
        lemma_view_fields(fields@);
    }
    let mut j: usize = 0;
    while j < fields.len()
        invariant
            j <= fields.len(),
            vf == view_fields(fields@),
            vf.len() == fields.len(),
            forall|jj: int| 0 <= jj < fields.len() ==> #[trigger] vf[jj].0 == fields@[jj].name@,
            find_field(vf, name@, 0) == find_field(vf, name@, j as int),
        decreases fields.len() - j,
    {
        if fields[j].name == *name {
            proof {
                lemma_find_field_range(vf, name@, j as int);
            }
            return Some(j);
        }
        j += 1;
    }
    None
}

/// Walks `path` down from `v`, one named field at a time.
pub fn resolve_ref<'a>(v: &'a HostValue, path: &Vec<String>) -> (r: Result<&'a HostValue, BridgeError>)
    ensures
        match r {
            Ok(x) => resolve(v@, path_view(path@)) == Ok::<Val, BridgeError>(x@),
            Err(e) => resolve(v@, path_view(path@)) == Err::<Val, BridgeError>(e),
        },
{
    let ghost pv = path_view(path@);
    let mut cur: &HostValue = v;
    let mut i: usize = 0;
    while i < path.len()
        invariant
            i <= path.len(),
            pv == path_view(path@),
            pv.len() == path.len(),
            resolve(v@, pv) == resolve_from(cur@, pv, i as int),
        decreases path.len() - i,
    {
        proof {
            lemma_view_fields_of(*cur);
        }
        match cur {
            HostValue::Record { fields, .. } => {
                match field_position(fields, &path[i]) {
                    Some(k) => {
                        proof {
                            lemma_view_fields(fields@);
                            assert(pv[i as int] == path@[i as int]@);
                        }
                        cur = &fields[k].value;
                    },
                    None => {
                        proof {
                            assert(pv[i as int] == path@[i as int]@);
                        }
                        return Err(BridgeError::FieldNotFound);
                    },
                }
            },
            _ => {
                return Err(BridgeError::TypeMismatch);
            },
        }
        i += 1;
    }
    Ok(cur)
}

pub proof fn lemma_view_fields_of(v: HostValue)
    ensures
        v is Record ==> v@ == Val::Record(v->type_id, view_fields(v->fields@)),
{
}

/// A copy of `v` that shares nothing with it.
pub fn copy_value(v: &HostValue) -> (r: HostValue)
    ensures
        r@ == v@,
    decreases v,
{
    match v {
        HostValue::Bool(b) => HostValue::Bool(*b),
        HostValue::Int32(i) => HostValue::Int32(*i),
        HostValue::Int64(i) => HostValue::Int64(*i),
        HostValue::Float32(x) => HostValue::Float32(*x),
        HostValue::Float64(x) => HostValue::Float64(*x),
        HostValue::Text(s) => HostValue::Text(s.clone()),
        HostValue::Opaque(t) => HostValue::Opaque(*t),
        HostValue::Record { type_id, fields } => {
            let mut out: Vec<Field> = Vec::new();
            let mut j: usize = 0;
            while j < fields.len()
                invariant
                    *v is Record,
                    (*v)->fields == *fields,
                    j <= fields.len(),
                    out.len() == j,
                    forall|jj: int|
                        0 <= jj < j ==> #[trigger] out@[jj].name@ == fields@[jj].name@
                            && out@[jj].value@ == fields@[jj].value@,
                decreases fields.len() - j,
            {
                proof {
                    assert(decreases_to!(*v => (*v)->fields));
                    assert(decreases_to!(*fields => fields@));
                    assert(decreases_to!(fields@ => fields@[j as int]));
                    assert(decreases_to!(fields@[j as int] => fields@[j as int].value));
                }
                let c = copy_value(&fields[j].value);
                out.push(Field { name: fields[j].name.clone(), value: c });
                j += 1;
            }
            proof {
                lemma_view_fields(out@);
                lemma_view_fields(fields@);
                assert(view_fields(out@) =~= view_fields(fields@));
            }
            HostValue::Record { type_id: *type_id, fields: out }
        },
    }
}

/// `v` with the value that `path` reaches from segment `i` on replaced by `new`.
pub fn replace_at(v: HostValue, path: &Vec<String>, i: usize, new: HostValue) -> (r: HostValue)
    requires
        i <= path.len(),
        resolve_from(v@, path_view(path@), i as int) is Ok,
    ensures
        r@ == update_from(v@, path_view(path@), i as int, new@),
    decreases path.len() - i,
{
    let ghost pv = path_view(path@);
    if i == path.len() {
        return new;
    }
    proof {
        lemma_view_fields_of(v);
    }
    match v {
        HostValue::Record { type_id, fields } => {
            let mut fields = fields;
            let ghost fs0 = fields@;
            match field_position(&fields, &path[i]) {
                Some(k) => {
                    proof {
                        lemma_view_fields(fs0);
                        lemma_find_field_range(view_fields(fs0), pv[i as int], 0);
                    }
                    let f = fields.remove(k);
                    let Field { name, value } = f;
                    let value2 = replace_at(value, path, i + 1, new);
                    fields.insert(k, Field { name, value: value2 });
                    proof {
                        lemma_view_fields(fields@);
                        assert(view_fields(fields@) =~= view_fields(fs0).update(
                            k as int,
                            (view_fields(fs0)[k as int].0, update_from(view_fields(fs0)[k as int].1, pv, i + 1, new@)),
                        ));
                    }
                    HostValue::Record { type_id, fields }
                },
                None => HostValue::Record { type_id, fields },
            }
        },
        _ => v,
    }
}

/// What a script assigns, once a source handle has been resolved.
pub enum Incoming {
    Bool(bool),
    /// A script integer, with the bit patterns of its nearest 64-bit and 32-bit floats.
    Int { value: i64, wide: u64, narrow: u32 },
    /// A script number, by the bit patterns of its 64-bit value and of that value rounded to
    /// 32 bits, and its value truncated toward zero to a 64-bit integer, saturating at the
    /// bounds.
    Number { wide: u64, narrow: u32, truncated: i64 },
    Copy(HostValue),
    Unsupported,
}

pub ghost enum IncomingV {
    Bool(bool),
    Int(i64, u64, u32),
    Number(u64, u32, i64),
    Copy(Val),
    Unsupported,
}

impl View for Incoming {
    type V = IncomingV;

    open spec fn view(&self) -> IncomingV {
        match *self {
            Incoming::Bool(b) => IncomingV::Bool(b),
            Incoming::Int { value, wide, narrow } => IncomingV::Int(value, wide, narrow),
            Incoming::Number { wide, narrow, truncated } => IncomingV::Number(wide, narrow, truncated),
            Incoming::Copy(h) => IncomingV::Copy(h@),
            Incoming::Unsupported => IncomingV::Unsupported,
        }
    }
}

/// `i` narrowed to 32 bits, saturating at the bounds.
pub open spec fn saturate_i32(i: i64) -> i32 {
    if i < i32::MIN {
        i32::MIN
    } else if i > i32::MAX {
        i32::MAX
    } else {
        i as i32
    }
}

pub fn saturate_i32_exec(i: i64) -> (r: i32)
    ensures
        r == saturate_i32(i),
{
    if i < i32::MIN as i64 {
        i32::MIN
    } else if i > i32::MAX as i64 {
        i32::MAX
    } else {
        i as i32
    }
}

/// The value that an assignment of `inc` leaves in a field that held `target`: numbers take
/// the field's numeric kind, an integer becoming the nearest float in a float field and a
/// number becoming its integer part, saturated to the field's width, in an integer field.
pub open spec fn coerce_spec(target: Val, inc: IncomingV) -> Result<Val, BridgeError> {
    match inc {
        IncomingV::Bool(b) => match target {
            Val::Bool(_) => Ok(Val::Bool(b)),
            _ => Err(BridgeError::TypeMismatch),
        },
        IncomingV::Int(i, wide, narrow) => match target {
            Val::Int32(_) => if i32::MIN <= i <= i32::MAX {
                Ok(Val::Int32(i as i32))
            } else {
                Err(BridgeError::TypeMismatch)
            },
            Val::Int64(_) => Ok(Val::Int64(i)),
            Val::Float32(_) => Ok(Val::Float32(narrow)),
            Val::Float64(_) => Ok(Val::Float64(wide)),
            _ => Err(BridgeError::TypeMismatch),
        },
        IncomingV::Number(wide, narrow, truncated) => match target {
            Val::Float32(_) => Ok(Val::Float32(narrow)),
            Val::Float64(_) => Ok(Val::Float64(wide)),
            Val::Int32(_) => Ok(Val::Int32(saturate_i32(truncated))),
            Val::Int64(_) => Ok(Val::Int64(truncated)),
            _ => Err(BridgeError::TypeMismatch),
        },
        IncomingV::Copy(h) => if same_kind(target, h) {
            Ok(h)
        } else {
            Err(BridgeError::TypeMismatch)
        },
        IncomingV::Unsupported => Err(BridgeError::UnsupportedAssignment),
    }
}

/// Converts `inc` to the kind of the field that holds `target`.
pub fn coerce(target: &HostValue, inc: Incoming) -> (r: Result<HostValue, BridgeError>)
    ensures
        match r {
            Ok(h) => coerce_spec(target@, inc@) == Ok::<Val, BridgeError>(h@),
            Err(e) => coerce_spec(target@, inc@) == Err::<Val, BridgeError>(e),
        },
{
    match inc {
        Incoming::Bool(b) => match target {
            HostValue::Bool(_) => Ok(HostValue::Bool(b)),
            _ => Err(BridgeError::TypeMismatch),
        },
        Incoming::Int { value, wide, narrow } => match target {
            HostValue::Int32(_) => if i32::MIN as i64 <= value && value <= i32::MAX as i64 {
                Ok(HostValue::Int32(value as i32))
            } else {
                Err(BridgeError::TypeMismatch)
            },
            HostValue::Int64(_) => Ok(HostValue::Int64(value)),
            HostValue::Float32(_) => Ok(HostValue::Float32(narrow)),
            HostValue::Float64(_) => Ok(HostValue::Float64(wide)),
            _ => Err(BridgeError::TypeMismatch),
        },
        Incoming::Number { wide, narrow, truncated } => match target {
            HostValue::Float32(_) => Ok(HostValue::Float32(narrow)),
            HostValue::Float64(_) => Ok(HostValue::Float64(wide)),
            HostValue::Int32(_) => Ok(HostValue::Int32(saturate_i32_exec(truncated))),
            HostValue::Int64(_) => Ok(HostValue::Int64(truncated)),
            _ => Err(BridgeError::TypeMismatch),
        },
        Incoming::Copy(h) => if same_kind_exec(target, &h) {
            Ok(h)
        } else {
            Err(BridgeError::TypeMismatch)
        },
        Incoming::Unsupported => Err(BridgeError::UnsupportedAssignment),
    }
}

pub fn same_kind_exec(a: &HostValue, b: &HostValue) -> (r: bool)
    ensures
        r == same_kind(a@, b@),
{
    match (a, b) {
        (HostValue::Bool(_), HostValue::Bool(_)) => true,
        (HostValue::Int32(_), HostValue::Int32(_)) => true,
        (HostValue::Int64(_), HostValue::Int64(_)) => true,
        (HostValue::Float32(_), HostValue::Float32(_)) => true,
        (HostValue::Float64(_), HostValue::Float64(_)) => true,
        (HostValue::Text(_), HostValue::Text(_)) => true,
        (HostValue::Record { type_id: s, .. }, HostValue::Record { type_id: t, .. }) => *s == *t,
        _ => false,
    }
}

} // verus!
