use blua::handle::{Host, Location, PtrState, ReadValue, ReflectPtr, ReflectType, ScriptValue};
use blua::query::{
    build_parameter, build_parameters, materialize, CommandQueueMarker, ComponentType,
    ParameterEntry, SystemParameter,
};
use blua::registry::{
    marshal_return, prepare_args, ArgMode, ArgValue, FunctionInfo, IndexTarget, Returned,
    ScalarTypes,
    ObjectFunctionRegistry,
};
use blua::scheduler::{spawn, CommandQueueWrapper, LuaSystem, Materialized, ScriptSet, WorldMut};
use blua::namespace::namespace_segments;
use blua::userdata::UserDataWrapper;
use blua::value::{copy_value, resolve_ref, BridgeError, Field, HostValue};
use blua::world::{Component, World};

const A: u64 = 1;
const B: u64 = 2;
const POS: u64 = 3;
const SCALARS: ScalarTypes = ScalarTypes {
    bool_type: 101,
    int32_type: 102,
    int64_type: 103,
    float32_type: 104,
    float64_type: 105,
    text_type: 106,
};

/// A script integer, as the script side hands it over.
fn script_int(i: i64) -> ScriptValue {
    ScriptValue::Int { value: i, wide: (i as f64).to_bits(), narrow: (i as f32).to_bits() }
}

/// A script number, as the script side hands it over.
fn number(n: f64) -> ScriptValue {
    ScriptValue::Number { wide: n.to_bits(), narrow: (n as f32).to_bits(), truncated: n as i64 }
}

/// A returned handle, passed back by the script.
fn handed_back(r: Returned) -> ScriptValue {
    match r {
        Returned::Handle(h) => ScriptValue::Handle(h),
        _ => panic!("expected a handle"),
    }
}

fn field(name: &str, value: HostValue) -> Field {
    Field { name: name.to_string(), value }
}

fn a_value(x: i32) -> HostValue {
    HostValue::Record {
        type_id: A,
        fields: vec![field("x", HostValue::Int32(x)), field("flag", HostValue::Bool(false))],
    }
}

fn b_value(x: i64, y: i64) -> HostValue {
    HostValue::Record {
        type_id: B,
        fields: vec![
            field(
                "pos",
                HostValue::Record {
                    type_id: POS,
                    fields: vec![field("x", HostValue::Int64(x)), field("y", HostValue::Int64(y))],
                },
            ),
            field("name", HostValue::Text("b".to_string())),
        ],
    }
}

/// e1 has A and B, e2 has A only.
fn two_entities() -> (Host, u64, u64) {
    let mut world = World::new();
    let e1 = world.spawn_entity(vec![
        Component { type_id: A, value: a_value(1) },
        Component { type_id: B, value: b_value(10, 20) },
    ])
    .unwrap();
    let e2 = world.spawn_entity(vec![Component { type_id: A, value: a_value(2) }]).unwrap();
    (Host::new(world), e1, e2)
}

fn path(h: &ReflectPtr, segments: &[&str]) -> ReflectPtr {
    let mut p = h.copy_ptr();
    for s in segments {
        p = p.field(&s.to_string());
    }
    p
}

fn info(name: &str, params: Vec<ArgMode>) -> FunctionInfo {
    FunctionInfo { name: name.to_string(), params }
}

#[test]
fn write_then_read_bool_and_ints() {
    let (mut host, e1, _) = two_entities();
    let g = host.new_ptr_state();
    let a = ReflectPtr::new(Location { entity: e1, type_id: A }, g);
    let b = ReflectPtr::new(Location { entity: e1, type_id: B }, g);

    let flag = path(&a, &["flag"]);
    flag.write(&mut host, &ScriptValue::Bool(true)).unwrap();
    assert!(matches!(flag.read(&host), Ok(ReadValue::Bool(true))));

    let x = path(&a, &["x"]);
    x.write(&mut host, &script_int(-7)).unwrap();
    assert!(matches!(x.read(&host), Ok(ReadValue::Int(-7))));

    let y = path(&b, &["pos", "y"]);
    y.write(&mut host, &script_int(i64::MAX)).unwrap();
    assert!(matches!(y.read(&host), Ok(ReadValue::Int(i64::MAX))));
    // the sibling field is untouched
    assert!(matches!(path(&b, &["pos", "x"]).read(&host), Ok(ReadValue::Int(10))));
}

#[test]
fn lua_new_index_assigns_a_field() {
    let (mut host, e1, _) = two_entities();
    let g = host.new_ptr_state();
    let a = ReflectPtr::new(Location { entity: e1, type_id: A }, g);
    a.lua_new_index(&mut host, &"x".to_string(), &script_int(41)).unwrap();
    assert!(matches!(path(&a, &["x"]).read(&host), Ok(ReadValue::Int(41))));
}

#[test]
fn integer_that_does_not_fit_a_32_bit_field_is_refused() {
    let (mut host, e1, _) = two_entities();
    let g = host.new_ptr_state();
    let x = path(&ReflectPtr::new(Location { entity: e1, type_id: A }, g), &["x"]);
    assert_eq!(x.write(&mut host, &script_int(1 << 40)), Err(BridgeError::TypeMismatch));
    assert!(matches!(x.read(&host), Ok(ReadValue::Int(1))));
}

#[test]
fn write_errors_by_kind() {
    let (mut host, e1, _) = two_entities();
    let g = host.new_ptr_state();
    let a = ReflectPtr::new(Location { entity: e1, type_id: A }, g);
    let b = ReflectPtr::new(Location { entity: e1, type_id: B }, g);
    assert_eq!(
        path(&a, &["missing"]).write(&mut host, &script_int(1)),
        Err(BridgeError::FieldNotFound)
    );
    assert_eq!(
        path(&a, &["x", "deeper"]).write(&mut host, &script_int(1)),
        Err(BridgeError::TypeMismatch)
    );
    assert_eq!(
        path(&a, &["flag"]).write(&mut host, &script_int(1)),
        Err(BridgeError::TypeMismatch)
    );
    assert_eq!(
        path(&b, &["name"]).write(&mut host, &ScriptValue::Str("c".to_string())),
        Err(BridgeError::UnsupportedAssignment)
    );
    assert_eq!(
        path(&b, &["pos"]).write(&mut host, &ScriptValue::Table),
        Err(BridgeError::UnsupportedAssignment)
    );
    assert_eq!(path(&a, &["x"]).write(&mut host, &ScriptValue::Nil), Err(BridgeError::UnsupportedAssignment));
}

#[test]
fn handle_assignment_copies_the_value() {
    let (mut host, e1, e2) = two_entities();
    let g = host.new_ptr_state();
    let a1 = ReflectPtr::new(Location { entity: e1, type_id: A }, g);
    let a2 = ReflectPtr::new(Location { entity: e2, type_id: A }, g);
    // whole aggregate: e2's A becomes a copy of e1's A
    path(&a2, &[]).write(&mut host, &ScriptValue::Handle(a1.copy_ptr())).unwrap();
    assert!(matches!(path(&a2, &["x"]).read(&host), Ok(ReadValue::Int(1))));
    // a later change of the source does not show through the copy
    path(&a1, &["x"]).write(&mut host, &script_int(5)).unwrap();
    assert!(matches!(path(&a2, &["x"]).read(&host), Ok(ReadValue::Int(1))));
    // shapes that differ are refused
    let b = ReflectPtr::new(Location { entity: e1, type_id: B }, g);
    assert_eq!(
        path(&a2, &[]).write(&mut host, &ScriptValue::Handle(b)),
        Err(BridgeError::TypeMismatch)
    );
}

#[test]
fn read_of_text_and_aggregate() {
    let (mut host, e1, _) = two_entities();
    let g = host.new_ptr_state();
    let b = ReflectPtr::new(Location { entity: e1, type_id: B }, g);
    match path(&b, &["name"]).read(&host) {
        Ok(ReadValue::Text(s)) => assert_eq!(s, "b"),
        _ => panic!("expected text"),
    }
    assert!(matches!(path(&b, &["pos"]).read(&host), Ok(ReadValue::Aggregate(POS))));
}

#[test]
fn field_does_not_touch_memory() {
    let (mut host, e1, _) = two_entities();
    let g = host.new_ptr_state();
    let a = ReflectPtr::new(Location { entity: e1, type_id: A }, g);
    let f = a.field(&"nowhere".to_string());
    assert_eq!(f.path.len(), 1);
    assert_eq!(f.data, a.data);
    assert!(matches!(f.read(&host), Err(BridgeError::FieldNotFound)));
}

#[test]
fn handles_fail_after_their_window_closes() {
    let (mut host, _e1, _) = two_entities();
    let params = vec![SystemParameter::Query(vec![ComponentType::Mut(A)])];
    let mut run = host.begin_system(&params);
    let kept = match &mut run.params[0] {
        Materialized::Query(it) => it.next(),
        _ => panic!("expected a query"),
    };
    let x = path(&kept[0], &["x"]);
    assert!(matches!(x.read(&host), Ok(ReadValue::Int(1))));
    host.finish_system(run, true).unwrap();
    // the next tick
    let run2 = host.begin_system(&params);
    assert_eq!(x.read(&host).err(), Some(BridgeError::UseAfterInvalidation));
    assert_eq!(x.write(&mut host, &script_int(3)), Err(BridgeError::UseAfterInvalidation));
    assert_eq!(x.lua_add(&host, &script_int(1)), Err(BridgeError::UseAfterInvalidation));
    let functions = ObjectFunctionRegistry::new(SCALARS);
    assert!(matches!(
        kept[0].lua_index(&host, &functions, &"x".to_string()),
        Err(BridgeError::UseAfterInvalidation)
    ));
    assert_eq!(host.ptr_states[kept[0].ptr_state], PtrState::Invalid);
    host.finish_system(run2, true).unwrap();
}

#[test]
fn query_yields_one_row_in_declared_order() {
    let (host, e1, _e2) = two_entities();
    let filters = match build_parameter(&ParameterEntry::Filters(vec![
        Some(ComponentType::Ref(A)),
        Some(ComponentType::Mut(B)),
    ])) {
        Ok(SystemParameter::Query(f)) => f,
        _ => panic!("expected a query"),
    };
    let it = materialize(&host.world, &filters, 0);
    assert_eq!(it.components.len(), 1);
    let row = &it.components[0];
    assert_eq!(row.len(), 2);
    assert_eq!(row[0].data, ReflectType::Ptr(Location { entity: e1, type_id: A }));
    assert_eq!(row[1].data, ReflectType::Ptr(Location { entity: e1, type_id: B }));
}

#[test]
fn query_over_a_shared_component_matches_every_entity_in_order() {
    let (host, e1, e2) = two_entities();
    let it = materialize(&host.world, &vec![ComponentType::Ref(A)], 4);
    assert_eq!(it.components.len(), 2);
    assert_eq!(it.components[0][0].data, ReflectType::Ptr(Location { entity: e1, type_id: A }));
    assert_eq!(it.components[1][0].data, ReflectType::Ptr(Location { entity: e2, type_id: A }));
    assert_eq!(it.components[1][0].ptr_state, 4);
}

#[test]
fn empty_world_gives_no_rows() {
    let world = World::new();
    let it = materialize(&world, &vec![ComponentType::Ref(A)], 0);
    assert_eq!(it.remaining(), 0);
}

#[test]
fn iterator_exhaustion_returns_empty_rows() {
    let (host, _, _) = two_entities();
    let mut it = materialize(&host.world, &vec![ComponentType::Ref(A)], 0);
    assert_eq!(it.next().len(), 1);
    assert_eq!(it.next().len(), 1);
    assert_eq!(it.next().len(), 0);
    assert_eq!(it.next().len(), 0);
    assert_eq!(it.remaining(), 0);
}

#[test]
fn conflicting_access_modes_are_rejected() {
    let r = build_parameter(&ParameterEntry::Filters(vec![
        Some(ComponentType::Ref(A)),
        Some(ComponentType::Mut(A)),
    ]));
    assert!(matches!(r, Err(BridgeError::ConflictingAccessMode)));
}

#[test]
fn repeated_filter_counts_once() {
    let r = build_parameter(&ParameterEntry::Filters(vec![
        Some(ComponentType::Mut(B)),
        Some(ComponentType::Ref(A)),
        Some(ComponentType::Mut(B)),
    ]));
    match r {
        Ok(SystemParameter::Query(f)) => {
            assert_eq!(f, vec![ComponentType::Mut(B), ComponentType::Ref(A)])
        }
        _ => panic!("expected a query"),
    }
}

#[test]
fn parameter_entries_of_other_kinds() {
    assert!(matches!(
        build_parameter(&ParameterEntry::Commands(CommandQueueMarker)),
        Ok(SystemParameter::CommandQueue)
    ));
    assert!(matches!(build_parameter(&ParameterEntry::Other), Err(BridgeError::TypeMismatch)));
    assert!(matches!(
        build_parameter(&ParameterEntry::Filters(vec![Some(ComponentType::Ref(A)), None])),
        Err(BridgeError::TypeMismatch)
    ));
    let all = build_parameters(&vec![
        ParameterEntry::Commands(CommandQueueMarker),
        ParameterEntry::Filters(vec![Some(ComponentType::Ref(A))]),
    ])
    .unwrap();
    assert_eq!(all.len(), 2);
    assert!(matches!(all[0], SystemParameter::CommandQueue));
}

#[test]
fn duplicate_function_name_keeps_the_first() {
    let mut reg = ObjectFunctionRegistry::new(SCALARS);
    assert_eq!(reg.register(A, info("foo", vec![ArgMode::Ref])), Ok(0));
    assert_eq!(
        reg.register(A, info("foo", vec![ArgMode::Mut, ArgMode::Value])),
        Err(BridgeError::DuplicateFunctionName)
    );
    let i = reg.get(A, &"foo".to_string()).unwrap();
    assert_eq!(i, 0);
    assert_eq!(reg.map[i].info.params, vec![ArgMode::Ref]);
    // the same name on another type is a different function
    assert_eq!(reg.register(B, info("foo", vec![])), Ok(1));
    assert_eq!(reg.get(B, &"foo".to_string()), Some(1));
    assert_eq!(reg.get(B, &"bar".to_string()), None);
}

#[test]
fn lua_index_finds_methods_before_fields() {
    let (mut host, e1, _) = two_entities();
    let g = host.new_ptr_state();
    let mut reg = ObjectFunctionRegistry::new(SCALARS);
    reg.register(A, info("x", vec![ArgMode::Ref])).unwrap();
    let a = ReflectPtr::new(Location { entity: e1, type_id: A }, g);
    assert!(matches!(a.lua_index(&host, &reg, &"x".to_string()), Ok(IndexTarget::Method(0))));
    match a.lua_index(&host, &reg, &"flag".to_string()) {
        Ok(IndexTarget::Field(f)) => assert!(matches!(f.read(&host), Ok(ReadValue::Bool(false)))),
        _ => panic!("expected a field"),
    }
}

#[test]
fn arguments_are_marshaled_by_mode() {
    let (mut host, e1, _) = two_entities();
    let g = host.new_ptr_state();
    let a = ReflectPtr::new(Location { entity: e1, type_id: A }, g);
    let f = info("f", vec![ArgMode::Value, ArgMode::Mut, ArgMode::Ref, ArgMode::Value]);
    let args = vec![
        script_int(3),
        ScriptValue::Handle(a.copy_ptr()),
        ScriptValue::Handle(a.copy_ptr()),
        ScriptValue::Str("s".to_string()),
    ];
    let out = prepare_args(&host, &f, &args).unwrap();
    assert!(matches!(out[0], ArgValue::Int(3)));
    assert!(matches!(out[1], ArgValue::Mut(_)));
    assert!(matches!(out[2], ArgValue::Ref(_)));
    assert!(matches!(&out[3], ArgValue::Text(s) if s == "s"));
}

#[test]
fn argument_errors() {
    let (mut host, e1, _) = two_entities();
    let g = host.new_ptr_state();
    let f = info("f", vec![ArgMode::Value]);
    assert!(matches!(
        prepare_args(&host, &f, &vec![]),
        Err(BridgeError::ArgCountMismatch { expected: 1, received: 0 })
    ));
    for v in [ScriptValue::Nil, ScriptValue::Table, ScriptValue::Function, ScriptValue::Thread] {
        assert!(matches!(
            prepare_args(&host, &f, &vec![v]),
            Err(BridgeError::UnsupportedArgumentKind)
        ));
    }
    let bad = ReflectPtr::new(Location { entity: e1, type_id: A }, g).field(&"nope".to_string());
    assert!(matches!(
        prepare_args(&host, &f, &vec![ScriptValue::Handle(bad)]),
        Err(BridgeError::FieldNotFound)
    ));
}

#[test]
fn results_come_back_as_scalars_or_owned_handles() {
    let (mut host, _, _) = two_entities();
    let g = host.new_ptr_state();
    assert!(matches!(marshal_return(&mut host, HostValue::Int32(-4), g), Returned::Int(-4)));
    assert!(matches!(marshal_return(&mut host, HostValue::Bool(true), g), Returned::Bool(true)));
    assert_eq!(host.owned.len(), 0);
    match marshal_return(&mut host, a_value(9), g) {
        Returned::Handle(h) => {
            assert_eq!(h.data, ReflectType::Boxed(0));
            assert_eq!(h.ptr_state, g);
            // chained access keeps working in the same window
            assert!(matches!(path(&h, &["x"]).read(&host), Ok(ReadValue::Int(9))));
        }
        _ => panic!("expected a handle"),
    }
}

#[test]
fn addition_follows_the_numeric_kind() {
    let (mut host, e1, _) = two_entities();
    let g = host.new_ptr_state();
    let a = ReflectPtr::new(Location { entity: e1, type_id: A }, g);
    let b = ReflectPtr::new(Location { entity: e1, type_id: B }, g);
    assert_eq!(path(&a, &["x"]).lua_add(&host, &script_int(2)), Ok(3));
    assert_eq!(path(&b, &["pos", "y"]).lua_add(&host, &script_int(-25)), Ok(-5));
    path(&b, &["pos", "y"]).write(&mut host, &script_int(i64::MAX)).unwrap();
    assert_eq!(path(&b, &["pos", "y"]).lua_add(&host, &script_int(1)), Ok(i64::MIN));
    assert_eq!(path(&a, &["flag"]).lua_add(&host, &script_int(1)), Err(BridgeError::TypeMismatch));
}

#[test]
fn spawn_takes_owned_values_only() {
    let (mut host, e1, _) = two_entities();
    let g = host.new_ptr_state();
    let owned = ReflectPtr::new_boxed(&mut host, a_value(7), g);
    let borrowed = ReflectPtr::new(Location { entity: e1, type_id: A }, g);
    let mut q = CommandQueueWrapper { commands: vec![] };
    spawn(
        &mut q,
        &vec![ScriptValue::Handle(borrowed), script_int(1), ScriptValue::Handle(owned)],
    );
    assert_eq!(q.commands.len(), 1);
}

#[test]
fn failed_behavior_does_not_block_the_next_one() {
    let (mut host, _, _) = two_entities();
    let params = vec![SystemParameter::CommandQueue];

    // the first behavior queues a spawn, then its script fails
    let mut run_a = host.begin_system(&params);
    let va = marshal_return(&mut host, a_value(100), run_a.ptr_state);
    if let Materialized::Commands(q) = &mut run_a.params[0] {
        spawn(q, &vec![handed_back(va)]);
    }
    assert_eq!(host.finish_system(run_a, false), Err(BridgeError::ScriptRuntimeError));
    assert_eq!(host.world.entities.len(), 2);

    // the second behavior's commands are applied in the same tick
    let mut run_b = host.begin_system(&params);
    let vb = marshal_return(&mut host, b_value(1, 2), run_b.ptr_state);
    if let Materialized::Commands(q) = &mut run_b.params[0] {
        spawn(q, &vec![handed_back(vb)]);
    }
    assert_eq!(host.finish_system(run_b, true), Ok(()));
    assert_eq!(host.world.entities.len(), 3);
    assert_eq!(host.world.entities[2].components[0].type_id, B);
    let rows = materialize(&host.world, &vec![ComponentType::Ref(B)], 0);
    assert_eq!(rows.components.len(), 2);
}

#[test]
fn commands_apply_after_the_behavior_returns() {
    let (mut host, _, _) = two_entities();
    let params = vec![SystemParameter::CommandQueue, SystemParameter::Query(vec![ComponentType::Ref(A)])];
    let mut run = host.begin_system(&params);
    let v = marshal_return(&mut host, a_value(3), run.ptr_state);
    if let Materialized::Commands(q) = &mut run.params[0] {
        spawn(q, &vec![handed_back(v)]);
    }
    // nothing is spawned while the behavior runs
    assert_eq!(host.world.entities.len(), 2);
    host.finish_system(run, true).unwrap();
    assert_eq!(host.world.entities.len(), 3);
    assert_eq!(host.world.next_id, 3);
    assert!(host.owned[0].is_none());
}

#[test]
fn registration_closes_after_loading() {
    let mut app = WorldMut::new();
    let entry = WorldMut::query(ParameterEntry::Filters(vec![Some(ComponentType::Ref(A))]));
    assert_eq!(app.register_system(7, &vec![entry, ParameterEntry::Commands(CommandQueueMarker)]), Ok(()));
    assert_eq!(
        app.register_system(8, &vec![ParameterEntry::Filters(vec![
            Some(ComponentType::Ref(A)),
            Some(ComponentType::Mut(A)),
        ])]),
        Err(BridgeError::ConflictingAccessMode)
    );
    let systems = app.close();
    assert_eq!(systems.len(), 1);
    assert_eq!(systems[0].lua_func, 7);
    assert_eq!(systems[0].system_parameters.len(), 2);
    assert_eq!(app.register_system(9, &vec![]), Err(BridgeError::RegistrationClosed));
}

#[test]
fn redelivery_replaces_a_scripts_behaviors() {
    let mut set = ScriptSet::new();
    set.deliver("a.lua".to_string(), vec![LuaSystem { lua_func: 1, system_parameters: vec![] }]);
    set.deliver("b.lua".to_string(), vec![]);
    set.deliver(
        "a.lua".to_string(),
        vec![
            LuaSystem { lua_func: 2, system_parameters: vec![] },
            LuaSystem { lua_func: 3, system_parameters: vec![] },
        ],
    );
    assert_eq!(set.scripts.len(), 2);
    assert_eq!(set.scripts[0].id, "a.lua");
    assert_eq!(set.scripts[0].systems.len(), 2);
    assert_eq!(set.scripts[0].systems[0].lua_func, 2);
}

#[test]
fn resolve_and_copy_values() {
    let v = b_value(5, 6);
    let p = vec!["pos".to_string(), "x".to_string()];
    assert!(matches!(resolve_ref(&v, &p), Ok(HostValue::Int64(5))));
    let c = copy_value(&v);
    assert!(matches!(resolve_ref(&c, &p), Ok(HostValue::Int64(5))));
}

#[test]
fn user_data_wrapper_releases_once() {
    let mut w = UserDataWrapper::new(Location { entity: 1, type_id: A }, 5u32);
    assert_eq!(w.other, 5);
    assert_eq!(w.release(), Some(Location { entity: 1, type_id: A }));
    assert_eq!(w.release(), None);
}


fn split(path: &str) -> Vec<String> {
    let chars: Vec<char> = path.chars().collect();
    namespace_segments(&chars).into_iter().map(|s| s.into_iter().collect()).collect()
}

#[test]
fn namespace_mirrors_the_qualified_name() {
    assert_eq!(
        split("bevy_transform::components::transform::Transform"),
        vec!["bevy_transform", "components", "transform", "Transform"]
    );
    assert_eq!(split("Plain"), vec!["Plain"]);
    assert_eq!(split(""), vec![""]);
    assert_eq!(split("a:::b"), vec!["a", ":b"]);
    assert_eq!(split("a::"), vec!["a", ""]);
}

#[test]
fn owned_values_are_dropped_when_the_window_closes() {
    let (mut host, _, _) = two_entities();
    let run = host.begin_system(&vec![]);
    let g = run.ptr_state;
    let v = marshal_return(&mut host, a_value(8), g);
    assert!(host.owned[0].is_some());
    host.finish_system(run, true).unwrap();
    assert!(host.owned[0].is_none());
    match v {
        Returned::Handle(h) => {
            assert_eq!(h.read(&host).err(), Some(BridgeError::UseAfterInvalidation))
        }
        _ => panic!("expected a handle"),
    }
    assert_eq!(host.world.entities.len(), 2);
}

fn transform_like() -> HostValue {
    HostValue::Record {
        type_id: 9,
        fields: vec![
            field("scale", HostValue::Float32(1.0f32.to_bits())),
            field("weight", HostValue::Float64(2.0f64.to_bits())),
        ],
    }
}

#[test]
fn numbers_take_the_width_of_the_float_field() {
    let mut world = World::new();
    let e = world.spawn_entity(vec![Component { type_id: 9, value: transform_like() }]).unwrap();
    let mut host = Host::new(world);
    let g = host.new_ptr_state();
    let t = ReflectPtr::new(Location { entity: e, type_id: 9 }, g);
    let n = 0.1f64;
    let number = number(n);
    path(&t, &["scale"]).write(&mut host, &number).unwrap();
    path(&t, &["weight"]).write(&mut host, &number).unwrap();
    assert!(matches!(path(&t, &["scale"]).read(&host), Ok(ReadValue::Float32(b)) if b == 0.1f32.to_bits()));
    assert!(matches!(path(&t, &["weight"]).read(&host), Ok(ReadValue::Float64(b)) if b == 0.1f64.to_bits()));
    // an integer goes into a float field as its nearest float
    path(&t, &["scale"]).write(&mut host, &script_int(3)).unwrap();
    assert!(matches!(path(&t, &["scale"]).read(&host), Ok(ReadValue::Float32(b)) if b == 3.0f32.to_bits()));
    path(&t, &["weight"]).write(&mut host, &script_int(-5)).unwrap();
    assert!(matches!(path(&t, &["weight"]).read(&host), Ok(ReadValue::Float64(b)) if b == (-5.0f64).to_bits()));
    // a number goes into an integer field as its integer part, saturated to the field's width
    let (mut host2, e1, _) = two_entities();
    let g2 = host2.new_ptr_state();
    let x = path(&ReflectPtr::new(Location { entity: e1, type_id: A }, g2), &["x"]);
    x.write(&mut host2, &number).unwrap();
    assert!(matches!(x.read(&host2), Ok(ReadValue::Int(0))));
    x.write(&mut host2, &self::number(1.5)).unwrap();
    assert!(matches!(x.read(&host2), Ok(ReadValue::Int(1))));
    x.write(&mut host2, &self::number(-2.7)).unwrap();
    assert!(matches!(x.read(&host2), Ok(ReadValue::Int(-2))));
    x.write(&mut host2, &self::number(12.0)).unwrap();
    assert!(matches!(x.read(&host2), Ok(ReadValue::Int(12))));
    x.write(&mut host2, &self::number(1.0e12)).unwrap();
    assert!(matches!(x.read(&host2), Ok(ReadValue::Int(v)) if v == i32::MAX as i64));
    let b = ReflectPtr::new(Location { entity: e1, type_id: B }, g2);
    let y = path(&b, &["pos", "y"]);
    y.write(&mut host2, &self::number(1.0e12 + 0.5)).unwrap();
    assert!(matches!(y.read(&host2), Ok(ReadValue::Int(1_000_000_000_000))));
    // host floats come back to the script as they are
    assert!(matches!(
        marshal_return(&mut host, HostValue::Float32(3.5f32.to_bits()), g),
        Returned::Float32(b) if b == 3.5f32.to_bits()
    ));
}

#[test]
fn methods_on_scalar_kinds_are_found() {
    let (mut host, e1, _) = two_entities();
    let g = host.new_ptr_state();
    let mut reg = ObjectFunctionRegistry::new(SCALARS);
    reg.register(SCALARS.int32_type, info("double", vec![ArgMode::Value])).unwrap();
    let x = path(&ReflectPtr::new(Location { entity: e1, type_id: A }, g), &["x"]);
    assert!(matches!(x.lua_index(&host, &reg, &"double".to_string()), Ok(IndexTarget::Method(0))));
    let flag = path(&ReflectPtr::new(Location { entity: e1, type_id: A }, g), &["flag"]);
    assert!(matches!(flag.lua_index(&host, &reg, &"double".to_string()), Ok(IndexTarget::Field(_))));
}

#[test]
fn fields_of_other_kinds_are_reached_but_not_assigned() {
    let mut world = World::new();
    let e = world.spawn_entity(vec![Component {
        type_id: 9,
        value: HostValue::Record { type_id: 9, fields: vec![field("mode", HostValue::Opaque(77))] },
    }])
    .unwrap();
    let mut host = Host::new(world);
    let g = host.new_ptr_state();
    let mode = path(&ReflectPtr::new(Location { entity: e, type_id: 9 }, g), &["mode"]);
    assert!(matches!(mode.read(&host), Ok(ReadValue::Opaque(77))));
    assert_eq!(mode.write(&mut host, &script_int(1)), Err(BridgeError::TypeMismatch));
    assert_eq!(mode.write(&mut host, &ScriptValue::Str("a".to_string())), Err(BridgeError::UnsupportedAssignment));
}

#[test]
fn spawning_refuses_two_components_of_one_type() {
    let mut world = World::new();
    let r = world.spawn_entity(vec![
        Component { type_id: A, value: a_value(1) },
        Component { type_id: A, value: a_value(2) },
    ]);
    assert_eq!(r, None);
    assert_eq!(world.entities.len(), 0);
    assert_eq!(world.spawn_entity(vec![]), Some(0));
    assert_eq!(world.spawn_entity(vec![]), Some(1));
    world.next_id = u64::MAX;
    assert_eq!(world.spawn_entity(vec![]), None);
    assert_eq!(world.entities.len(), 2);
}
