use vstd::prelude::*;

use crate::handle::{guards_kept, Host, PtrState, ReflectType, ScriptValue};
use crate::query::{
    build_parameters, built_from, first_entry_error, materialize, matched, rows_match,
    IteratorState, ParameterEntry, SystemParameter,
};
use crate::value::{BridgeError, HostValue, Val};
use crate::world::{world_wf, Component};

verus! {

/// A deferred structural change.
pub enum Command {
    /// Spawn an entity from the value owned by a slot, once the behavior has returned.
    Spawn(usize),
}

/// The deferred-mutation sink of one behavior invocation.
pub struct CommandQueueWrapper {
    pub commands: Vec<Command>,
}

pub open spec fn command_slot(c: Command) -> usize {
    match c {
        Command::Spawn(s) => s,
    }
}

pub open spec fn queue_slots(q: CommandQueueWrapper) -> Seq<usize> {
    q.commands@.map_values(|c: Command| command_slot(c))
}

/// The owned slots that the values of `table` hand over to a spawn; anything else is passed over.
pub open spec fn spawn_slots(table: Seq<ScriptValue>) -> Seq<usize>
    decreases table.len(),
{
    if table.len() == 0 {
        Seq::empty()
    } else {
        let rest = spawn_slots(table.drop_last());
        match table.last() {
            ScriptValue::Handle(p) => match p.data {
                ReflectType::Boxed(s) => rest.push(s),
                ReflectType::Ptr(_) => rest,
            },
            _ => rest,
        }
    }
}

/// Queues a spawn for each value of `table` that a handle owns; one entity per value.
pub fn spawn(this: &mut CommandQueueWrapper, table: &Vec<ScriptValue>)
    ensures
        queue_slots(*final(this)) == queue_slots(*old(this)) + spawn_slots(table@),
{
    let mut i: usize = 0;
    while i < table.len()
        invariant
            i <= table.len(),
            queue_slots(*this) == queue_slots(*old(this)) + spawn_slots(table@.subrange(0, i as int)),
        decreases table.len() - i,
    {
        let ghost q0 = queue_slots(*this);
        let ghost sub = table@.subrange(0, i as int + 1);
        proof {
            assert(sub.drop_last() =~= table@.subrange(0, i as int));
            assert(sub.last() == table@[i as int]);
        }
        match &table[i] {
            ScriptValue::Handle(p) => match p.data {
                ReflectType::Boxed(s) => {
                    this.commands.push(Command::Spawn(s));
                    proof {
                        assert(queue_slots(*this) =~= q0.push(s));
                    }
                },
                ReflectType::Ptr(_) => {},
            },
            _ => {},
        }
        proof {
            assert(queue_slots(*this) =~= queue_slots(*old(this)) + spawn_slots(sub));
        }
        i += 1;
    }
    proof {
        assert(table@.subrange(0, table.len() as int) =~= table@);
    }
}

/// The part of the host that applying commands reads and changes.
pub ghost struct HostState {
    pub entities: Seq<(u64, Seq<(u64, Val)>)>,
    pub next_id: u64,
    pub owned: Seq<Option<Val>>,
}

pub open spec fn owned_view(o: Option<HostValue>) -> Option<Val> {
    match o {
        Some(v) => Some(v@),
        None => None,
    }
}

pub open spec fn host_state(h: Host) -> HostState {
    HostState {
        entities: h.world@.entities,
        next_id: h.world@.next_id,
        owned: h.owned@.map_values(|o: Option<HostValue>| owned_view(o)),
    }
}

/// A spawn of the value in `slot`: the slot is emptied, and a struct-shaped value becomes the
/// one component of a new entity, while unused identities remain.
pub open spec fn apply_one(s: HostState, slot: usize) -> HostState {
    if slot < s.owned.len() && s.owned[slot as int] is Some {
        let v = s.owned[slot as int]->0;
        let owned = s.owned.update(slot as int, None);
        match v {
            Val::Record(t, _) => if s.next_id < u64::MAX {
                HostState {
                    entities: s.entities.push((s.next_id, seq![(t, v)])),
                    next_id: (s.next_id + 1) as u64,
                    owned,
                }
            } else {
                HostState { owned, ..s }
            },
            _ => HostState { owned, ..s },
        }
    } else {
        s
    }
}

pub open spec fn apply_all(s: HostState, slots: Seq<usize>) -> HostState
    decreases slots.len(),
{
    if slots.len() == 0 {
        s
    } else {
        apply_one(apply_all(s, slots.drop_last()), slots.last())
    }
}

/// Applies the commands of `queue` to the host, in the order they were queued.
pub fn apply_commands(host: &mut Host, queue: &CommandQueueWrapper)
    ensures
        host_state(*final(host)) == apply_all(host_state(*old(host)), queue_slots(*queue)),
        final(host).ptr_states@ == old(host).ptr_states@,
        world_wf(old(host).world@) ==> world_wf(final(host).world@),
{
    let ghost slots = queue_slots(*queue);
    let mut i: usize = 0;
    while i < queue.commands.len()
        invariant
            i <= queue.commands.len(),
            slots == queue_slots(*queue),
            slots.len() == queue.commands.len(),
            host_state(*host) == apply_all(host_state(*old(host)), slots.subrange(0, i as int)),
            host.ptr_states@ == old(host).ptr_states@,
            world_wf(old(host).world@) ==> world_wf(host.world@),
        decreases queue.commands.len() - i,
    {
        let ghost s0 = host_state(*host);
        proof {
            assert(slots.subrange(0, i as int + 1).drop_last() =~= slots.subrange(0, i as int));
        }
        let slot = match &queue.commands[i] {
            Command::Spawn(s) => *s,
        };
        let taken = host.take_owned(slot);
        proof {
            if slot < s0.owned.len() {
                assert(s0.owned[slot as int] == owned_view(taken));
            }
            assert(host_state(*host).owned =~= if slot < s0.owned.len() {
                s0.owned.update(slot as int, None)
            } else {
                s0.owned
            });
        }
        match taken {
            Some(v) => {
                match v {
                    HostValue::Record { type_id, fields } => {
                        let value = HostValue::Record { type_id, fields };
                        let ghost vv = value@;
                        let mut components: Vec<Component> = Vec::new();
                        components.push(Component { type_id, value });
                        let ghost s1 = host_state(*host);
                        let _ = host.world.spawn_entity(components);
                        proof {
                            assert(crate::world::components_view(components@) =~= seq![(type_id, vv)]);
                            assert(crate::world::distinct_keys(seq![(type_id, vv)]));
                            assert(s1.owned == host_state(*host).owned);
                            assert(host_state(*host) == apply_one(s0, slot));
                        }
                    },
                    _ => {
                        proof {
                            assert(host_state(*host) == apply_one(s0, slot));
                        }
                    },
                }
            },
            None => {
                proof {
                    if slot < s0.owned.len() {
                        assert(s0.owned.update(slot as int, None) =~= s0.owned);
                    }
                    assert(host_state(*host) == apply_one(s0, slot));
                }
            },
        }
        i += 1;
    }
    proof {
        assert(slots.subrange(0, slots.len() as int) =~= slots);
    }
}

/// What a parameter became for one invocation: the rows of a query, or an empty sink.
pub enum Materialized {
    Query(IteratorState),
    Commands(CommandQueueWrapper),
}

/// One behavior invocation in flight: its guard and its materialized parameters.
pub struct SystemRun {
    pub ptr_state: usize,
    pub params: Vec<Materialized>,
}

/// `m` is what `p` became over `es` under guard `g`.
pub open spec fn materialized_from(
    m: Materialized,
    p: SystemParameter,
    es: Seq<(u64, Seq<(u64, Val)>)>,
    g: usize,
) -> bool {
    match (p, m) {
        (SystemParameter::Query(fs), Materialized::Query(it)) => it.ptr_state == g && rows_match(
            it.components@,
            matched(es, fs@),
            fs@,
            g,
        ),
        (SystemParameter::CommandQueue, Materialized::Commands(q)) => q.commands@.len() == 0,
        _ => false,
    }
}

/// The host after the sinks among `ms[..n]` are applied, in order.
pub open spec fn apply_sinks(s: HostState, ms: Seq<Materialized>, n: int) -> HostState
    decreases n,
{
    if n <= 0 {
        s
    } else {
        let prev = apply_sinks(s, ms, n - 1);
        match ms[n - 1] {
            Materialized::Commands(q) => apply_all(prev, queue_slots(q)),
            Materialized::Query(_) => prev,
        }
    }
}

/// `s` with every owned value dropped: once a window closes no valid handle reaches them.
pub open spec fn released(s: HostState) -> HostState {
    HostState { owned: Seq::new(s.owned.len(), |i: int| None), ..s }
}

/// The host after a behavior's invocation window closes: on success its sinks are applied; in
/// every case its guard is invalid and the values that its handles owned are dropped.
pub open spec fn finished(a: Host, b: Host, run: SystemRun, succeeded: bool) -> bool {
    &&& host_state(b) == released(
        if succeeded {
            apply_sinks(host_state(a), run.params@, run.params.len() as int)
        } else {
            host_state(a)
        },
    )
    &&& run.ptr_state < a.ptr_states.len() ==> b.ptr_states@ == a.ptr_states@.update(
        run.ptr_state as int,
        PtrState::Invalid,
    )
    &&& run.ptr_state >= a.ptr_states.len() ==> b.ptr_states@ == a.ptr_states@
}

impl Host {
    /// Opens a behavior's invocation window: a fresh guard, and each parameter materialized
    /// against the world as it is now.
    pub fn begin_system(&mut self, params: &Vec<SystemParameter>) -> (run: SystemRun)
        ensures
            run.ptr_state == old(self).ptr_states.len(),
            final(self).ptr_states@ == old(self).ptr_states@.push(PtrState::Valid),
            guards_kept(*old(self), *final(self)),
            final(self).world@ == old(self).world@,
            final(self).owned@ == old(self).owned@,
            run.params.len() == params.len(),
            forall|i: int|
                0 <= i < params.len() ==> materialized_from(
                    #[trigger] run.params@[i],
                    params@[i],
                    old(self).world@.entities,
                    run.ptr_state,
                ),
    {
        let g = self.new_ptr_state();
        let mut out: Vec<Materialized> = Vec::new();
        let mut i: usize = 0;
        while i < params.len()
            invariant
                i <= params.len(),
                out.len() == i,
                self.world@ == old(self).world@,
                forall|j: int|
                    0 <= j < i ==> materialized_from(
                        #[trigger] out@[j],
                        params@[j],
                        old(self).world@.entities,
                        g,
                    ),
            decreases params.len() - i,
        {
            let m = match &params[i] {
                SystemParameter::Query(fs) => Materialized::Query(materialize(&self.world, fs, g)),
                SystemParameter::CommandQueue => Materialized::Commands(
                    CommandQueueWrapper { commands: Vec::new() },
                ),
            };
            out.push(m);
            i += 1;
        }
        SystemRun { ptr_state: g, params: out }
    }

    /// Closes a behavior's invocation window. The deferred commands are applied only if the
    /// script returned without error; the guard is invalidated and the owned values are dropped
    /// either way. A script error comes
    /// back as `ScriptRuntimeError`, for the caller to report and move on.
    pub fn finish_system(&mut self, run: SystemRun, succeeded: bool) -> (r: Result<(), BridgeError>)
        ensures
            finished(*old(self), *final(self), run, succeeded),
            guards_kept(*old(self), *final(self)),
            world_wf(old(self).world@) ==> world_wf(final(self).world@),
            succeeded ==> r is Ok,
            !succeeded ==> r == Err::<(), BridgeError>(BridgeError::ScriptRuntimeError),
    {
        if succeeded {
            let mut i: usize = 0;
            while i < run.params.len()
                invariant
                    i <= run.params.len(),
                    host_state(*self) == apply_sinks(host_state(*old(self)), run.params@, i as int),
                    self.ptr_states@ == old(self).ptr_states@,
                    world_wf(old(self).world@) ==> world_wf(self.world@),
                decreases run.params.len() - i,
            {
                match &run.params[i] {
                    Materialized::Commands(q) => {
                        apply_commands(self, q);
                    },
                    Materialized::Query(_) => {},
                }
                i += 1;
            }
        }
        self.invalidate(run.ptr_state);
        let ghost before = host_state(*self);
        self.release_owned();
        proof {
            assert(host_state(*self).owned =~= released(before).owned);
        }
        if succeeded {
            Ok(())
        } else {
            Err(BridgeError::ScriptRuntimeError)
        }
    }
}

/// A registered behavior: the script function, by the key it is stashed under, and what it asks
/// for.
pub struct LuaSystem {
    pub lua_func: u64,
    pub system_parameters: Vec<SystemParameter>,
}

/// The root object that a script sees while it loads: it collects the behaviors that the script
/// registers, and refuses registrations once loading is over.
pub struct WorldMut {
    pub systems: Vec<LuaSystem>,
    pub open: bool,
}

impl WorldMut {
    pub fn new() -> (r: WorldMut)
        ensures
            r.systems@.len() == 0,
            r.open,
    {
        WorldMut { systems: Vec::new(), open: true }
    }

    /// A query descriptor is the parameter table entry itself.
    pub fn query(descriptor: ParameterEntry) -> (r: ParameterEntry)
        ensures
            r == descriptor,
    {
        descriptor
    }

    /// Registers `function` with its parameter table. A table that does not build, or a
    /// registration after loading, changes nothing.
    pub fn register_system(&mut self, function: u64, parameters: &Vec<ParameterEntry>) -> (r:
        Result<(), BridgeError>)
        ensures
            final(self).open == old(self).open,
            !old(self).open ==> r == Err::<(), BridgeError>(BridgeError::RegistrationClosed)
                && final(self).systems@ == old(self).systems@,
            old(self).open && first_entry_error(parameters@, 0) is Some ==> r == Err::<
                (),
                BridgeError,
            >(first_entry_error(parameters@, 0)->0) && final(self).systems@ == old(self).systems@,
            old(self).open && first_entry_error(parameters@, 0) is None ==> {
                &&& r is Ok
                &&& final(self).systems@.len() == old(self).systems@.len() + 1
                &&& final(self).systems@.drop_last() == old(self).systems@
                &&& final(self).systems@.last().lua_func == function
                &&& final(self).systems@.last().system_parameters.len() == parameters.len()
                &&& forall|i: int|
                    0 <= i < parameters.len() ==> built_from(
                        #[trigger] final(self).systems@.last().system_parameters@[i],
                        parameters@[i],
                    )
            },
    {
        if !self.open {
            return Err(BridgeError::RegistrationClosed);
        }
        match build_parameters(parameters) {
            Err(e) => Err(e),
            Ok(ps) => {
                self.systems.push(LuaSystem { lua_func: function, system_parameters: ps });
                proof {
                    assert(self.systems@.drop_last() =~= old(self).systems@);
                }
                Ok(())
            },
        }
    }

    /// Ends loading: hands over the registered behaviors and refuses any later registration.
    pub fn close(&mut self) -> (r: Vec<LuaSystem>)
        ensures
            r@ == old(self).systems@,
            final(self).systems@.len() == 0,
            !final(self).open,
    {
        self.open = false;
        let mut out: Vec<LuaSystem> = Vec::new();
        std::mem::swap(&mut out, &mut self.systems);
        out
    }
}

/// The behaviors of one loaded script.
pub struct LoadedScript {
    pub id: String,
    pub systems: Vec<LuaSystem>,
}

pub open spec fn find_script(ss: Seq<LoadedScript>, id: Seq<char>, i: int) -> int
    decreases ss.len() - i,
{
    if i < 0 || i >= ss.len() {
        -1
    } else if ss[i].id@ == id {
        i
    } else {
        find_script(ss, id, i + 1)
    }
}

/// Every loaded script's behaviors, in load order.
pub struct ScriptSet {
    pub scripts: Vec<LoadedScript>,
}

impl ScriptSet {
    pub fn new() -> (r: ScriptSet)
        ensures
            r.scripts@.len() == 0,
    {
        ScriptSet { scripts: Vec::new() }
    }

    /// Installs the behaviors of script `id`; a second delivery of one identifier replaces the
    /// whole earlier set.
    pub fn deliver(&mut self, id: String, systems: Vec<LuaSystem>)
        ensures
            find_script(old(self).scripts@, id@, 0) >= 0 ==> final(self).scripts@ == old(
                self,
            ).scripts@.update(find_script(old(self).scripts@, id@, 0), LoadedScript { id, systems }),
            find_script(old(self).scripts@, id@, 0) < 0 ==> final(self).scripts@ == old(
                self,
            ).scripts@.push(LoadedScript { id, systems }),
    {
        let mut i: usize = 0;
        while i < self.scripts.len()
            invariant
                i <= self.scripts.len(),
                self.scripts@ == old(self).scripts@,
                find_script(self.scripts@, id@, 0) == find_script(self.scripts@, id@, i as int),
            decreases self.scripts.len() - i,
        {
            if self.scripts[i].id == id {
                proof {
                    assert(find_script(self.scripts@, id@, 0) == i as int);
                }
                self.scripts.set(i, LoadedScript { id, systems });
                return;
            }
            i += 1;
        }
        self.scripts.push(LoadedScript { id, systems });
    }
}

} // verus!
