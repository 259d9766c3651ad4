//! A bridge between a dynamically typed scripting language and a component-based host world.
//!
//! Scripts reach host data only through reflective handles ([`handle::ReflectPtr`]): a backing,
//! a field path resolved on each access, and a validity guard that closes when the behavior's
//! invocation window ends. Host functions are looked up per type in
//! [`registry::ObjectFunctionRegistry`]; behaviors describe what they need with parameter
//! tables ([`query`]), and [`scheduler`] materializes those each tick, applies deferred
//! commands, and closes the window.

pub mod handle;
pub mod laws;
pub mod namespace;
pub mod query;
pub mod registry;
pub mod scheduler;
pub mod userdata;
pub mod value;
pub mod world;

pub use handle::{Host, PtrState, ReflectPtr, ReflectType, ScriptValue};
pub use query::{CommandQueueMarker, ComponentType, IteratorState, SystemParameter};
pub use registry::ObjectFunctionRegistry;
pub use scheduler::{spawn, CommandQueueWrapper, LuaSystem, WorldMut};
pub use userdata::UserDataWrapper;
pub use value::BridgeError;
