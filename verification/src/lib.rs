//! A bridge between a dynamically typed scripting language and an
//! entity-component-system world.
//!
//! A script names types by strings and entities by opaque handles. The
//! bridge resolves the names against the world's type registry, checks every
//! handle against the world before it touches storage, and hands back plain
//! snapshots. All access goes through [`ScriptWorld`]: shared borrows read,
//! exclusive borrows write.

pub mod component;
pub mod ecs;
pub mod hierarchy;
pub mod identity;
pub mod query;
pub mod registry;
pub mod resource;
pub mod types;
pub mod world;

pub use identity::LuaScriptData;
pub use query::{QueryBuilder, QueryCursor, QueryResult};
pub use types::{BridgeError, DynamicValue, EntityId, TypeHandle};
pub use world::ScriptWorld;
