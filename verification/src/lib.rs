//! The scripting core of a game engine: script values and the Clojure core
//! functions on them, name-keyed registries, the command system that queues
//! script commands for the engine's world and delivers their results, the
//! engine's entity data, and the REPL server's decisions.
pub mod clojure;
pub mod plugins;
pub mod registry;
pub mod repl_server;
pub mod script;
pub mod value;

pub use registry::{AnimationRegistry, ComponentBuilderRegistry, NameMap, TemplateRegistry};
pub use value::{PtrValue, Value};
