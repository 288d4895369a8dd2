//! Configuration core of the krait package manager: a typed settings model,
//! a renderer that writes it as Lua table source, a reader for that source,
//! and the session rules for exposing the settings to package scripts.

pub mod bridge;
pub mod config;
pub mod console;
pub mod laws;
pub mod lexis;
pub mod number;
pub mod parse;
pub mod render;
pub mod resolver;
pub mod roundtrip;
pub mod schema;
pub mod sections;
pub mod text;
pub mod value;

pub use bridge::{BridgeError, Session, SessionState};
pub use config::{ConfigError, ConfigPatch, KraitConfig, ModelError};
pub use render::RenderError;
pub use resolver::ResolverError;
pub use schema::Field;
pub use sections::{NPConfig, NPDir, NPInfo, NP};
pub use value::{Entry, Value};
