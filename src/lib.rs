//! Message-context resolution and command dispatch for a chat bot, over texts
//! that share their backing buffers.

pub mod codedb;
pub mod command;
pub mod command_registry;
pub mod context;
pub mod cratesio;
pub mod egg;
pub mod playground;
pub mod shared_str;

pub use codedb::{CodeDB, Entry, InsertError, Value};
pub use command::Command;
pub use command_registry::{
    Call, CommandRegistry, FallbackHandler, Flow, HandlerRef, NamedHandler,
};
pub use context::{Context, InboundMessage, Outgoing, ReplyKind};
pub use shared_str::SharedStr;
