//! The rule engine: compiled rules, committed state, evaluation and
//! transactions.
pub mod context;
pub mod model;
pub mod script;
pub mod state;
pub mod transaction;

pub use self::context::Context;
pub use self::model::{Action, Condition, Match};
pub use self::script::Request as ScriptRequest;
pub use self::script::Response as ScriptResponse;
pub use self::state::{State, Storage};
pub use self::transaction::{Step, Transaction};
pub use crate::ast::CmpOpcode;
pub use crate::error::Error;
