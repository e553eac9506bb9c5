//! Rule-based agents.
//!
//! An agent holds variables and a mailbox, and runs a program of rules. A
//! rule names conditions on the variables and the mailbox, and actions.
//! When the conditions of the rule whose turn it is hold, its actions run
//! as one transaction on a copy of the variables, and the outcome is
//! committed to the agent's state, or not at all.
//!
//! - [`value`]: values, objects and dotted names.
//! - [`table`]: the map with string keys that objects and queues are kept in.
//! - [`ast`] and [`grammar`]: the text form of a program.
//! - [`runtime`]: compiled rules, the committed state, evaluation,
//!   transactions, and what a running script may ask.
//! - [`agent`]: an agent's turn-taking, and what travels between agents and
//!   their supervisor.
//! - [`error`]: what can go wrong.
//! - [`text`]: string helpers.
pub mod agent;
pub mod ast;
pub mod error;
pub mod grammar;
pub mod runtime;
pub mod table;
pub mod text;
pub mod value;
