//! Core of a policy-based authorization engine: a value model, an entity
//! store, an expression evaluator with checked arithmetic and short-circuit
//! semantics, and an authorizer that combines per-policy outcomes.
pub mod text;
pub mod value;
pub mod ast;
pub mod err;
pub mod entities;
pub mod request;
pub mod extensions;
pub mod sorting;
pub mod pattern;
pub mod semantics;
pub mod evaluator;
pub mod policy;
pub mod authorizer;
pub mod policy_set;
pub mod laws;
pub mod restricted;
pub mod display;
pub mod messages;
pub mod names;
pub mod frontend;
pub mod literal;
pub mod ipaddr;
pub mod lexer;
pub mod grammar;
pub mod parser;
pub mod json;
pub mod hierarchy;
pub mod wellformed;
pub mod agreement;
