//! A call-by-value evaluator for a small System-F-style calculus: variables,
//! lambda abstraction, universal type abstraction and application, tuples,
//! primitive binary operators, conditionals, and let-bindings with
//! destructuring patterns.
//!
//! The evaluator is environment-based: bindings live in a layered stack of
//! scope frames (`store::Snapshot`), entered and exited around every binder.
//! Its behaviour is pinned down by a purely functional reference semantics
//! (`interp::eval_spec`) over a flat mathematical environment, and every
//! executable evaluation function is proved to agree with that semantics.

pub mod ast;
pub mod error;
pub mod interp;
pub mod laws;
pub mod names;
pub mod store;
