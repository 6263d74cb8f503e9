//! Verified core of a line-oriented browser-automation interpreter.
//!
//! The library turns text commands into structured actions, resolves
//! element-identifier expressions, and tracks interaction history so that
//! context-dependent actions (typing, pressing Enter) can find their
//! implicit target.  All protocol traffic and file reading is left to the
//! surrounding program; the library states and proves what each decision
//! returns.

pub mod action_executor;
pub mod cmd_functions;
pub mod cmd_parser;
pub mod text;
