//! A rule-driven rewrite engine for syntax trees: it finds legacy idioms,
//! replaces them node by node, and keeps count of the rules that fired.
//!
//! The engine works on its own tree type, [`node::Node`]. Parsing text into
//! trees and printing trees as text are left to the caller.

pub mod laws;
pub mod matcher;
pub mod modernizer;
pub mod node;
pub mod rule;
pub mod template;
pub mod text;
pub mod tracker;
pub mod walk;
