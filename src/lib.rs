//! A verified engine that rewrites typed dataflow graphs: it finds every
//! embedding of a rule's pattern, applies a node-disjoint selection of them
//! per round until no rule matches, and drives a pipeline of such stages
//! that turns a gate circuit into a measurement-based pattern.

pub mod graph;
pub mod acyclic;
pub mod builder;
pub mod rule;
pub mod matcher;
pub mod rewrite;
pub mod scheduler;
pub mod registry;
pub mod patterns;
pub mod stages;
pub mod viz;
