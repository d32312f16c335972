//! Static analysis of JavaScript and TypeScript projects: which source files,
//! assets, declared dependencies and named exports nothing reachable uses.

pub mod analysis;
pub mod assets;
pub mod candidates;
pub mod config;
pub mod entries;
pub mod findings;
pub mod graph;
pub mod json;
pub mod laws;
pub mod manifest;
pub mod marks;
pub mod matching;
pub mod order;
pub mod parser;
pub mod paths;
pub mod picker;
pub mod report;
pub mod resolver;
pub mod specifier;
pub mod stripper;
pub mod text;
pub mod tokens;
pub mod tree;
pub mod usage;
