//! An interactive command shell's interpreter: the three parsing passes, the
//! expansion of substitutions, aliases, variables and the home marker, the
//! shared session state with its built-ins, and the wiring plan of pipelines.

pub mod builtins;
pub mod colors;
pub mod errors;
pub mod expand;
pub mod grammar;
pub mod initial;
pub mod pipeline;
pub mod prompt;
pub mod replacements;
pub mod state;
pub mod text;
pub mod types;
