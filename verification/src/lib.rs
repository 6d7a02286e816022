//! Error-flow analysis core for ErrorScript: error-type sets and abstract
//! values, standard global effects, module references, the call graph's
//! resolution and strongly connected components, the solver's scheduling and
//! summary store, file discovery by glob patterns, editor bookkeeping and
//! text positions.
pub mod text;
pub mod keyed;
pub mod sorted;
pub mod names;
pub mod path;
pub mod report;
pub mod config;
pub mod cli;
pub mod ident;
pub mod module_id;
pub mod error;
pub mod builtins;
pub mod set;
pub mod globals;
pub mod references;
pub mod value;
pub mod env;
pub mod flow;
pub mod subtype;
pub mod function;
pub mod queue;
pub mod rounds;
pub mod editor;
pub mod refresh;
pub mod exports;
pub mod schedule;
pub mod resolve;
pub mod walk;
pub mod lines;
pub mod bindings;
pub mod arguments;
pub mod analysis;
