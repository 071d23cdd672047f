//! A lazy, purely functional expression language: its syntax tree, the
//! bytecode it compiles to, and the machine that runs the bytecode.
pub mod attrs;
pub mod builtin_laws;
pub mod builtins;
pub mod call_laws;
pub mod closure;
pub mod closure_laws;
pub mod code_laws;
pub mod collection_laws;
pub mod compile;
pub mod conts;
pub mod data_laws;
pub mod docs;
pub mod entries;
pub mod eval;
pub mod families;
pub mod flow_laws;
pub mod frames;
pub mod heap;
pub mod host;
pub mod ir;
pub mod json;
pub mod laws;
pub mod list_laws;
pub mod lists;
pub mod literals;
pub mod memory;
pub mod memory_laws;
pub mod name_laws;
pub mod operator_laws;
pub mod ops;
pub mod outside;
pub mod print;
pub mod quote;
pub mod scope_laws;
pub mod scopes;
pub mod set_laws;
pub mod sort_laws;
pub mod step;
pub mod strings;
pub mod syntax;
pub mod table_laws;
pub mod tasks;
pub mod text_laws;
pub mod units;
pub mod vm;
pub mod walker;
pub mod walks;
