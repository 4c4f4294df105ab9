//! Width, sign, routing and classification logic of a SystemVerilog
//! elaborator, with its contracts.

pub mod ast;
pub mod names;
pub mod ir;
pub mod expr_ctx;
pub mod elab;
pub mod ir_width;
pub mod graph;
pub mod frames_ast;
pub mod calls;
pub mod frames_set;
pub mod scope;
pub mod pkg;
pub mod casts;
pub mod format;
pub mod frame_check;
pub mod hier;
pub mod args;
pub mod events;
pub mod frame_unsafe;
pub mod census;
pub mod dup;
pub mod facts;
pub mod size_ctx;
pub mod lower;
pub mod task_call;
pub mod dyn_method;
pub mod cast_lower;
pub mod dyn_assign;
pub mod laws;
