//! Core of a live-coding audio synthesis engine.
//!
//! A program is a flat, postfix sequence of operators that transform a stack
//! of samples once per output frame.  The compiler turns identified textual
//! tokens into an executable [`Program`] while preserving the internal state
//! of stateful operators across edits, and the [`VM`] drives the active
//! program once per sample period.

pub mod compiler;
pub mod edit;
pub mod op;
pub mod sample;
pub mod stack;
pub mod vm;

pub use compiler::{
    compile_program, get_help, get_op_groups, CompileError, Context, TextOp, MAX_STACK,
};
pub use op::{Op, OpKind, OpState};
pub use vm::{Program, VM};
pub use sample::{Frame, Sample, CHANNELS, SAMPLE_UNIT};
pub use stack::Stack;
