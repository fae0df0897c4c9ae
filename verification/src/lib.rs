//! Back end of a small compiler: three-address code for one function body is
//! turned into x86-64 assembly text.
//!
//! The stages run in this order:
//!
//! 1. [`select`]: every three-address instruction becomes one or more machine
//!    instructions whose operands may still name temporaries.
//! 2. [`resolve`]: every temporary is given a 4-byte slot below the frame base.
//! 3. [`legalize`]: instructions that the target cannot encode are routed
//!    through the scratch registers, and the frame is allocated.
//! 4. [`emit`]: the instructions are rendered as assembly text.
//!
//! [`pipeline`] ties the stages together. [`meaning`] and [`machine`] say what
//! the code computes before and after, and [`preserve`] shows that it is the
//! same.

pub mod seqs;
pub mod ops;
pub mod tacky;
pub mod assembly;
pub mod select;
pub mod resolve;
pub mod legalize;
pub mod emit;
pub mod meaning;
pub mod machine;
pub mod preserve;
pub mod pipeline;
