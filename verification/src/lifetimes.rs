//! Lifetime checking: a walk over a module that follows every pointer to the storage it points
//! to, and reports what would be used after it was dropped, moved, or before it is safe.

pub mod state;
pub mod rules;
pub mod frame;
pub mod stack;
pub mod arguments;
pub mod calls;
pub mod exprs;
pub mod stms;
pub mod modules;
pub mod endless;
pub mod unchanged;
pub mod laws;
pub mod steps;
pub mod completion;
pub mod alike;
pub mod effects;
pub mod storage_laws;
pub mod expr_laws;
pub mod call_laws;
pub mod level_laws;
pub mod stm_laws;
pub mod definition_laws;

pub use crate::lifetimes::modules::{Broken, Checked, check};
pub use crate::lifetimes::rules::Ice;
pub use crate::lifetimes::stack::{Lifetime, Scope, Stack, Storage};
pub use crate::lifetimes::state::Access;
