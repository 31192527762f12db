//! The handlers of the control plane: each takes what its request
//! carried, calls the repository or the manager, and wraps what comes
//! back.

pub mod fm;
pub mod rule;
