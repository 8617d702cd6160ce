use vstd::prelude::*;

pub mod add;
pub mod ask;
pub mod config;
pub mod list;
pub mod remove;
pub mod round;
pub mod set;

verus! {

/// Outcome of one command: whether the configuration has to be written back,
/// and whether the command as a whole succeeded.
#[derive(Clone, Copy, Debug, PartialEq, Eq, Structural)]
pub struct CommandResult {
    pub save_config: bool,
    pub success: bool,
}

} // verus!
