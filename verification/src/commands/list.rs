use vstd::prelude::*;
use crate::commands::CommandResult;
use crate::config::Config;
use crate::store::lists_sorted;

verus! {

/// What the `list` command has to show, and its outcome.
#[derive(Debug)]
pub struct Listing {
    /// The names to print, one to a line, in this order.
    pub names: Vec<String>,
    pub result: CommandResult,
}

/// Lists the stored names in the order of a dictionary: every name once.
/// Nothing changes, so nothing has to be saved.
pub fn command(config: &Config) -> (r: Listing)
    ensures
        r.result == (CommandResult { save_config: false, success: true }),
        r.names@.len() == config.passwords.names_view().len(),
        forall|i: int|
            0 <= i < r.names@.len() ==> (#[trigger] r.names@[i])@ == config.passwords.names_view()[i],
        lists_sorted(config.passwords.names_view(), config.passwords@.dom()),
{
    Listing {
        names: config.passwords.names(),
        result: CommandResult { save_config: false, success: true },
    }
}

} // verus!
