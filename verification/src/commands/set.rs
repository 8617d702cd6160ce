use vstd::prelude::*;
use crate::commands::config::{assign, assigned};
use crate::config::Config;
use crate::error::PasspromptError;

verus! {

/// The setting to change, and the text of its new value.
pub struct Args {
    pub key: String,
    pub value: String,
}

/// Changes one setting as `assigned` says, and answers that the
/// configuration is to be saved.
pub fn command(config: &mut Config, args: Args) -> (r: Result<bool, PasspromptError>)
    ensures
        r matches Ok(save) ==> save,
        assigned(
            *old(config),
            *final(config),
            args.key,
            args.value,
            match r {
                Ok(_) => Ok(()),
                Err(e) => Err(e),
            },
        ),
{
    match assign(config, args.key, args.value) {
        Ok(_) => Ok(true),
        Err(e) => Err(e),
    }
}

} // verus!
