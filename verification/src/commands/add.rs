use vstd::prelude::*;
use vstd::string::*;
use crate::commands::CommandResult;
use crate::config::Config;
use crate::entry::{digest_of, digestible, refusal};
use crate::error::PasspromptError;
use crate::text::same_text;

verus! {

/// The name for the new entry, where it was given with the command.
pub struct Args {
    pub name: Option<String>,
}

/// How far the `add` command has come: what it waits for, or how it ended.
#[derive(Debug)]
pub enum Stage {
    /// The name of the new entry is wanted.
    Naming,
    /// An entry stands under the name already; the user is asked whether to
    /// overwrite it.
    Confirming { name: String },
    /// The password for the new entry is wanted.
    Entering { name: String },
    /// The command is over.
    Done(CommandResult),
}

/// The stage that follows once the name is known: a stored name has to be
/// confirmed first.
pub open spec fn named_spec(stored: Set<Seq<char>>, name: String) -> Stage {
    if stored.contains(name@) {
        Stage::Confirming { name }
    } else {
        Stage::Entering { name }
    }
}

/// Whether an answer to the question of overwriting says yes: it is `y` or
/// `Y` and nothing else.
pub open spec fn says_yes(answer: Seq<char>) -> bool {
    answer == seq!['y'] || answer == seq!['Y']
}

/// The text of the question of overwriting the entry under `name`.
pub open spec fn overwrite_question(name: Seq<char>) -> Seq<char> {
    "there is already a password named '"@ + name + "', overwrite (y/N)? "@
}

/// Where the command starts: with the name that was given, or by asking for
/// one.
pub fn begin(config: &Config, args: Args) -> (r: Stage)
    ensures
        r == match args.name {
            Some(name) => named_spec(config.passwords@.dom(), name),
            None => Stage::Naming,
        },
{
    match args.name {
        Some(name) => named(config, name),
        None => Stage::Naming,
    }
}

/// The stage that follows once the name is known.
pub fn named(config: &Config, name: String) -> (r: Stage)
    ensures
        r == named_spec(config.passwords@.dom(), name),
{
    if config.passwords.contains(name.as_str()) {
        Stage::Confirming { name }
    } else {
        Stage::Entering { name }
    }
}

/// The question to put to the user at a stage, if there is one.
pub fn question(stage: &Stage) -> (r: Option<String>)
    ensures
        match *stage {
            Stage::Naming => r is Some && r->0@ == "name: "@,
            Stage::Confirming { name } => r is Some && r->0@ == overwrite_question(name@),
            Stage::Entering { name } => r is Some && r->0@ == "password: "@,
            Stage::Done(_) => r is None,
        },
{
    match stage {
        Stage::Naming => Some("name: ".to_owned()),
        Stage::Confirming { name } => {
            let mut text = "there is already a password named '".to_owned();
            text.append(name.as_str());
            text.append("', overwrite (y/N)? ");
            Some(text)
        },
        Stage::Entering { .. } => Some("password: ".to_owned()),
        Stage::Done(_) => None,
    }
}

/// Whether the answer at a stage is a secret, to be read without echo.
pub fn is_secret(stage: &Stage) -> (r: bool)
    ensures
        r == (*stage is Entering),
{
    match stage {
        Stage::Entering { .. } => true,
        _ => false,
    }
}

/// Takes the user's answer at a stage, and gives the stage that follows.
///
/// A name leads on as `named` says. To the question of overwriting, `y` and
/// `Y` lead on to the password, and every other answer ends the command with
/// nothing to save. A password makes the entry, under a fresh random salt,
/// and stores it; the configuration is then to be saved. A password that
/// cannot be digested is refused. Only that last step can change the
/// configuration, and only its credentials.
pub fn reply(config: &mut Config, stage: Stage, answer: String) -> (r: Result<
    Stage,
    PasspromptError,
>)
    ensures
        final(config).wait == old(config).wait,
        final(config).retries == old(config).retries,
        match stage {
            Stage::Naming => *final(config) == *old(config) && r == Ok::<Stage, PasspromptError>(
                named_spec(old(config).passwords@.dom(), answer),
            ),
            Stage::Confirming { name } => *final(config) == *old(config) && r == Ok::<
                Stage,
                PasspromptError,
            >(
                if says_yes(answer@) {
                    Stage::Entering { name }
                } else {
                    Stage::Done(CommandResult { save_config: false, success: true })
                },
            ),
            Stage::Entering { name } => if digestible(answer@) {
                &&& r == Ok::<Stage, PasspromptError>(
                    Stage::Done(CommandResult { save_config: true, success: true }),
                )
                &&& final(config).passwords@.dom().contains(name@)
                &&& final(config).passwords@ == old(config).passwords@.insert(
                    name@,
                    final(config).passwords@[name@],
                )
                &&& final(config).passwords@[name@].hash@ == digest_of(
                    final(config).passwords@[name@].salt@,
                    answer@,
                )
            } else {
                &&& r == Err::<Stage, PasspromptError>(refusal(answer@))
                &&& *final(config) == *old(config)
            },
            Stage::Done(result) => *final(config) == *old(config) && r == Ok::<
                Stage,
                PasspromptError,
            >(Stage::Done(result)),
        },
{
    match stage {
        Stage::Naming => Ok(named(config, answer)),
        Stage::Confirming { name } => {
            proof {
                reveal_strlit("y");
                reveal_strlit("Y");
                assert("y"@ =~= seq!['y']);
                assert("Y"@ =~= seq!['Y']);
            }
            if same_text(answer.as_str(), "y") || same_text(answer.as_str(), "Y") {
                Ok(Stage::Entering { name })
            } else {
                Ok(Stage::Done(CommandResult { save_config: false, success: true }))
            }
        },
        Stage::Entering { name } => match config.passwords.add(name, answer, None) {
            Ok(_) => Ok(Stage::Done(CommandResult { save_config: true, success: true })),
            Err(e) => Err(e),
        },
        Stage::Done(result) => Ok(Stage::Done(result)),
    }
}

} // verus!
