use vstd::prelude::*;
use vstd::string::*;
use crate::commands::CommandResult;
use crate::config::Config;
use crate::decimal::{decimal_text, parse_count, push_decimal, read_count};
use crate::error::PasspromptError;
use crate::span::{parse_span, span_text, Span};
use crate::text::same_text;
use crate::wait::Wait;

verus! {

/// The setting to show or to change: with a value it is changed, without
/// one it is shown.
pub struct Args {
    pub key: String,
    pub value: Option<String>,
}

/// What the `config` command has to show, if anything, and its outcome.
#[derive(Debug)]
pub struct Reply {
    /// The line to print: the value of the setting that was asked for.
    pub output: Option<String>,
    pub result: CommandResult,
}

/// The key of the number of extra tries.
pub open spec fn retries_key() -> Seq<char> {
    "retries"@
}

/// The key of the cooldown.
pub open spec fn wait_key() -> Seq<char> {
    "wait"@
}

/// The span of a cooldown that may not be set.
pub open spec fn span_or_zero(wait: Option<Wait>) -> Span {
    match wait {
        Some(w) => w@,
        None => Span { days: 0, hours: 0, minutes: 0 },
    }
}

/// Whether `after` and `r` are what comes of giving the setting `key` the
/// value that `value` is the text of.
///
/// The number of extra tries is read as a count and the cooldown as a
/// duration. A text that is neither is refused, each in its own way, and so
/// is a key that names no setting. Whatever is refused changes nothing, and
/// nothing ever changes but the one setting.
pub open spec fn assigned(
    before: Config,
    after: Config,
    key: String,
    value: String,
    r: Result<(), PasspromptError>,
) -> bool {
    if key@ == retries_key() {
        match read_count(value@) {
            Some(n) => r is Ok && after == (Config { retries: Some(n), ..before }),
            None => after == before && r == Err::<(), PasspromptError>(
                (PasspromptError::IllegalArgument { name: key, value }),
            ),
        }
    } else if key@ == wait_key() {
        match parse_span(value@) {
            Some(span) => {
                &&& r is Ok
                &&& after.wait is Some
                &&& after.wait->0@ == span
                &&& after.retries == before.retries
                &&& after.passwords == before.passwords
            },
            None => after == before && r == Err::<(), PasspromptError>(
                PasspromptError::UnparseableWaitFormat(value),
            ),
        }
    } else {
        after == before && r == Err::<(), PasspromptError>(
            PasspromptError::UnknownConfigOption(key),
        )
    }
}

/// The text that shows the setting `key`: the number of extra tries, or the
/// canonical text of the cooldown, each as if zero had been set where
/// nothing was. A key that names no setting is refused.
pub open spec fn shown(config: Config, key: String) -> Result<Seq<char>, PasspromptError> {
    if key@ == retries_key() {
        Ok(decimal_text(config.retries_spec()))
    } else if key@ == wait_key() {
        Ok(span_text(span_or_zero(config.wait)))
    } else {
        Err(PasspromptError::UnknownConfigOption(key))
    }
}

/// Gives the setting `key` the value that `value` is the text of.
pub fn assign(config: &mut Config, key: String, value: String) -> (r: Result<(), PasspromptError>)
    ensures
        assigned(*old(config), *final(config), key, value, r),
{
    if same_text(key.as_str(), "retries") {
        match parse_count(value.as_str()) {
            Some(n) => {
                config.retries = Some(n);
                Ok(())
            },
            None => Err(PasspromptError::IllegalArgument { name: key, value }),
        }
    } else if same_text(key.as_str(), "wait") {
        match Wait::parse(value.as_str()) {
            Ok(w) => {
                config.wait = Some(w);
                Ok(())
            },
            Err(_) => Err(PasspromptError::UnparseableWaitFormat(value)),
        }
    } else {
        Err(PasspromptError::UnknownConfigOption(key))
    }
}

/// Shows or changes one setting.
///
/// With a value the setting is changed as `assigned` says, and there is
/// nothing to show. Without one nothing changes, and the reply holds the text
/// that `shown` gives. Whenever the command succeeds the configuration is to
/// be saved.
pub fn command(config: &mut Config, args: Args) -> (r: Result<Reply, PasspromptError>)
    ensures
        r matches Ok(reply) ==> reply.result == (CommandResult {
            save_config: true,
            success: true,
        }),
        match args.value {
            Some(value) => {
                &&& assigned(
                    *old(config),
                    *final(config),
                    args.key,
                    value,
                    match r {
                        Ok(_) => Ok(()),
                        Err(e) => Err(e),
                    },
                )
                &&& r matches Ok(reply) ==> reply.output is None
            },
            None => {
                &&& *final(config) == *old(config)
                &&& match shown(*old(config), args.key) {
                    Ok(text) => r matches Ok(reply) && reply.output matches Some(line) && line@
                        == text,
                    Err(e) => r == Err::<Reply, PasspromptError>(e),
                }
            },
        },
{
    let saved = CommandResult { save_config: true, success: true };
    match args.value {
        Some(value) => match assign(config, args.key, value) {
            Ok(_) => Ok(Reply { output: None, result: saved }),
            Err(e) => Err(e),
        },
        None => {
            if same_text(args.key.as_str(), "retries") {
                let mut out = String::new();
                push_decimal(&mut out, config.extra_tries() as u64);
                Ok(Reply { output: Some(out), result: saved })
            } else if same_text(args.key.as_str(), "wait") {
                let out = match &config.wait {
                    Some(w) => w.to_text(),
                    None => Wait::default().to_text(),
                };
                Ok(Reply { output: Some(out), result: saved })
            } else {
                Err(PasspromptError::UnknownConfigOption(args.key))
            }
        },
    }
}

} // verus!
