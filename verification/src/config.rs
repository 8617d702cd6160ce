use vstd::prelude::*;
use crate::store::CredentialStore;
use crate::entry::PasswordEntry;
use crate::state::{cooling_down, State};
use crate::wait::Wait;


verus! {

/// Everything that is kept between runs apart from the time of the last
/// question: the settings and the credentials.
#[derive(Debug)]
pub struct Config {
    /// How long to leave the user alone after a round of questions; not set
    /// means not at all.
    pub wait: Option<Wait>,
    /// How many further tries follow a wrong answer; not set means none.
    pub retries: Option<usize>,
    /// The credentials, each under its name.
    pub passwords: CredentialStore,
}

impl Config {
    /// The cooldown in seconds that the settings stand for.
    pub open spec fn cooldown_spec(self) -> nat {
        match self.wait {
            Some(w) => w@.seconds(),
            None => 0,
        }
    }

    /// The number of extra tries that the settings stand for.
    pub open spec fn retries_spec(self) -> nat {
        match self.retries {
            Some(n) => n as nat,
            None => 0,
        }
    }

    /// Settings with nothing set, and no credentials.
    pub fn new() -> (r: Config)
        ensures
            r.wait is None,
            r.retries is None,
            r.passwords@ == Map::<Seq<char>, PasswordEntry>::empty(),
    {
        Config { wait: None, retries: None, passwords: CredentialStore::new() }
    }

    /// The cooldown in seconds, where sixty-four bits can hold it; zero
    /// where none is set.
    pub fn cooldown_secs(&self) -> (r: Option<u64>)
        ensures
            r == if self.cooldown_spec() <= u64::MAX {
                Some(self.cooldown_spec() as u64)
            } else {
                None::<u64>
            },
    {
        match &self.wait {
            Some(w) => w.checked_secs(),
            None => Some(0),
        }
    }

    /// Whether a question at `now` comes too early: the user was asked
    /// before, and less than the cooldown has passed since. A cooldown that
    /// is longer than any time the clock can show never passes.
    pub fn holds_back(&self, state: &State, now: u64) -> (r: bool)
        ensures
            r == cooling_down(state.last_asked, self.cooldown_spec(), now),
    {
        match self.cooldown_secs() {
            Some(cooldown) => state.is_cooling_down(cooldown, now),
            None => state.last_asked.is_some(),
        }
    }

    /// The number of extra tries; zero where none is set.
    pub fn extra_tries(&self) -> (r: usize)
        ensures
            r == self.retries_spec(),
    {
        match self.retries {
            Some(n) => n,
            None => 0,
        }
    }
}

} // verus!
