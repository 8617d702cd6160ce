use vstd::prelude::*;

verus! {

/// When the user was last asked, in seconds since the epoch. One time covers
/// the whole store. It is kept apart from the credentials, so that neither
/// has to be rewritten for the other.
#[derive(Clone, Copy, Debug)]
pub struct State {
    pub last_asked: Option<u64>,
}

/// Whether a question at `now` comes too early: the user was asked before,
/// and less than `cooldown` seconds have passed since.
pub open spec fn cooling_down(last_asked: Option<u64>, cooldown: nat, now: u64) -> bool {
    match last_asked {
        Some(then) => now < then + cooldown,
        None => false,
    }
}

impl State {
    /// The state of a user who was never asked.
    pub fn new() -> (r: State)
        ensures
            r.last_asked is None,
    {
        State { last_asked: None }
    }

    /// Whether a question at `now` comes too early under a cooldown of
    /// `cooldown` seconds.
    pub fn is_cooling_down(&self, cooldown: u64, now: u64) -> (r: bool)
        ensures
            r == cooling_down(self.last_asked, cooldown as nat, now),
    {
        match self.last_asked {
            Some(then) => match then.checked_add(cooldown) {
                Some(ready) => now < ready,
                None => true,
            },
            None => false,
        }
    }

    /// Records that the user is being asked at `now`.
    pub fn mark_asked(&mut self, now: u64)
        ensures
            final(self).last_asked == Some(now),
    {
        self.last_asked = Some(now);
    }
}

} // verus!
