use vstd::prelude::*;
use vstd::string::*;
use crate::commands::CommandResult;
use crate::config::Config;
use crate::decimal::{parse_count, read_count};
use crate::entry::PasswordEntry;
use crate::error::PasspromptError;
use crate::state::{cooling_down, State};
use crate::store::CredentialStore;
use crate::text::chars_of;
use crate::trusted::shuffle;

verus! {

/// Which entries to ask for.
#[derive(Debug)]
pub enum Which {
    /// So many, picked at random; all of them where fewer are stored.
    Any(usize),
    /// Every stored entry.
    All,
    /// The entry under this name.
    Specific(String),
}

/// What the `ask` command was called with.
#[derive(Debug)]
pub struct Args {
    /// Ask even where the cooldown has not passed.
    pub always: bool,
    pub which: Which,
}

/// Whether a count argument is the word `all`, in any mix of upper and
/// lower case.
pub open spec fn says_all(s: Seq<char>) -> bool {
    &&& s.len() == 3
    &&& (s[0] == 'a' || s[0] == 'A')
    &&& (s[1] == 'l' || s[1] == 'L')
    &&& (s[2] == 'l' || s[2] == 'L')
}

/// Whether a count argument is the word `all`.
fn is_all(s: &str) -> (r: bool)
    ensures
        r == says_all(s@),
{
    let c = chars_of(s);
    c.len() == 3 && (c[0] == 'a' || c[0] == 'A') && (c[1] == 'l' || c[1] == 'L') && (c[2] == 'l'
        || c[2] == 'L')
}

impl Which {
    /// What the arguments of the command line ask for.
    pub open spec fn from_cli_args_spec(
        count_arg_name: String,
        count: Option<String>,
        name: Option<String>,
    ) -> Result<Which, PasspromptError> {
        match count {
            Some(n) => if says_all(n@) {
                Ok(Which::All)
            } else {
                match read_count(n@) {
                    Some(parsed) => Ok(Which::Any(parsed)),
                    None => Err(PasspromptError::IllegalArgument { name: count_arg_name, value: n }),
                }
            },
            None => match name {
                Some(n) => Ok(Which::Specific(n)),
                None => Ok(Which::Any(1)),
            },
        }
    }

    /// Reads the choice of entries from the arguments of the command line:
    /// the value of the count argument, if it was given, and the name, if
    /// one was given. Both at once cannot be served.
    ///
    /// A count of `all` in any case means every entry, and a number that
    /// many. Any other count is refused, with the name of the argument and
    /// its value. Without a count, a name means that entry, and nothing at
    /// all means one entry at random.
    pub fn from_cli_args(count_arg_name: String, count: Option<String>, name: Option<String>) -> (r:
        Result<Which, PasspromptError>)
        requires
            !(count is Some && name is Some),
        ensures
            r == Which::from_cli_args_spec(count_arg_name, count, name),
    {
        match count {
            Some(n) => {
                if is_all(n.as_str()) {
                    Ok(Which::All)
                } else {
                    match parse_count(n.as_str()) {
                        Some(parsed) => Ok(Which::Any(parsed)),
                        None => Err(
                            PasspromptError::IllegalArgument { name: count_arg_name, value: n },
                        ),
                    }
                }
            },
            None => match name {
                Some(n) => Ok(Which::Specific(n)),
                None => Ok(Which::Any(1)),
            },
        }
    }
}

/// One entry to ask for: its name, and what the answers are checked against.
#[derive(Debug)]
pub struct Target {
    pub name: String,
    pub entry: PasswordEntry,
}

/// The names of some targets, in their order.
pub open spec fn names_of(targets: Seq<Target>) -> Seq<Seq<char>> {
    Seq::new(targets.len(), |i: int| targets[i].name@)
}

/// The entries of some targets, in their order.
pub open spec fn entries_of(targets: Seq<Target>) -> Seq<PasswordEntry> {
    Seq::new(targets.len(), |i: int| targets[i].entry)
}

/// Whether every place of `order` points at one of `n` things.
pub open spec fn in_range(order: Seq<usize>, n: nat) -> bool {
    forall|i: int| 0 <= i < order.len() ==> #[trigger] order[i] < n
}

/// Whether `order` lines up `n` things: each of them once.
pub open spec fn lines_up(order: Seq<usize>, n: nat) -> bool {
    &&& order.len() == n
    &&& order.no_duplicates()
    &&& in_range(order, n)
}

/// The smaller of a wanted count and what there is.
pub open spec fn at_most(count: nat, available: nat) -> nat {
    if count < available {
        count
    } else {
        available
    }
}

/// Whether `targets` are the first `count` of the stored entries as `order`
/// lines them up, or all of them where there are fewer.
pub open spec fn picked(
    store: CredentialStore,
    order: Seq<usize>,
    count: nat,
    targets: Seq<Target>,
) -> bool {
    &&& targets.len() == at_most(count, order.len())
    &&& forall|i: int|
        0 <= i < targets.len() ==> {
            &&& (#[trigger] targets[i]).name@ == store.names_view()[order[i] as int]
            &&& targets[i].entry == store@[store.names_view()[order[i] as int]]
        }
}

/// Whether `targets` can come of a draw of `count` entries: they are the
/// first `count` of the stored entries in some order that lines them all up.
pub open spec fn drawn(store: CredentialStore, count: nat, targets: Seq<Target>) -> bool {
    exists|order: Seq<usize>| #[trigger]
        lines_up(order, store.names_view().len()) && picked(store, order, count, targets)
}

/// The first `count` of the stored entries as `order` lines them up, or all
/// that `order` holds where there are fewer.
pub fn select(store: &CredentialStore, order: &Vec<usize>, count: usize) -> (r: Vec<Target>)
    requires
        in_range(order@, store.names_view().len()),
    ensures
        picked(*store, order@, count as nat, r@),
{
    let wanted = if count < order.len() { count } else { order.len() };
    let mut r: Vec<Target> = Vec::new();
    let mut i: usize = 0;
    while i < wanted
        invariant
            i <= wanted <= order@.len(),
            in_range(order@, store.names_view().len()),
            r@.len() == i,
            forall|j: int|
                0 <= j < i ==> {
                    &&& (#[trigger] r@[j]).name@ == store.names_view()[order@[j] as int]
                    &&& r@[j].entry == store@[store.names_view()[order@[j] as int]]
                },
        decreases wanted - i,
    {
        let at = order[i];
        assert(order@[i as int] < store.names_view().len());
        let name = store.name_at(at).clone();
        let entry = *store.entry_at(at);
        r.push(Target { name, entry });
        i += 1;
    }
    r
}

/// An order that comes of shuffling `n` places lines up `n` things.
proof fn lemma_shuffled_lines_up(order: Seq<usize>, n: nat)
    requires
        order.to_multiset() == Seq::new(n, |i: int| i as usize).to_multiset(),
        n <= usize::MAX,
    ensures
        lines_up(order, n),
{
    broadcast use vstd::seq_lib::group_to_multiset_ensures;

    let places = Seq::new(n, |i: int| i as usize);
    assert(places.no_duplicates());
    places.lemma_multiset_has_no_duplicates();
    order.lemma_multiset_has_no_duplicates_conv();
    assert(order.len() == order.to_multiset().len());
    assert(places.len() == places.to_multiset().len());
    assert forall|i: int| 0 <= i < order.len() implies #[trigger] order[i] < n by {
        assert(order.contains(order[i]));
        assert(order.to_multiset().count(order[i]) > 0);
        assert(places.contains(order[i]));
        let j = choose|j: int| 0 <= j < places.len() && places[j] == order[i];
        assert(places[j] == j as usize);
    }
}

/// Draws `count` of the stored entries at random, each at most once; all of
/// them, in a random order, where no more are stored.
pub fn draw(store: &CredentialStore, count: usize) -> (r: Vec<Target>)
    ensures
        drawn(*store, count as nat, r@),
{
    let n = store.len();
    let mut order: Vec<usize> = Vec::new();
    let mut i: usize = 0;
    while i < n
        invariant
            i <= n,
            order@ == Seq::new(i as nat, |j: int| j as usize),
        decreases n - i,
    {
        order.push(i);
        assert(order@ =~= Seq::new((i + 1) as nat, |j: int| j as usize));
        i += 1;
    }
    shuffle(&mut order);
    proof {
        lemma_shuffled_lines_up(order@, n as nat);
    }
    let r = select(store, &order, count);
    assert(lines_up(order@, store.names_view().len()) && picked(*store, order@, count as nat, r@));
    r
}

/// What is drawn are stored entries under their names, and no name twice.
pub proof fn lemma_drawn_distinct(store: CredentialStore, count: nat, targets: Seq<Target>)
    requires
        store.wf(),
        drawn(store, count, targets),
    ensures
        targets.len() == at_most(count, store.names_view().len()),
        names_of(targets).no_duplicates(),
        forall|i: int|
            0 <= i < targets.len() ==> store@.dom().contains((#[trigger] targets[i]).name@)
                && targets[i].entry == store@[targets[i].name@],
{
    let names = store.names_view();
    let order = choose|order: Seq<usize>| #[trigger]
        lines_up(order, names.len()) && picked(store, order, count, targets);
    store.lemma_names();
    assert forall|i: int| 0 <= i < targets.len() implies store@.dom().contains(
        (#[trigger] targets[i]).name@,
    ) && targets[i].entry == store@[targets[i].name@] by {
        assert(order[i] < names.len());
        assert(names.contains(names[order[i] as int]));
    }
    assert forall|i: int, j: int|
        0 <= i < targets.len() && 0 <= j < targets.len() && i != j implies names_of(targets)[i]
        != names_of(targets)[j] by {
        assert(order[i] != order[j]);
        assert(order[i] < names.len() && order[j] < names.len());
    }
}

/// A draw of at least as many entries as are stored gives exactly the stored
/// names, each once.
pub proof fn lemma_drawn_everything(store: CredentialStore, count: nat, targets: Seq<Target>)
    requires
        store.wf(),
        drawn(store, count, targets),
        count >= store.names_view().len(),
    ensures
        targets.len() == store@.dom().len(),
        names_of(targets).no_duplicates(),
        names_of(targets).to_set() == store@.dom(),
{
    let names = store.names_view();
    let n = names.len();
    let order = choose|order: Seq<usize>| #[trigger]
        lines_up(order, names.len()) && picked(store, order, count, targets);
    store.lemma_names();
    lemma_drawn_distinct(store, count, targets);
    let picked_names = names_of(targets);
    assert forall|k: Seq<char>| picked_names.to_set().contains(k) implies store@.dom().contains(
        k,
    ) by {
        let i = choose|i: int| 0 <= i < picked_names.len() && picked_names[i] == k;
        assert(targets[i].name@ == k);
    }
    assert(picked_names.to_set().subset_of(store@.dom()));
    picked_names.unique_seq_to_set();
    vstd::set_lib::lemma_subset_equality(picked_names.to_set(), store@.dom());
}

/// How the command opens, before anybody is asked anything.
#[derive(Debug)]
pub enum Opening {
    /// The cooldown has not passed: nothing is asked and nothing changes.
    CoolingDown,
    /// Nothing is stored under the name that was asked for.
    Unknown(String),
    /// These entries are asked for, in this order.
    Ask(Vec<Target>),
}

impl Opening {
    /// The outcome of a command that ends with its opening. A cooldown is a
    /// success and an unknown name is none, and neither leaves anything to
    /// save. With no entry to ask for the command ends as a round without
    /// entries does: as a success that is to be saved.
    pub open spec fn outcome(self) -> Option<CommandResult> {
        match self {
            Opening::CoolingDown => Some(CommandResult { save_config: false, success: true }),
            Opening::Unknown(_) => Some(CommandResult { save_config: false, success: false }),
            Opening::Ask(targets) => if targets@.len() == 0 {
                Some(CommandResult { save_config: true, success: true })
            } else {
                None
            },
        }
    }

    /// The outcome of a command that ends with its opening.
    pub fn result(&self) -> (r: Option<CommandResult>)
        ensures
            r == self.outcome(),
    {
        match self {
            Opening::CoolingDown => Some(CommandResult { save_config: false, success: true }),
            Opening::Unknown(_) => Some(CommandResult { save_config: false, success: false }),
            Opening::Ask(targets) => if targets.len() == 0 {
                Some(CommandResult { save_config: true, success: true })
            } else {
                None
            },
        }
    }
}

/// Whether the time of the last question has a say in how the command
/// opens: entries are stored, the command was not told to ask always, and no
/// entry was asked for by name.
pub open spec fn gated(config: Config, args: Args) -> bool {
    &&& config.passwords@.dom().len() > 0
    &&& !args.always
    &&& !(args.which is Specific)
}

/// Whether the cooldown holds the command back: the time of the last
/// question has a say, and the user was last asked less than the cooldown
/// ago.
pub open spec fn held_back(config: Config, state: State, args: Args, now: u64) -> bool {
    gated(config, args) && cooling_down(state.last_asked, config.cooldown_spec(), now)
}

/// Whether the time of the last question has a say in how the command
/// opens. Where it has none, `open` gives the same whatever state it is
/// handed, and the state need not be read.
pub fn consults_state(config: &Config, args: &Args) -> (r: bool)
    ensures
        r == gated(*config, *args),
{
    let named = match &args.which {
        Which::Specific(_) => true,
        _ => false,
    };
    config.passwords.len() > 0 && !args.always && !named
}

/// Decides what the command does before anybody is asked anything.
///
/// With no entry stored the command fails. An entry asked for by name is
/// asked for whatever the cooldown says, and a name under which nothing is
/// stored is handed back. Otherwise the cooldown decides: while it has not
/// passed nothing is asked, unless the command was told to ask always; and
/// once it has, the entries are drawn at random.
pub fn open(config: &Config, state: &State, args: &Args, now: u64) -> (r: Result<
    Opening,
    PasspromptError,
>)
    ensures
        config.passwords@.dom().len() == 0 ==> r == Err::<Opening, PasspromptError>(
            PasspromptError::NoPasswordsDefined,
        ),
        config.passwords@.dom().len() > 0 ==> match args.which {
            Which::Specific(name) => if config.passwords@.dom().contains(name@) {
                &&& r matches Ok(Opening::Ask(targets))
                &&& targets@.len() == 1
                &&& targets@[0].name@ == name@
                &&& targets@[0].entry == config.passwords@[name@]
            } else {
                r matches Ok(Opening::Unknown(unknown)) && unknown@ == name@
            },
            Which::Any(count) => if held_back(*config, *state, *args, now) {
                r == Ok::<Opening, PasspromptError>(Opening::CoolingDown)
            } else {
                r matches Ok(Opening::Ask(targets)) && drawn(
                    config.passwords,
                    count as nat,
                    targets@,
                )
            },
            Which::All => if held_back(*config, *state, *args, now) {
                r == Ok::<Opening, PasspromptError>(Opening::CoolingDown)
            } else {
                r matches Ok(Opening::Ask(targets)) && drawn(
                    config.passwords,
                    config.passwords@.dom().len(),
                    targets@,
                )
            },
        },
{
    if config.passwords.len() == 0 {
        return Err(PasspromptError::NoPasswordsDefined);
    }
    match &args.which {
        Which::Specific(name) => match config.passwords.get(name.as_str()) {
            Some(entry) => {
                let mut targets: Vec<Target> = Vec::new();
                targets.push(Target { name: name.clone(), entry: *entry });
                Ok(Opening::Ask(targets))
            },
            None => Ok(Opening::Unknown(name.clone())),
        },
        Which::Any(count) => {
            if !args.always && config.holds_back(state, now) {
                Ok(Opening::CoolingDown)
            } else {
                Ok(Opening::Ask(draw(&config.passwords, *count)))
            }
        },
        Which::All => {
            if !args.always && config.holds_back(state, now) {
                Ok(Opening::CoolingDown)
            } else {
                Ok(Opening::Ask(draw(&config.passwords, config.passwords.len())))
            }
        },
    }
}

} // verus!
