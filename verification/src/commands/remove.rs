use vstd::prelude::*;
use crate::commands::CommandResult;
use crate::config::Config;
use crate::entry::PasswordEntry;
use crate::store::CredentialStore;

verus! {

/// What to remove: everything, or the entries under the given names.
pub struct Args<'a> {
    pub all: bool,
    pub entries: Vec<&'a str>,
}

/// The names among the first `upto` of `entries`.
pub open spec fn named(entries: Seq<&str>, upto: int) -> Set<Seq<char>> {
    Set::new(|k: Seq<char>| exists|i: int| 0 <= i < upto && (#[trigger] entries[i])@ == k)
}

/// What is left of `before` after the removal that `args` ask for.
pub open spec fn remaining(
    before: Map<Seq<char>, PasswordEntry>,
    all: bool,
    entries: Seq<&str>,
) -> Map<Seq<char>, PasswordEntry> {
    if all {
        Map::empty()
    } else {
        before.remove_keys(named(entries, entries.len() as int))
    }
}

/// Removes all entries, or those under the given names. A name under which
/// nothing is stored is passed over. The settings stay as they are, and the
/// configuration is to be saved.
pub fn command(config: &mut Config, args: Args) -> (r: CommandResult)
    ensures
        r == (CommandResult { save_config: true, success: true }),
        final(config).wait == old(config).wait,
        final(config).retries == old(config).retries,
        final(config).passwords@ == remaining(old(config).passwords@, args.all, args.entries@),
{
    if args.all {
        config.passwords.remove_all();
    } else {
        let ghost before = config.passwords@;
        let mut i: usize = 0;
        assert(config.passwords@ =~= before.remove_keys(named(args.entries@, 0)));
        while i < args.entries.len()
            invariant
                i <= args.entries@.len(),
                config.wait == old(config).wait,
                config.retries == old(config).retries,
                before == old(config).passwords@,
                config.passwords@ == before.remove_keys(named(args.entries@, i as int)),
            decreases args.entries@.len() - i,
        {
            let ghost so_far = config.passwords@;
            config.passwords.remove(args.entries[i]);
            proof {
                let name = args.entries@[i as int]@;
                let earlier = named(args.entries@, i as int);
                let later = named(args.entries@, i + 1);
                assert(later =~= earlier.insert(name)) by {
                    assert forall|k: Seq<char>| later.contains(k) implies earlier.insert(
                        name,
                    ).contains(k) by {
                        let j = choose|j: int| 0 <= j < i + 1 && (#[trigger] args.entries@[j])@ == k;
                        if j < i {
                            assert(earlier.contains(k));
                        }
                    }
                    assert forall|k: Seq<char>| earlier.insert(name).contains(k) implies later.contains(
                        k,
                    ) by {
                        if k == name {
                            assert(args.entries@[i as int]@ == k);
                        } else {
                            let j = choose|j: int| 0 <= j < i && (#[trigger] args.entries@[j])@ == k;
                            assert(0 <= j < i + 1);
                        }
                    }
                }
                assert(so_far.remove(name) =~= before.remove_keys(later));
            }
            i += 1;
        }
    }
    CommandResult { save_config: true, success: true }
}

/// Once everything was removed, no name is left to list and no entry to
/// ask for: the store is as empty as a new one.
pub proof fn lemma_remove_all_leaves_nothing(
    before: Map<Seq<char>, PasswordEntry>,
    entries: Seq<&str>,
    after: CredentialStore,
)
    requires
        after.wf(),
        after@ == remaining(before, true, entries),
    ensures
        after.names_view().len() == 0,
        after@.dom().len() == 0,
{
    after.lemma_names();
}

} // verus!
