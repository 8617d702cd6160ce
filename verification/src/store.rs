use vstd::prelude::*;
use vstd::string::*;
use crate::entry::{decoded_exactly, digest_of, digestible, refusal, PasswordEntry, SALT_BYTES};
use crate::error::PasspromptError;
use crate::text::{comes_before, precedes, lemma_precedes_irreflexive, lemma_precedes_total, lemma_precedes_transitive};

verus! {

/// Whether each name comes strictly before all the names behind it.
pub open spec fn strictly_sorted(names: Seq<Seq<char>>) -> bool {
    forall|i: int, j: int| 0 <= i < j < names.len() ==> precedes(#[trigger] names[i], #[trigger] names[j])
}

/// Whether `names` lists exactly the names in `keys`, each once, in the
/// order of a dictionary.
pub open spec fn lists_sorted(names: Seq<Seq<char>>, keys: Set<Seq<char>>) -> bool {
    &&& strictly_sorted(names)
    &&& forall|k: Seq<char>| keys.contains(k) <==> names.contains(k)
}

/// A sorted list holds no name twice.
pub proof fn lemma_sorted_no_duplicates(names: Seq<Seq<char>>)
    requires
        strictly_sorted(names),
    ensures
        names.no_duplicates(),
{
    assert forall|i: int, j: int| 0 <= i < names.len() && 0 <= j < names.len() && i != j implies names[i]
        != names[j] by {
        lemma_precedes_irreflexive(names[i]);
        if i < j {
            assert(precedes(names[i], names[j]));
        } else {
            assert(precedes(names[j], names[i]));
        }
    }
}

/// Whether a salt was given that is none: a text that does not decode to
/// sixteen bytes.
pub open spec fn salt_refused(salt: Option<String>) -> bool {
    match salt {
        Some(text) => decoded_exactly(text@, SALT_BYTES as nat) is None,
        None => false,
    }
}

/// One name with its entry.
#[derive(Debug)]
struct Slot {
    name: String,
    entry: PasswordEntry,
}

/// The credentials, each under its name. No name occurs twice.
#[derive(Debug)]
pub struct CredentialStore {
    slots: Vec<Slot>,
}

impl View for CredentialStore {
    type V = Map<Seq<char>, PasswordEntry>;

    /// The entry under each stored name.
    closed spec fn view(&self) -> Map<Seq<char>, PasswordEntry> {
        Map::new(
            |k: Seq<char>| self.names_view().contains(k),
            |k: Seq<char>| self.slots@[self.names_view().index_of(k)].entry,
        )
    }
}

impl CredentialStore {
    /// The stored names in the order of a dictionary.
    pub closed spec fn names_view(&self) -> Seq<Seq<char>> {
        Seq::new(self.slots@.len(), |i: int| self.slots@[i].name@)
    }

    /// What holds of every store: its names are kept in strictly ascending
    /// order.
    #[verifier::type_invariant]
    pub closed spec fn wf(&self) -> bool {
        strictly_sorted(self.names_view())
    }

    /// The names of a store list its keys, sorted, and the store holds as
    /// many entries as names.
    pub proof fn lemma_names(&self)
        requires
            self.wf(),
        ensures
            lists_sorted(self.names_view(), self@.dom()),
            self.names_view().no_duplicates(),
            self@.dom().finite(),
            self@.dom().len() == self.names_view().len(),
    {
        lemma_sorted_no_duplicates(self.names_view());
        assert(self@.dom() =~= self.names_view().to_set());
        self.names_view().unique_seq_to_set();
    }

    /// The entry in a slot is the entry under the slot's name.
    proof fn lemma_slot(&self, i: int)
        requires
            self.wf(),
            0 <= i < self.slots@.len(),
        ensures
            self@.dom().contains(self.slots@[i].name@),
            self@[self.slots@[i].name@] == self.slots@[i].entry,
    {
        let names = self.names_view();
        lemma_sorted_no_duplicates(names);
        assert(names[i] == self.slots@[i].name@);
        assert(names.contains(names[i]));
        let j = names.index_of(names[i]);
        assert(names[j] == names[i]);
    }

    /// A store without entries.
    pub fn new() -> (r: CredentialStore)
        ensures
            r@ == Map::<Seq<char>, PasswordEntry>::empty(),
            r.names_view() == Seq::<Seq<char>>::empty(),
            r.wf(),
    {
        let r = CredentialStore { slots: Vec::new() };
        assert(r.names_view() =~= Seq::<Seq<char>>::empty());
        assert(r@ =~= Map::<Seq<char>, PasswordEntry>::empty());
        r
    }

    /// The number of entries.
    pub fn len(&self) -> (r: usize)
        ensures
            r == self.names_view().len(),
            r == self@.dom().len(),
    {
        proof {
            use_type_invariant(self);
            self.lemma_names();
        }
        self.slots.len()
    }

    /// Whether the store holds no entry.
    pub fn is_empty(&self) -> (r: bool)
        ensures
            r == (self.names_view().len() == 0),
            r == (self@ == Map::<Seq<char>, PasswordEntry>::empty()),
    {
        proof {
            use_type_invariant(self);
            self.lemma_names();
            if self.slots@.len() == 0 {
                assert(self@ =~= Map::<Seq<char>, PasswordEntry>::empty());
            } else {
                self.lemma_slot(0);
            }
        }
        self.slots.len() == 0
    }

    /// Where `name` stands or would stand among the sorted names, and
    /// whether it stands there.
    fn position(&self, name: &str) -> (r: (usize, bool))
        ensures
            r.0 <= self.slots@.len(),
            r.1 ==> r.0 < self.slots@.len() && self.names_view()[r.0 as int] == name@,
            r.1 == self.names_view().contains(name@),
            forall|j: int| 0 <= j < r.0 ==> precedes(#[trigger] self.names_view()[j], name@),
            forall|j: int|
                r.0 <= j < self.slots@.len() && !(r.1 && j == r.0) ==> precedes(
                    name@,
                    #[trigger] self.names_view()[j],
                ),
    {
        proof {
            use_type_invariant(self);
        }
        let ghost names = self.names_view();
        let mut i: usize = 0;
        while i < self.slots.len() && comes_before(self.slots[i].name.as_str(), name)
            invariant
                i <= self.slots@.len(),
                names == self.names_view(),
                forall|j: int| 0 <= j < i ==> precedes(#[trigger] names[j], name@),
            decreases self.slots@.len() - i,
        {
            i += 1;
        }
        let found = i < self.slots.len() && !comes_before(name, self.slots[i].name.as_str());
        proof {
            if i < names.len() {
                lemma_precedes_total(names[i as int], name@);
                assert forall|j: int| i < j < names.len() implies precedes(name@, #[trigger] names[j]) by {
                    assert(precedes(names[i as int], names[j]));
                    if names[i as int] != name@ {
                        lemma_precedes_transitive(name@, names[i as int], names[j]);
                    }
                }
            }
            if !found {
                assert forall|j: int| 0 <= j < names.len() implies names[j] != name@ by {
                    lemma_precedes_irreflexive(name@);
                }
            }
        }
        (i, found)
    }

    /// Whether an entry is stored under `name`.
    pub fn contains(&self, name: &str) -> (r: bool)
        ensures
            r == self@.dom().contains(name@),
    {
        self.position(name).1
    }

    /// The entry stored under `name`, if there is one.
    pub fn get(&self, name: &str) -> (r: Option<&PasswordEntry>)
        ensures
            match r {
                Some(entry) => self@.dom().contains(name@) && *entry == self@[name@],
                None => !self@.dom().contains(name@),
            },
    {
        let (i, found) = self.position(name);
        if found {
            proof {
                use_type_invariant(self);
                self.lemma_slot(i as int);
            }
            Some(&self.slots[i].entry)
        } else {
            None
        }
    }

    /// Stores `entry` under `name`, in place of an entry that stood there.
    /// Gives back whether there was one.
    pub fn insert(&mut self, name: String, entry: PasswordEntry) -> (replaced: bool)
        ensures
            final(self)@ == old(self)@.insert(name@, entry),
            replaced == old(self)@.dom().contains(name@),
            final(self).wf(),
    {
        let (i, found) = self.position(name.as_str());
        let ghost before = *self;
        proof {
            use_type_invariant(&*self);
        }
        let mut slots: Vec<Slot> = Vec::new();
        assert(Seq::new(slots@.len(), |j: int| slots@[j].name@) =~= Seq::<Seq<char>>::empty());
        core::mem::swap(&mut self.slots, &mut slots);
        if found {
            slots[i] = Slot { name, entry };
        } else {
            slots.insert(i, Slot { name, entry });
        }
        proof {
            let names = Seq::new(slots@.len(), |j: int| slots@[j].name@);
            let old_names = before.names_view();
            assert forall|a: int, b: int| 0 <= a < b < names.len() implies precedes(
                #[trigger] names[a],
                #[trigger] names[b],
            ) by {
                if found {
                    assert(names[a] == old_names[a]);
                    assert(names[b] == old_names[b]);
                } else {
                    let oa = if a < i { a } else { a - 1 };
                    let ob = if b < i { b } else { b - 1 };
                    if a != i && b != i {
                        assert(names[a] == old_names[oa]);
                        assert(names[b] == old_names[ob]);
                    } else if a == i {
                        assert(names[b] == old_names[ob]);
                    } else {
                        assert(names[a] == old_names[oa]);
                    }
                }
            }
        }
        self.slots = slots;
        proof {
            let names = self.names_view();
            let old_names = before.names_view();
            assert(self.wf());
            assert(self@ =~= before@.insert(name@, entry)) by {
                assert forall|k: Seq<char>| self@.dom().contains(k) <==> before@.insert(
                    name@,
                    entry,
                ).dom().contains(k) by {
                    if names.contains(k) {
                        let a = names.index_of(k);
                        if !found && a != i {
                            let oa = if a < i { a } else { a - 1 };
                            assert(old_names[oa] == k);
                        } else if found && a != i {
                            assert(old_names[a] == k);
                        }
                    }
                    if old_names.contains(k) {
                        let oa = old_names.index_of(k);
                        let a = if found || oa < i { oa } else { oa + 1 };
                        assert(names[a] == k);
                    }
                    if k == name@ {
                        assert(names[i as int] == k);
                    }
                }
                assert forall|k: Seq<char>| self@.dom().contains(k) implies self@[k]
                    == before@.insert(name@, entry)[k] by {
                    let a = names.index_of(k);
                    assert(names[a] == k);
                    assert(names[i as int] == name@);
                    self.lemma_slot(a);
                    lemma_sorted_no_duplicates(names);
                    if k != name@ {
                        let oa = if found || a < i { a } else { a - 1 };
                        assert(old_names[oa] == k);
                        before.lemma_slot(oa);
                        assert(self.slots@[a].entry == before.slots@[oa].entry);
                    } else {
                        assert(a == i);
                        assert(self.slots@[a].entry == entry);
                    }
                }
            }
        }
        found
    }

    /// Makes an entry for `password` and stores it under `name`, in place of
    /// an entry that stood there. The salt is the one that `salt` is the
    /// base64 text of, or a fresh random one where none is given.
    ///
    /// A text that is no salt and a password that cannot be digested are
    /// refused, and then the store stays as it was.
    pub fn add(&mut self, name: String, password: String, salt: Option<String>) -> (r: Result<
        (),
        PasspromptError,
    >)
        ensures
            final(self).wf(),
            match r {
                Ok(_) => {
                    &&& !salt_refused(salt)
                    &&& digestible(password@)
                    &&& final(self)@.dom().contains(name@)
                    &&& final(self)@ == old(self)@.insert(name@, final(self)@[name@])
                    &&& final(self)@[name@].hash@ == digest_of(final(self)@[name@].salt@, password@)
                    &&& salt matches Some(text) ==> Some(final(self)@[name@].salt@)
                        == decoded_exactly(text@, SALT_BYTES as nat)
                },
                Err(e) => {
                    &&& *final(self) == *old(self)
                    &&& salt_refused(salt) ==> e == PasspromptError::InvalidSaltEncoding
                    &&& !salt_refused(salt) ==> !digestible(password@) && e == refusal(password@)
                },
            },
    {
        proof {
            use_type_invariant(&*self);
        }
        let made = match salt {
            Some(text) => PasswordEntry::create(text, password),
            None => PasswordEntry::generate(password),
        };
        match made {
            Ok(entry) => {
                self.insert(name, entry);
                assert(self@[name@] == entry);
                Ok(())
            },
            Err(e) => Err(e),
        }
    }

    /// Takes the entry under `name` out of the store. Gives back whether
    /// there was one; a name that is not stored changes nothing.
    pub fn remove(&mut self, name: &str) -> (removed: bool)
        ensures
            final(self)@ == old(self)@.remove(name@),
            removed == old(self)@.dom().contains(name@),
            final(self).wf(),
    {
        let (i, found) = self.position(name);
        let ghost before = *self;
        proof {
            use_type_invariant(&*self);
        }
        if found {
            let mut slots: Vec<Slot> = Vec::new();
            assert(Seq::new(slots@.len(), |j: int| slots@[j].name@) =~= Seq::<Seq<char>>::empty());
            core::mem::swap(&mut self.slots, &mut slots);
            slots.remove(i);
            proof {
                let names = Seq::new(slots@.len(), |j: int| slots@[j].name@);
                let old_names = before.names_view();
                assert forall|a: int, b: int| 0 <= a < b < names.len() implies precedes(
                    #[trigger] names[a],
                    #[trigger] names[b],
                ) by {
                    let oa = if a < i { a } else { a + 1 };
                    let ob = if b < i { b } else { b + 1 };
                    assert(names[a] == old_names[oa]);
                    assert(names[b] == old_names[ob]);
                }
            }
            self.slots = slots;
        }
        proof {
            let names = self.names_view();
            let old_names = before.names_view();
            lemma_sorted_no_duplicates(old_names);
            assert(self.wf());
            assert(self@ =~= before@.remove(name@)) by {
                assert forall|k: Seq<char>| self@.dom().contains(k) <==> before@.remove(
                    name@,
                ).dom().contains(k) by {
                    if names.contains(k) {
                        let a = names.index_of(k);
                        let oa = if !found || a < i { a } else { a + 1 };
                        assert(old_names[oa] == k);
                    }
                    if old_names.contains(k) && k != name@ {
                        let oa = old_names.index_of(k);
                        let a = if !found || oa < i { oa } else { oa - 1 };
                        assert(names[a] == k);
                    }
                }
                assert forall|k: Seq<char>| self@.dom().contains(k) implies self@[k]
                    == before@.remove(name@)[k] by {
                    let a = names.index_of(k);
                    self.lemma_slot(a);
                    let oa = if !found || a < i { a } else { a + 1 };
                    assert(old_names[oa] == k);
                    before.lemma_slot(oa);
                }
            }
        }
        found
    }

    /// Empties the store.
    pub fn remove_all(&mut self)
        ensures
            final(self)@ == Map::<Seq<char>, PasswordEntry>::empty(),
            final(self).names_view() == Seq::<Seq<char>>::empty(),
            final(self).wf(),
    {
        self.slots = Vec::new();
        assert(self.names_view() =~= Seq::<Seq<char>>::empty());
        assert(self@ =~= Map::<Seq<char>, PasswordEntry>::empty());
    }

    /// All names, each once, in the order of a dictionary.
    pub fn names(&self) -> (r: Vec<String>)
        ensures
            r@.len() == self.names_view().len(),
            forall|i: int| 0 <= i < r@.len() ==> (#[trigger] r@[i])@ == self.names_view()[i],
            lists_sorted(self.names_view(), self@.dom()),
    {
        proof {
            use_type_invariant(self);
            self.lemma_names();
        }
        let mut r: Vec<String> = Vec::new();
        let mut i: usize = 0;
        while i < self.slots.len()
            invariant
                i <= self.slots@.len(),
                r@.len() == i,
                forall|j: int| 0 <= j < i ==> (#[trigger] r@[j])@ == self.names_view()[j],
            decreases self.slots@.len() - i,
        {
            r.push(self.slots[i].name.clone());
            i += 1;
        }
        r
    }

    /// The name at place `index` of the sorted names.
    pub fn name_at(&self, index: usize) -> (r: &String)
        requires
            index < self.names_view().len(),
        ensures
            r@ == self.names_view()[index as int],
    {
        &self.slots[index].name
    }

    /// The entry under the name at place `index` of the sorted names.
    pub fn entry_at(&self, index: usize) -> (r: &PasswordEntry)
        requires
            index < self.names_view().len(),
        ensures
            self@.dom().contains(self.names_view()[index as int]),
            *r == self@[self.names_view()[index as int]],
    {
        proof {
            use_type_invariant(self);
            self.lemma_slot(index as int);
        }
        &self.slots[index].entry
    }

    /// Whether `candidate` is the password stored under `name`.
    ///
    /// Fails exactly where nothing is stored under `name`, and names it.
    pub fn verify(&self, name: &str, candidate: String) -> (r: Result<bool, PasspromptError>)
        ensures
            match r {
                Ok(b) => self@.dom().contains(name@) && b == self@[name@].accepts(candidate@),
                Err(PasspromptError::UnknownName(n)) => !self@.dom().contains(name@) && n@
                    == name@,
                Err(_) => false,
            },
    {
        match self.get(name) {
            Some(entry) => Ok(entry.matches(candidate)),
            None => Err(PasspromptError::UnknownName(name.to_owned())),
        }
    }
}

} // verus!
