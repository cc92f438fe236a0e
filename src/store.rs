use vstd::prelude::*;
use crate::select::Account;

verus! {

/// A named bundle of account roles and the session length, in seconds, asked
/// for when credentials are issued under it.
pub struct Group {
    pub accounts: Vec<Account>,
    pub session_duration: i32,
}

impl View for Group {
    type V = (Seq<Account>, i32);

    open spec fn view(&self) -> (Seq<Account>, i32) {
        (self.accounts@, self.session_duration)
    }
}

/// What went wrong in a group operation.
#[derive(Debug)]
pub enum GroupError {
    /// Both or neither of business unit and account names were given.
    SelectionConflict,
    /// Listing the roles failed; the listing's own description.
    List(String),
    /// No group has the given name.
    NotFound,
}

/// Whether an upsert made a new group or replaced one.
#[derive(Debug, PartialEq, Eq)]
pub enum UpsertOutcome {
    Added,
    Replaced,
}

/// All groups, each under a name of its own, in the order they were first added.
pub struct GroupStore {
    entries: Vec<(String, Group)>,
    model: Ghost<Map<Seq<char>, (Seq<Account>, i32)>>,
}

/// The groups of `m` after `name` is set to `accounts` with `session_duration`.
pub open spec fn upserted(
    m: Map<Seq<char>, (Seq<Account>, i32)>,
    name: Seq<char>,
    session_duration: i32,
    accounts: Seq<Account>,
) -> Map<Seq<char>, (Seq<Account>, i32)> {
    m.insert(name, (accounts, session_duration))
}

/// Setting a group a second time to the same accounts and session length
/// leaves the groups as the first time left them.
pub proof fn lemma_upsert_idempotent(
    m: Map<Seq<char>, (Seq<Account>, i32)>,
    name: Seq<char>,
    session_duration: i32,
    accounts: Seq<Account>,
)
    ensures
        upserted(upserted(m, name, session_duration, accounts), name, session_duration, accounts)
            == upserted(m, name, session_duration, accounts),
{
    assert(upserted(upserted(m, name, session_duration, accounts), name, session_duration, accounts)
        =~= upserted(m, name, session_duration, accounts));
}

/// Setting a group twice leaves one group of that name, holding exactly the
/// accounts and session length of the second setting: nothing of the first
/// is kept.
pub proof fn lemma_upsert_overwrites(
    m: Map<Seq<char>, (Seq<Account>, i32)>,
    name: Seq<char>,
    first_duration: i32,
    first_accounts: Seq<Account>,
    second_duration: i32,
    second_accounts: Seq<Account>,
)
    ensures
        upserted(upserted(m, name, first_duration, first_accounts), name, second_duration, second_accounts)
            == upserted(m, name, second_duration, second_accounts),
        upserted(upserted(m, name, first_duration, first_accounts), name, second_duration, second_accounts)[name]
            == (second_accounts, second_duration),
{
    assert(upserted(upserted(m, name, first_duration, first_accounts), name, second_duration, second_accounts)
        =~= upserted(m, name, second_duration, second_accounts));
}

impl View for GroupStore {
    type V = Map<Seq<char>, (Seq<Account>, i32)>;

    closed spec fn view(&self) -> Map<Seq<char>, (Seq<Account>, i32)> {
        self.model@
    }
}

impl GroupStore {
    /// Names are distinct, and each entry is the group the view holds under its name.
    pub closed spec fn wf(&self) -> bool {
        &&& forall|i: int, j: int|
            0 <= i < self.entries@.len() && 0 <= j < self.entries@.len() && i != j
                ==> self.entries@[i].0@ != self.entries@[j].0@
        &&& forall|i: int|
            0 <= i < self.entries@.len() ==> #[trigger] self.model@.contains_key(self.entries@[i].0@)
                && self.model@[self.entries@[i].0@] == self.entries@[i].1@
        &&& forall|k: Seq<char>|
            #[trigger] self.model@.contains_key(k) ==> exists|i: int|
                0 <= i < self.entries@.len() && self.entries@[i].0@ == k
    }

    /// A store with no groups.
    pub fn new() -> (r: GroupStore)
        ensures
            r.wf(),
            r@ == Map::<Seq<char>, (Seq<Account>, i32)>::empty(),
    {
        GroupStore { entries: Vec::new(), model: Ghost(Map::empty()) }
    }

    /// The number of groups.
    pub fn len(&self) -> (r: usize)
        requires
            self.wf(),
        ensures
            r == self@.len(),
    {
        proof {
            self.lemma_len();
        }
        self.entries.len()
    }

    proof fn lemma_len(&self)
        requires
            self.wf(),
        ensures
            self@.dom().finite(),
            self@.len() == self.entries@.len(),
        decreases self.entries@.len(),
    {
        let names = self.entries@.map_values(|e: (String, Group)| e.0@);
        assert forall|i: int, j: int| 0 <= i < names.len() && 0 <= j < names.len() && i != j
            implies names[i] != names[j] by {}
        names.unique_seq_to_set();
        assert(self@.dom() =~= names.to_set()) by {
            assert forall|k: Seq<char>| self@.dom().contains(k) implies names.to_set().contains(k) by {
                let i = choose|i: int| 0 <= i < self.entries@.len() && self.entries@[i].0@ == k;
                assert(names[i] == k);
            }
            assert forall|k: Seq<char>| names.to_set().contains(k) implies self@.dom().contains(k) by {
                let i = choose|i: int| 0 <= i < names.len() && names[i] == k;
                assert(self.model@.contains_key(self.entries@[i].0@));
            }
        }
    }

    /// The position of the entry named `name`, if there is one.
    fn position(&self, name: &String) -> (r: Option<usize>)
        requires
            self.wf(),
        ensures
            match r {
                Some(i) => i < self.entries@.len() && self.entries@[i as int].0@ == name@,
                None => !self@.contains_key(name@),
            },
    {
        let mut i: usize = 0;
        while i < self.entries.len()
            invariant
                self.wf(),
                i <= self.entries@.len(),
                forall|j: int| 0 <= j < i ==> self.entries@[j].0@ != name@,
            decreases self.entries@.len() - i,
        {
            if self.entries[i].0 == *name {
                return Some(i);
            }
            i = i + 1;
        }
        None
    }

    /// Whether a group is named `name`.
    pub fn contains(&self, name: &str) -> (r: bool)
        requires
            self.wf(),
        ensures
            r == self@.contains_key(name@),
    {
        let key = name.to_owned();
        match self.position(&key) {
            Some(_) => true,
            None => false,
        }
    }

    /// The group named `name`, if there is one.
    pub fn get(&self, name: &str) -> (r: Option<&Group>)
        requires
            self.wf(),
        ensures
            match r {
                Some(g) => self@.contains_key(name@) && self@[name@] == g@,
                None => !self@.contains_key(name@),
            },
    {
        let key = name.to_owned();
        match self.position(&key) {
            Some(i) => {
                assert(self.model@.contains_key(self.entries@[i as int].0@));
                Some(&self.entries[i].1)
            },
            None => None,
        }
    }

    /// The groups with their names, in the order they were first added.
    pub fn entries(&self) -> (r: &Vec<(String, Group)>)
        requires
            self.wf(),
        ensures
            forall|i: int| 0 <= i < r@.len() ==> self@.contains_key(r@[i].0@) && self@[r@[i].0@] == r@[i].1@,
            forall|k: Seq<char>| self@.contains_key(k) ==> exists|i: int| 0 <= i < r@.len() && r@[i].0@ == k,
    {
        assert forall|i: int| 0 <= i < self.entries@.len() implies self@.contains_key(self.entries@[i].0@)
            && self@[self.entries@[i].0@] == self.entries@[i].1@ by {
            assert(self.model@.contains_key(self.entries@[i].0@));
        }
        &self.entries
    }

    /// Sets the group named `name` to `accounts` with `session_duration`: a
    /// group of that name is replaced whole, else a new one is added.
    pub fn upsert_group(&mut self, name: &str, session_duration: i32, accounts: Vec<Account>) -> (r: UpsertOutcome)
        requires
            old(self).wf(),
        ensures
            final(self).wf(),
            final(self)@ == upserted(old(self)@, name@, session_duration, accounts@),
            r == (if old(self)@.contains_key(name@) { UpsertOutcome::Replaced } else { UpsertOutcome::Added }),
    {
        let key = name.to_owned();
        let group = Group { accounts, session_duration };
        let ghost new_model = self.model@.insert(name@, group@);
        match self.position(&key) {
            Some(i) => {
                self.entries.set(i, (key, group));
                self.model = Ghost(new_model);
                assert(self.wf()) by {
                    assert forall|k: Seq<char>| #[trigger] self.model@.contains_key(k) implies exists|j: int|
                        0 <= j < self.entries@.len() && self.entries@[j].0@ == k by {
                        if k != name@ {
                            let j = choose|j: int| 0 <= j < old(self).entries@.len() && old(self).entries@[j].0@ == k;
                            assert(self.entries@[j].0@ == k);
                        } else {
                            assert(self.entries@[i as int].0@ == k);
                        }
                    }
                }
                UpsertOutcome::Replaced
            },
            None => {
                self.entries.push((key, group));
                self.model = Ghost(new_model);
                assert(self.wf()) by {
                    let n = self.entries@.len() - 1;
                    assert forall|k: Seq<char>| #[trigger] self.model@.contains_key(k) implies exists|j: int|
                        0 <= j < self.entries@.len() && self.entries@[j].0@ == k by {
                        if k != name@ {
                            let j = choose|j: int| 0 <= j < old(self).entries@.len() && old(self).entries@[j].0@ == k;
                            assert(self.entries@[j].0@ == k);
                        } else {
                            assert(self.entries@[n].0@ == k);
                        }
                    }
                }
                UpsertOutcome::Added
            },
        }
    }

    /// Removes the group named `name`; where there is none, the store is left
    /// as it was and `NotFound` comes back.
    pub fn delete_group(&mut self, name: &str) -> (r: Result<(), GroupError>)
        requires
            old(self).wf(),
        ensures
            final(self).wf(),
            old(self)@.contains_key(name@) ==> r is Ok && final(self)@ == old(self)@.remove(name@),
            !old(self)@.contains_key(name@) ==> (r matches Err(GroupError::NotFound)) && *final(self) == *old(self),
    {
        let key = name.to_owned();
        match self.position(&key) {
            Some(i) => {
                let ghost new_model = self.model@.remove(name@);
                let ghost before = self.entries@;
                self.entries.remove(i);
                self.model = Ghost(new_model);
                assert(self.wf()) by {
                    assert forall|j: int| 0 <= j < self.entries@.len() implies
                        #[trigger] self.model@.contains_key(self.entries@[j].0@)
                        && self.model@[self.entries@[j].0@] == self.entries@[j].1@ by {
                        let o = if j < i { j } else { j + 1 };
                        assert(self.entries@[j] == before[o]);
                        assert(before[o].0@ != before[i as int].0@);
                        assert(old(self).model@.contains_key(before[o].0@));
                    }
                    assert forall|k: Seq<char>| #[trigger] self.model@.contains_key(k) implies exists|j: int|
                        0 <= j < self.entries@.len() && self.entries@[j].0@ == k by {
                        let o = choose|o: int| 0 <= o < before.len() && before[o].0@ == k;
                        if o < i {
                            assert(self.entries@[o].0@ == k);
                        } else {
                            assert(o != i);
                            assert(self.entries@[o - 1].0@ == k);
                        }
                    }
                }
                Ok(())
            },
            None => Err(GroupError::NotFound),
        }
    }
}

} // verus!
