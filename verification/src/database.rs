//! The in-memory credentials database.
//!
//! A database belongs to one owner and maps entry names to credentials.
//! Entry names are unique; inserting an existing name overwrites the
//! previous entry. The entries keep their insertion order, which gives the
//! database a canonical serialized form.

use vstd::prelude::*;
use crate::text::str_eq;

verus! {

/// A single stored credential: the username and password for one entry.
/// Replaced wholesale on update, never partially mutated.
#[derive(Debug, Clone, Hash)]
pub struct Credential {
    pub username: String,
    pub password: String,
}

/// The mathematical value of a [`Credential`].
pub struct CredentialView {
    pub username: Seq<char>,
    pub password: Seq<char>,
}

impl View for Credential {
    type V = CredentialView;

    open spec fn view(&self) -> CredentialView {
        CredentialView { username: self.username@, password: self.password@ }
    }
}

/// The mathematical value of a [`CredentialsDatabase`]: the owner and the
/// ordered sequence of named entries.
pub struct DbView {
    pub owner: Seq<char>,
    pub entries: Seq<(Seq<char>, CredentialView)>,
}

/// True when no two entries share a name.
pub open spec fn unique_names(es: Seq<(Seq<char>, CredentialView)>) -> bool {
    forall|i: int, j: int| 0 <= i < j < es.len() ==> es[i].0 != es[j].0
}

/// The mapping from entry name to credential that an entry sequence
/// represents; a later entry overwrites an earlier one of the same name.
pub open spec fn entries_map(es: Seq<(Seq<char>, CredentialView)>) -> Map<
    Seq<char>,
    CredentialView,
>
    decreases es.len(),
{
    if es.len() == 0 {
        Map::empty()
    } else {
        entries_map(es.drop_last()).insert(es.last().0, es.last().1)
    }
}

impl DbView {
    /// Well-formed: entry names are unique.
    pub open spec fn wf(self) -> bool {
        unique_names(self.entries)
    }

    /// The entries as a map from name to credential.
    pub open spec fn entry_map(self) -> Map<Seq<char>, CredentialView> {
        entries_map(self.entries)
    }
}

/// A name is in the represented map exactly when some entry carries it.
pub proof fn lemma_entries_map_domain(es: Seq<(Seq<char>, CredentialView)>)
    ensures
        forall|k: Seq<char>|
            #[trigger] entries_map(es).contains_key(k) ==> exists|i: int|
                0 <= i < es.len() && (#[trigger] es[i]).0 == k,
        forall|i: int|
            0 <= i < es.len() ==> entries_map(es).contains_key((#[trigger] es[i]).0),
    decreases es.len(),
{
    if es.len() > 0 {
        let drop = es.drop_last();
        lemma_entries_map_domain(drop);
        assert(entries_map(es) == entries_map(drop).insert(es.last().0, es.last().1));
        assert forall|k: Seq<char>| #[trigger] entries_map(es).contains_key(k) implies exists|
            i: int,
        | 0 <= i < es.len() && (#[trigger] es[i]).0 == k by {
            if k == es.last().0 {
                assert((es[es.len() - 1]).0 == k);
            } else {
                assert(entries_map(drop).contains_key(k));
                let i = choose|i: int| 0 <= i < drop.len() && (#[trigger] drop[i]).0 == k;
                assert((es[i]).0 == k);
            }
        }
        assert forall|i: int| 0 <= i < es.len() implies entries_map(es).contains_key(
            (#[trigger] es[i]).0,
        ) by {
            if i < es.len() - 1 {
                assert((drop[i]).0 == es[i].0);
                assert(entries_map(drop).contains_key(drop[i].0));
            }
        }
    }
}

/// With unique names, the map sends each entry's name to that entry's value.
pub proof fn lemma_entries_map_value(es: Seq<(Seq<char>, CredentialView)>, i: int)
    requires
        unique_names(es),
        0 <= i < es.len(),
    ensures
        entries_map(es).contains_key(es[i].0),
        entries_map(es)[es[i].0] == es[i].1,
    decreases es.len(),
{
    if i == es.len() - 1 {
    } else {
        assert(unique_names(es.drop_last()));
        lemma_entries_map_value(es.drop_last(), i);
        assert(es.drop_last()[i] == es[i]);
        assert(es[i].0 != es.last().0);
    }
}

/// Removing the entry at an index removes exactly its name from the map.
pub proof fn lemma_entries_map_remove(es: Seq<(Seq<char>, CredentialView)>, i: int)
    requires
        unique_names(es),
        0 <= i < es.len(),
    ensures
        entries_map(es.remove(i)) == entries_map(es).remove(es[i].0),
    decreases es.len(),
{
    lemma_entries_map_domain(es.drop_last());
    if i == es.len() - 1 {
        assert(es.remove(i) =~= es.drop_last());
        assert(!entries_map(es.drop_last()).contains_key(es[i].0)) by {
            if entries_map(es.drop_last()).contains_key(es[i].0) {
                let j = choose|j: int|
                    0 <= j < es.drop_last().len() && (#[trigger] es.drop_last()[j]).0 == es[i].0;
                assert((es[j]).0 == es[i].0);
            }
        }
        assert(entries_map(es.drop_last()) =~= entries_map(es).remove(es[i].0));
    } else {
        assert(unique_names(es.drop_last()));
        lemma_entries_map_remove(es.drop_last(), i);
        assert(es.remove(i).drop_last() =~= es.drop_last().remove(i));
        assert(es.remove(i).last() == es.last());
        assert(es.drop_last()[i] == es[i]);
        // the two sides build the same map: remove a key, then insert the last entry
        assert(entries_map(es.remove(i)) =~= entries_map(es).remove(es[i].0));
    }
}

/// Overwriting the entry at an index updates exactly its name in the map.
pub proof fn lemma_entries_map_update(
    es: Seq<(Seq<char>, CredentialView)>,
    i: int,
    c: CredentialView,
)
    requires
        unique_names(es),
        0 <= i < es.len(),
    ensures
        entries_map(es.update(i, (es[i].0, c))) == entries_map(es).insert(es[i].0, c),
    decreases es.len(),
{
    if i == es.len() - 1 {
        assert(es.update(i, (es[i].0, c)).drop_last() =~= es.drop_last());
        assert(entries_map(es.update(i, (es[i].0, c))) =~= entries_map(es).insert(es[i].0, c));
    } else {
        assert(unique_names(es.drop_last()));
        lemma_entries_map_update(es.drop_last(), i, c);
        assert(es.drop_last()[i] == es[i]);
        assert(es.update(i, (es[i].0, c)).drop_last() =~= es.drop_last().update(i, (es[i].0, c)));
        assert(es.update(i, (es[i].0, c)).last() == es.last());
        assert(es[i].0 != es.last().0);
        assert(entries_map(es.update(i, (es[i].0, c))) =~= entries_map(es).insert(es[i].0, c));
    }
}

/// The database of one account: its owner's username and the named entries.
#[derive(Debug)]
pub struct CredentialsDatabase {
    username: String,
    credentials: Vec<(String, Credential)>,
}

impl View for CredentialsDatabase {
    type V = DbView;

    closed spec fn view(&self) -> DbView {
        DbView {
            owner: self.username@,
            entries: Seq::new(
                self.credentials@.len(),
                |i: int| (self.credentials@[i].0@, self.credentials@[i].1@),
            ),
        }
    }
}

impl CredentialsDatabase {
    /// Well-formed: entry names are unique.
    pub open spec fn wf(&self) -> bool {
        self@.wf()
    }

    /// An empty database owned by the given username.
    pub fn new(username: String) -> (r: Self)
        ensures
            r@.owner == username@,
            r@.entries == Seq::<(Seq<char>, CredentialView)>::empty(),
            r@.entry_map() == Map::<Seq<char>, CredentialView>::empty(),
            r.wf(),
    {
        let r = CredentialsDatabase { username, credentials: Vec::new() };
        proof {
            assert(r@.entries =~= Seq::<(Seq<char>, CredentialView)>::empty());
        }
        r
    }

    /// The owner of this database.
    pub fn username(&self) -> (r: &str)
        ensures
            r@ == self@.owner,
    {
        self.username.as_str()
    }

    /// The index of the entry named `name`, if one exists.
    fn find(&self, name: &str) -> (r: Option<usize>)
        ensures
            match r {
                Some(i) => i < self@.entries.len() && self@.entries[i as int].0 == name@,
                None => forall|j: int| 0 <= j < self@.entries.len() ==> self@.entries[j].0 != name@,
            },
    {
        let n = self.credentials.len();
        let mut i: usize = 0;
        while i < n
            invariant
                n == self.credentials@.len(),
                0 <= i <= n,
                forall|j: int| 0 <= j < i ==> self@.entries[j].0 != name@,
            decreases n - i,
        {
            if str_eq(self.credentials[i].0.as_str(), name) {
                return Some(i);
            }
            i = i + 1;
        }
        None
    }

    /// Inserts or overwrites the entry at `name`. Overwriting is not an
    /// error: uniqueness of names is a database-level fact, and the last
    /// write wins.
    pub fn add(&mut self, name: String, username: String, password: String)
        requires
            old(self).wf(),
        ensures
            final(self).wf(),
            final(self)@.owner == old(self)@.owner,
            final(self)@.entry_map() == old(self)@.entry_map().insert(
                name@,
                (CredentialView { username: username@, password: password@ }),
            ),
            forall|i: int|
                0 <= i < old(self)@.entries.len() && (#[trigger] old(self)@.entries[i]).0 == name@
                    ==> final(self)@.entries == old(self)@.entries.update(
                    i,
                    (name@, CredentialView { username: username@, password: password@ }),
                ),
            (forall|i: int|
                0 <= i < old(self)@.entries.len() ==> (#[trigger] old(self)@.entries[i]).0 != name@)
                ==> final(self)@.entries == old(self)@.entries.push(
                (name@, CredentialView { username: username@, password: password@ }),
            ),
    {
        let ghost old_entries = self@.entries;
        let ghost cv = CredentialView { username: username@, password: password@ };
        let found = self.find(name.as_str());
        let cred = Credential { username, password };
        match found {
            Some(i) => {
                let ghost gi = i as int;
                self.credentials.remove(i);
                self.credentials.insert(i, (name, cred));
                proof {
                    assert(self@.entries =~= old_entries.update(gi, (old_entries[gi].0, cv)));
                    lemma_entries_map_update(old_entries, gi, cv);
                    assert forall|i2: int|
                        0 <= i2 < old_entries.len() && (#[trigger] old_entries[i2]).0 == name@
                        implies self@.entries == old_entries.update(i2, (name@, cv)) by {
                        assert(i2 == gi);
                    }
                    assert(unique_names(self@.entries));
                }
            },
            None => {
                self.credentials.push((name, cred));
                proof {
                    assert(self@.entries =~= old_entries.push((name@, cv)));
                    assert(self@.entries.drop_last() =~= old_entries);
                    lemma_entries_map_domain(old_entries);
                    assert(entries_map(self@.entries) =~= entries_map(old_entries).insert(
                        name@,
                        cv,
                    ));
                    assert(unique_names(self@.entries));
                }
            },
        }
    }

    /// Removes the entry named `name`; true exactly when one existed.
    pub fn remove(&mut self, name: &str) -> (r: bool)
        requires
            old(self).wf(),
        ensures
            final(self).wf(),
            final(self)@.owner == old(self)@.owner,
            r == old(self)@.entry_map().contains_key(name@),
            final(self)@.entry_map() == old(self)@.entry_map().remove(name@),
            !r ==> final(self)@ == old(self)@,
            forall|i: int|
                0 <= i < old(self)@.entries.len() && (#[trigger] old(self)@.entries[i]).0 == name@
                    ==> final(self)@.entries == old(self)@.entries.remove(i),
    {
        let ghost old_entries = self@.entries;
        proof {
            lemma_entries_map_domain(old_entries);
        }
        match self.find(name) {
            Some(i) => {
                let ghost gi = i as int;
                self.credentials.remove(i);
                proof {
                    assert(self@.entries =~= old_entries.remove(gi));
                    lemma_entries_map_remove(old_entries, gi);
                    assert forall|i2: int|
                        0 <= i2 < old_entries.len() && (#[trigger] old_entries[i2]).0 == name@
                        implies self@.entries == old_entries.remove(i2) by {
                        assert(i2 == gi);
                    }
                    assert(unique_names(self@.entries));
                }
                true
            },
            None => {
                proof {
                    assert(old(self)@.entry_map().remove(name@) =~= old(self)@.entry_map());
                }
                false
            },
        }
    }

    /// The credential stored at `name`, if any. Absence is not an error at
    /// this layer.
    pub fn entry(&self, name: &str) -> (r: Option<&Credential>)
        requires
            self.wf(),
        ensures
            match r {
                Some(c) => self@.entry_map().contains_key(name@) && c@ == self@.entry_map()[name@],
                None => !self@.entry_map().contains_key(name@),
            },
    {
        proof {
            lemma_entries_map_domain(self@.entries);
        }
        match self.find(name) {
            Some(i) => {
                proof {
                    lemma_entries_map_value(self@.entries, i as int);
                }
                Some(&self.credentials[i].1)
            },
            None => None,
        }
    }

    /// The entries in insertion order.
    pub fn entries(&self) -> (r: &Vec<(String, Credential)>)
        ensures
            r@.len() == self@.entries.len(),
            forall|i: int|
                0 <= i < r@.len() ==> (r@[i].0@, r@[i].1@) == #[trigger] self@.entries[i],
    {
        &self.credentials
    }
}

} // verus!
