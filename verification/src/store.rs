//! The read-only secret store and its fail-fast lookup interface.

use crate::errors::VaultError;
use crate::model::distinct_keys;
use crate::model::lemma_last_write_wins;
use crate::model::lemma_resolved_map_domain;
use crate::model::lemma_resolved_map_overwrite;
use crate::model::resolved_map;
use vstd::prelude::*;

verus! {

/// Read-only access to resolved secrets: the resolved value for every key the
/// storage holds, and a missing-key error naming any other key.
pub trait VaultStorage {
    /// The mapping of resolved secrets that this storage exposes.
    spec fn secrets(&self) -> Map<Seq<char>, Seq<char>>;

    /// Look a required key up: its resolved value when the storage holds the
    /// key, and a missing-key error naming the key otherwise.
    fn get_required(&self, key: &str) -> (r: Result<String, VaultError>)
        ensures
            self.secrets().contains_key(key@) ==> (r matches Ok(v) && v@ == self.secrets().index(
                key@,
            )),
            !self.secrets().contains_key(key@) ==> (r matches Err(VaultError::MissingKey(k))
                && k@ == key@),
    ;
}

/// An immutable mapping from key names to secret values, fully populated at
/// construction and never changed afterwards.
pub struct Vault {
    entries: Vec<(String, String)>,
}

impl View for Vault {
    type V = Map<Seq<char>, Seq<char>>;

    /// The mapping the store holds.
    closed spec fn view(&self) -> Map<Seq<char>, Seq<char>> {
        resolved_map(self.entries.deep_view())
    }
}

/// The position of the entry that carries `key`, if there is one.
fn find_key(entries: &Vec<(String, String)>, key: &String) -> (r: Option<usize>)
    ensures
        match r {
            Some(i) => i < entries.deep_view().len() && entries.deep_view()[i as int].0 == key@,
            None => forall|j: int|
                0 <= j < entries.deep_view().len() ==> (#[trigger] entries.deep_view()[j]).0
                    != key@,
        },
{
    let mut i: usize = 0;
    while i < entries.len()
        invariant
            i <= entries@.len(),
            forall|j: int| 0 <= j < i ==> (#[trigger] entries.deep_view()[j]).0 != key@,
        decreases entries@.len() - i,
    {
        proof {
            assert(entries.deep_view()[i as int].0 == entries@[i as int].0@);
        }
        if entries[i].0 == *key {
            return Some(i);
        }
        i += 1;
    }
    None
}

impl Vault {
    #[verifier::type_invariant]
    spec fn wf(&self) -> bool {
        distinct_keys(self.entries.deep_view())
    }

    /// Build the store from resolved `(key, value)` pairs, in order: a later
    /// pair overwrites the value an earlier pair stored for the same key.
    pub fn new(resolved: Vec<(String, String)>) -> (v: Vault)
        ensures
            v@ == resolved_map(resolved.deep_view()),
    {
        let mut v = Vault { entries: Vec::new() };
        proof {
            assert(v.entries.deep_view() =~= Seq::<(Seq<char>, Seq<char>)>::empty());
        }
        let mut i: usize = 0;
        while i < resolved.len()
            invariant
                i <= resolved@.len(),
                v@ == resolved_map(resolved.deep_view().take(i as int)),
            decreases resolved@.len() - i,
        {
            let key = resolved[i].0.clone();
            let value = resolved[i].1.clone();
            proof {
                assert(resolved.deep_view()[i as int] == (
                    resolved@[i as int].0@,
                    resolved@[i as int].1@,
                ));
                assert(resolved.deep_view().take(i as int + 1).drop_last() =~= resolved.deep_view()
                    .take(i as int));
                assert(resolved.deep_view().take(i as int + 1).last() == resolved.deep_view().index(
                    i as int,
                ));
            }
            v.insert(key, value);
            i += 1;
        }
        proof {
            assert(resolved.deep_view().take(resolved@.len() as int) =~= resolved.deep_view());
        }
        v
    }

    /// Store one resolved pair, overwriting the value held for an equal key.
    fn insert(&mut self, key: String, value: String)
        ensures
            final(self)@ == old(self)@.insert(key@, value@),
    {
        proof {
            use_type_invariant(&*self);
        }
        let ghost prior = self.entries.deep_view();
        let mut entries: Vec<(String, String)> = Vec::new();
        std::mem::swap(&mut entries, &mut self.entries);
        match find_key(&entries, &key) {
            Some(i) => {
                entries[i] = (key, value);
                proof {
                    assert(entries.deep_view() =~= prior.update(
                        i as int,
                        (prior[i as int].0, value@),
                    ));
                    lemma_resolved_map_overwrite(prior, i as int, value@);
                    assert forall|p: int, q: int|
                        0 <= p < q < entries.deep_view().len() implies (
                    #[trigger] entries.deep_view()[p]).0 != (#[trigger] entries.deep_view()[q]).0 by {
                        assert(entries.deep_view()[p] == prior.update(
                            i as int,
                            (prior[i as int].0, value@),
                        )[p]);
                        assert(entries.deep_view()[q] == prior.update(
                            i as int,
                            (prior[i as int].0, value@),
                        )[q]);
                    }
                }
            },
            None => {
                entries.push((key, value));
                proof {
                    assert(entries.deep_view().drop_last() =~= prior);
                    assert(entries.deep_view().last() == (key@, value@));
                    assert forall|p: int, q: int|
                        0 <= p < q < entries.deep_view().len() implies (
                    #[trigger] entries.deep_view()[p]).0 != (#[trigger] entries.deep_view()[q]).0 by {
                        if q < entries.deep_view().len() - 1 {
                            assert(entries.deep_view()[p] == prior[p]);
                            assert(entries.deep_view()[q] == prior[q]);
                        } else {
                            assert(entries.deep_view()[p] == prior[p]);
                            assert(entries.deep_view()[q] == (key@, value@));
                        }
                    }
                }
            },
        }
        self.entries = entries;
    }
}

impl VaultStorage for Vault {
    /// The mapping the store holds.
    open spec fn secrets(&self) -> Map<Seq<char>, Seq<char>> {
        self@
    }

    fn get_required(&self, key: &str) -> (r: Result<String, VaultError>) {
        proof {
            use_type_invariant(&*self);
            lemma_resolved_map_domain(self.entries.deep_view());
        }
        let owned: String = key.to_owned();
        match find_key(&self.entries, &owned) {
            Some(i) => {
                proof {
                    let deep = self.entries.deep_view();
                    assert forall|j: int| i < j < deep.len() implies (#[trigger] deep[j]).0
                        != deep[i as int].0 by {}
                    lemma_last_write_wins(deep, i as int);
                    assert(deep[i as int].1 == self.entries@[i as int].1@);
                }
                Ok(self.entries[i].1.clone())
            },
            None => Err(VaultError::MissingKey(owned)),
        }
    }
}

} // verus!
