//! Fail-fast construction of a [`Vault`]: the builder hands out the requested
//! keys in order, collects the value resolved for each, and yields the
//! finished store only when every key resolved. The caller performs the
//! actual fetches and stops at the first failure; the unresolved key then
//! fails the whole construction, and no partial store exists.

use crate::errors::VaultError;
use crate::model::resolved_map;
use crate::store::Vault;
use vstd::prelude::*;

verus! {

/// The state of one in-progress store construction.
pub struct VaultBuilder {
    keys: Vec<String>,
    resolved: Vec<(String, String)>,
}

impl VaultBuilder {
    #[verifier::type_invariant]
    spec fn wf(&self) -> bool {
        &&& self.resolved.deep_view().len() <= self.keys.deep_view().len()
        &&& forall|i: int|
            0 <= i < self.resolved.deep_view().len() ==> (#[trigger] self.resolved.deep_view()[
                i
            ]).0 == self.keys.deep_view()[i]
    }

    /// The keys this construction was asked to resolve, in order.
    pub closed spec fn requested(&self) -> Seq<Seq<char>> {
        self.keys.deep_view()
    }

    /// The pairs resolved so far: a prefix of the requested keys, each paired
    /// with the value the vault returned for it.
    pub closed spec fn resolved(&self) -> Seq<(Seq<char>, Seq<char>)> {
        self.resolved.deep_view()
    }

    /// Start a construction over the given key list.
    pub fn new(keys: Vec<String>) -> (b: VaultBuilder)
        ensures
            b.requested() == keys.deep_view(),
            b.resolved() == Seq::<(Seq<char>, Seq<char>)>::empty(),
    {
        let b = VaultBuilder { keys, resolved: Vec::new() };
        proof {
            assert(b.resolved.deep_view() =~= Seq::<(Seq<char>, Seq<char>)>::empty());
        }
        b
    }

    /// The key that must resolve next, or `None` once every requested key has
    /// resolved.
    pub fn next_key(&self) -> (r: Option<String>)
        ensures
            match r {
                Some(k) => self.resolved().len() < self.requested().len() && k@
                    == self.requested()[self.resolved().len() as int],
                None => self.resolved().len() == self.requested().len(),
            },
    {
        proof {
            use_type_invariant(&*self);
        }
        if self.resolved.len() < self.keys.len() {
            proof {
                assert(self.keys.deep_view()[self.resolved@.len() as int] == self.keys@[
                    self.resolved@.len() as int
                ]@);
            }
            Some(self.keys[self.resolved.len()].clone())
        } else {
            None
        }
    }

    /// Record the value the vault resolved for the pending key. Returns
    /// `false`, and records nothing, when no key is pending.
    pub fn resolve(&mut self, value: String) -> (accepted: bool)
        ensures
            accepted == (old(self).resolved().len() < old(self).requested().len()),
            final(self).requested() == old(self).requested(),
            accepted ==> final(self).resolved() == old(self).resolved().push(
                (old(self).requested()[old(self).resolved().len() as int], value@),
            ),
            !accepted ==> final(self).resolved() == old(self).resolved(),
    {
        proof {
            use_type_invariant(&*self);
        }
        if self.resolved.len() < self.keys.len() {
            let key = self.keys[self.resolved.len()].clone();
            proof {
                assert(self.keys.deep_view()[self.resolved@.len() as int] == self.keys@[
                    self.resolved@.len() as int
                ]@);
            }
            let mut resolved: Vec<(String, String)> = Vec::new();
            std::mem::swap(&mut resolved, &mut self.resolved);
            resolved.push((key, value));
            proof {
                assert(resolved.deep_view() =~= old(self).resolved.deep_view().push(
                    (old(self).keys.deep_view()[old(self).resolved.deep_view().len() as int], value@),
                ));
                assert forall|i: int|
                    0 <= i < resolved.deep_view().len() implies (#[trigger] resolved.deep_view()[
                    i]).0 == self.keys.deep_view()[i] by {
                    if i < resolved.deep_view().len() - 1 {
                        assert(resolved.deep_view()[i] == old(self).resolved.deep_view()[i]);
                    }
                }
            }
            self.resolved = resolved;
            true
        } else {
            false
        }
    }

    /// Finish the construction: the store, holding exactly the resolved
    /// pairs, when every requested key resolved; otherwise a fetch error
    /// naming the first unresolved key, and no store at all.
    pub fn finish(self) -> (r: Result<Vault, VaultError>)
        ensures
            self.resolved().len() == self.requested().len() ==> (r matches Ok(v) && v@
                == resolved_map(self.resolved())),
            self.resolved().len() < self.requested().len() ==> (r matches Err(
                VaultError::SecretFetch(k),
            ) && k@ == self.requested()[self.resolved().len() as int]),
    {
        proof {
            use_type_invariant(&self);
        }
        if self.resolved.len() == self.keys.len() {
            Ok(Vault::new(self.resolved))
        } else {
            proof {
                assert(self.keys.deep_view()[self.resolved@.len() as int] == self.keys@[
                    self.resolved@.len() as int
                ]@);
            }
            Err(VaultError::SecretFetch(self.keys[self.resolved.len()].clone()))
        }
    }
}

} // verus!
