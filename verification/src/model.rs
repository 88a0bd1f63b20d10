//! Mathematical model of the secret store: the mapping that a sequence of
//! resolved `(key, value)` pairs produces, and the laws that govern it.

use vstd::prelude::*;

verus! {

/// The mapping produced by storing a sequence of resolved `(key, value)`
/// pairs in order: a later pair overwrites an earlier pair with the same key.
pub open spec fn resolved_map(entries: Seq<(Seq<char>, Seq<char>)>) -> Map<Seq<char>, Seq<char>>
    decreases entries.len(),
{
    if entries.len() == 0 {
        Map::empty()
    } else {
        resolved_map(entries.drop_last()).insert(entries.last().0, entries.last().1)
    }
}

/// No two entries carry the same key.
pub open spec fn distinct_keys(entries: Seq<(Seq<char>, Seq<char>)>) -> bool {
    forall|p: int, q: int|
        0 <= p < q < entries.len() ==> (#[trigger] entries[p]).0 != (#[trigger] entries[q]).0
}

/// The entries that a vault holding the mapping `vault` yields for `keys`,
/// key by key, when every requested key resolves.
pub open spec fn vault_entries(keys: Seq<Seq<char>>, vault: Map<Seq<char>, Seq<char>>) -> Seq<
    (Seq<char>, Seq<char>),
> {
    Seq::new(keys.len(), |j: int| (keys[j], vault[keys[j]]))
}

/// A key is mapped exactly when some entry carries it: lookup fails precisely
/// on the keys that were never part of the resolution.
pub proof fn lemma_resolved_map_domain(entries: Seq<(Seq<char>, Seq<char>)>)
    ensures
        forall|k: Seq<char>|
            #[trigger] resolved_map(entries).contains_key(k) <==> (exists|i: int|
                0 <= i < entries.len() && (#[trigger] entries[i]).0 == k),
    decreases entries.len(),
{
    if entries.len() == 0 {
    } else {
        let prefix = entries.drop_last();
        lemma_resolved_map_domain(prefix);
        assert forall|k: Seq<char>| #[trigger] resolved_map(entries).contains_key(k) implies (
        exists|i: int| 0 <= i < entries.len() && (#[trigger] entries[i]).0 == k) by {
            if k == entries.last().0 {
                assert((entries[entries.len() - 1]).0 == k);
            } else {
                assert(resolved_map(prefix).contains_key(k));
                let i = choose|i: int| 0 <= i < prefix.len() && (#[trigger] prefix[i]).0 == k;
                assert((entries[i]).0 == k);
            }
        }
        assert forall|k: Seq<char>|
            (exists|i: int|
                0 <= i < entries.len() && (#[trigger] entries[i]).0
                    == k) implies resolved_map(entries).contains_key(k) by {
            let i = choose|i: int| 0 <= i < entries.len() && (#[trigger] entries[i]).0 == k;
            if i < entries.len() - 1 {
                assert((prefix[i]).0 == k);
                assert(resolved_map(prefix).contains_key(k));
            }
        }
    }
}

/// Duplicate keys collapse to one mapping entry, and the last write wins: an
/// entry that no later entry overrides is exactly what lookup of its key sees.
pub proof fn lemma_last_write_wins(entries: Seq<(Seq<char>, Seq<char>)>, i: int)
    requires
        0 <= i < entries.len(),
        forall|j: int| i < j < entries.len() ==> (#[trigger] entries[j]).0 != entries[i].0,
    ensures
        resolved_map(entries).contains_key(entries[i].0),
        resolved_map(entries)[entries[i].0] == entries[i].1,
    decreases entries.len(),
{
    if i == entries.len() - 1 {
    } else {
        let prefix = entries.drop_last();
        assert(entries[entries.len() - 1].0 != entries[i].0);
        assert forall|j: int| i < j < prefix.len() implies (#[trigger] prefix[j]).0
            != prefix[i].0 by {
            assert(prefix[j] == entries[j]);
            assert(prefix[i] == entries[i]);
        }
        lemma_last_write_wins(prefix, i);
        assert(prefix[i] == entries[i]);
    }
}

/// An empty resolution yields a store in which no lookup at all succeeds.
pub proof fn lemma_empty_resolution()
    ensures
        resolved_map(Seq::<(Seq<char>, Seq<char>)>::empty()) == Map::<Seq<char>, Seq<char>>::empty(),
        forall|k: Seq<char>|
            !(#[trigger] resolved_map(Seq::<(Seq<char>, Seq<char>)>::empty()).contains_key(k)),
{
}

/// When every requested key resolves, looking up any requested key in the
/// resulting mapping yields exactly the value the vault holds for that key.
pub proof fn lemma_complete_resolution_lookup(keys: Seq<Seq<char>>, vault: Map<Seq<char>, Seq<char>>)
    requires
        keys.len() > 0,
        forall|i: int| 0 <= i < keys.len() ==> vault.contains_key(#[trigger] keys[i]),
    ensures
        forall|i: int|
            0 <= i < keys.len() ==> resolved_map(vault_entries(keys, vault)).contains_key(
                #[trigger] keys[i],
            ),
        forall|i: int|
            0 <= i < keys.len() ==> resolved_map(vault_entries(keys, vault))[#[trigger] keys[i]]
                == vault[keys[i]],
    decreases keys.len(),
{
    let entries = vault_entries(keys, vault);
    let last = keys[keys.len() - 1];
    assert(entries.last() == (last, vault[last]));
    if keys.len() == 1 {
        assert(resolved_map(entries) == resolved_map(entries.drop_last()).insert(
            last,
            vault[last],
        ));
    } else {
        let sub = keys.drop_last();
        lemma_complete_resolution_lookup(sub, vault);
        assert(vault_entries(sub, vault) =~= entries.drop_last());
        assert forall|i: int|
            0 <= i < keys.len() implies resolved_map(entries).contains_key(#[trigger] keys[i])
            && resolved_map(entries)[keys[i]] == vault[keys[i]] by {
            if i < keys.len() - 1 && keys[i] != last {
                assert(sub[i] == keys[i]);
            }
        }
    }
}

/// Overwriting the value of the entry that carries a key, when keys are
/// distinct, changes the mapping exactly as one insert of the new value does.
pub(crate) proof fn lemma_resolved_map_overwrite(
    entries: Seq<(Seq<char>, Seq<char>)>,
    i: int,
    v: Seq<char>,
)
    requires
        distinct_keys(entries),
        0 <= i < entries.len(),
    ensures
        resolved_map(entries.update(i, (entries[i].0, v))) == resolved_map(entries).insert(
            entries[i].0,
            v,
        ),
    decreases entries.len(),
{
    let updated = entries.update(i, (entries[i].0, v));
    if i == entries.len() - 1 {
        assert(updated.drop_last() =~= entries.drop_last());
        assert(updated.last() == (entries[i].0, v));
        assert(resolved_map(updated) =~= resolved_map(entries).insert(entries[i].0, v));
    } else {
        let prefix = entries.drop_last();
        assert forall|p: int, q: int| 0 <= p < q < prefix.len() implies (#[trigger] prefix[p]).0
            != (#[trigger] prefix[q]).0 by {
            assert(prefix[p] == entries[p]);
            assert(prefix[q] == entries[q]);
        }
        assert(prefix[i] == entries[i]);
        lemma_resolved_map_overwrite(prefix, i, v);
        assert(updated.drop_last() =~= prefix.update(i, (entries[i].0, v)));
        assert(updated.last() == entries.last());
        assert(entries[entries.len() - 1].0 != entries[i].0);
        assert(resolved_map(updated) =~= resolved_map(entries).insert(entries[i].0, v));
    }
}

} // verus!
