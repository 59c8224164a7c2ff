//! Secret stores: where the API keys of the providers are kept, by key.
use crate::assets::{lookup_last, lookup_last_exec, IndexPair};
use crate::strs::{owned, str_eq, trim, trim_ws};
use vstd::prelude::*;

verus! {

/// A store of secrets by key. Errors are the store's own messages.
pub trait SecretStore {
    fn set_secret(&mut self, key: &str, value: &str) -> Result<(), String>;

    fn get_secret(&self, key: &str) -> Result<Option<String>, String>;

    fn delete_secret(&mut self, key: &str) -> Result<(), String>;
}

/// A secret store in memory.
pub struct MemorySecretStore {
    entries: Vec<IndexPair>,
}

/// The pairs without those of `key`.
pub open spec fn without_key(pairs: Seq<(Seq<char>, Seq<char>)>, key: Seq<char>) -> Seq<
    (Seq<char>, Seq<char>),
>
    decreases pairs.len(),
{
    if pairs.len() == 0 {
        pairs
    } else {
        let rest = without_key(pairs.drop_last(), key);
        if pairs.last().0 == key {
            rest
        } else {
            rest.push(pairs.last())
        }
    }
}

proof fn lemma_without_key(pairs: Seq<(Seq<char>, Seq<char>)>, key: Seq<char>, j: Seq<char>)
    ensures
        lookup_last(without_key(pairs, key), j) == (if j == key {
            None
        } else {
            lookup_last(pairs, j)
        }),
    decreases pairs.len(),
{
    if pairs.len() > 0 {
        lemma_without_key(pairs.drop_last(), key, j);
        let rest = without_key(pairs.drop_last(), key);
        if pairs.last().0 != key {
            assert(rest.push(pairs.last()).drop_last() == rest);
        }
    }
}

impl MemorySecretStore {
    /// The secret stored under `key`.
    pub closed spec fn secret_of(&self, key: Seq<char>) -> Option<Seq<char>> {
        lookup_last(self.entries.deep_view(), key)
    }

    /// An empty store.
    pub fn new() -> (r: MemorySecretStore)
        ensures
            forall|k: Seq<char>| #[trigger] r.secret_of(k) is None,
    {
        MemorySecretStore { entries: Vec::new() }
    }

    fn remove_key(&mut self, key: &str)
        ensures
            forall|j: Seq<char>|
                #[trigger] final(self).secret_of(j) == (if j == key@ {
                    None
                } else {
                    old(self).secret_of(j)
                }),
    {
        let ghost pv = self.entries.deep_view();
        let mut kept: Vec<IndexPair> = Vec::new();
        let mut i: usize = 0;
        while i < self.entries.len()
            invariant
                pv == self.entries.deep_view(),
                i <= pv.len(),
                kept.deep_view() == without_key(pv.take(i as int), key@),
            decreases pv.len() - i,
        {
            proof {
                assert(pv.take(i + 1).drop_last() == pv.take(i as int));
                assert(pv.take(i + 1).last() == pv[i as int]);
            }
            if !str_eq(self.entries[i].key.as_str(), key) {
                let ghost before = kept.deep_view();
                let e = IndexPair {
                    key: self.entries[i].key.clone(),
                    value: self.entries[i].value.clone(),
                };
                kept.push(e);
                proof {
                    assert(kept.deep_view() =~= before.push(pv[i as int]));
                }
            }
            i += 1;
        }
        proof {
            assert(pv.take(pv.len() as int) == pv);
            assert forall|j: Seq<char>| #[trigger]
                lookup_last(kept.deep_view(), j) == (if j == key@ {
                    None
                } else {
                    lookup_last(pv, j)
                }) by {
                lemma_without_key(pv, key@, j);
            }
        }
        self.entries = kept;
    }

    /// Stores `value` under `key`, replacing what was there.
    pub fn set(&mut self, key: &str, value: &str)
        ensures
            forall|j: Seq<char>|
                #[trigger] final(self).secret_of(j) == (if j == key@ {
                    Some(value@)
                } else {
                    old(self).secret_of(j)
                }),
    {
        self.remove_key(key);
        let ghost mid = *self;
        let ghost before = self.entries.deep_view();
        self.entries.push(IndexPair { key: owned(key), value: owned(value) });
        proof {
            assert(self.entries.deep_view() =~= before.push((key@, value@)));
            assert(self.entries.deep_view().drop_last() == before);
            assert forall|j: Seq<char>| #[trigger] self.secret_of(j) == (if j == key@ {
                Some(value@)
            } else {
                old(self).secret_of(j)
            }) by {
                assert(mid.secret_of(j) == lookup_last(before, j));
            }
        }
    }

    /// The secret stored under `key`.
    pub fn get(&self, key: &str) -> (r: Option<String>)
        ensures
            r.deep_view() == self.secret_of(key@),
    {
        lookup_last_exec(&self.entries, key)
    }

    /// Removes the secret stored under `key`.
    pub fn delete(&mut self, key: &str)
        ensures
            forall|j: Seq<char>|
                #[trigger] final(self).secret_of(j) == (if j == key@ {
                    None
                } else {
                    old(self).secret_of(j)
                }),
    {
        self.remove_key(key);
    }
}

impl SecretStore for MemorySecretStore {
    fn set_secret(&mut self, key: &str, value: &str) -> (r: Result<(), String>)
        ensures
            r is Ok,
            forall|j: Seq<char>|
                #[trigger] final(self).secret_of(j) == (if j == key@ {
                    Some(value@)
                } else {
                    old(self).secret_of(j)
                }),
    {
        self.set(key, value);
        Ok(())
    }

    fn get_secret(&self, key: &str) -> (r: Result<Option<String>, String>)
        ensures
            r matches Ok(s) && s.deep_view() == self.secret_of(key@),
    {
        Ok(self.get(key))
    }

    fn delete_secret(&mut self, key: &str) -> (r: Result<(), String>)
        ensures
            r is Ok,
            forall|j: Seq<char>|
                #[trigger] final(self).secret_of(j) == (if j == key@ {
                    None
                } else {
                    old(self).secret_of(j)
                }),
    {
        self.delete(key);
        Ok(())
    }
}

/// What a read takes from the OS keyring: its secret when it holds one
/// that is not blank; `None` sends the read to the encrypted fallback.
pub fn keyring_choice(keyring: Option<String>) -> (r: Option<String>)
    ensures
        match keyring {
            Some(k) => if trim_ws(k@).len() > 0 {
                r == Some(k)
            } else {
                r is None
            },
            None => r is None,
        },
{
    match keyring {
        Some(k) => {
            let t = trim(k.as_str());
            if t.as_str().is_empty() {
                None
            } else {
                Some(k)
            }
        },
        None => None,
    }
}

} // verus!
