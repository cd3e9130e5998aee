use vstd::prelude::*;

use crate::store::KeyedStore;

verus! {

/// The API keys of the AI providers, keyed by provider name.
pub struct ApiKeyStore {
    keys: KeyedStore<String>,
}

impl View for ApiKeyStore {
    type V = Map<Seq<char>, Seq<char>>;

    closed spec fn view(&self) -> Map<Seq<char>, Seq<char>> {
        self.keys@.map_values(|k: String| k@)
    }
}

impl ApiKeyStore {
    pub closed spec fn wf(&self) -> bool {
        self.keys.wf()
    }

    /// A store with no keys.
    pub fn new() -> (r: Self)
        ensures
            r.wf(),
            r@ == Map::<Seq<char>, Seq<char>>::empty(),
    {
        let r = ApiKeyStore { keys: KeyedStore::new() };
        proof {
            assert(r@ =~= Map::<Seq<char>, Seq<char>>::empty());
        }
        r
    }

    /// Sets the key of `provider`, replacing any it had.
    pub fn set_key(&mut self, provider: &str, key: String)
        requires
            old(self).wf(),
        ensures
            final(self).wf(),
            final(self)@ == old(self)@.insert(provider@, key@),
    {
        let _ = self.keys.insert(provider.to_owned(), key);
        proof {
            assert(self@ =~= old(self)@.insert(provider@, key@));
        }
    }

    /// The key of `provider`, if it has one.
    pub fn get_key(&self, provider: &str) -> (r: Option<String>)
        requires
            self.wf(),
        ensures
            r is Some <==> self@.contains_key(provider@),
            r is Some ==> r->Some_0@ == self@[provider@],
    {
        match self.keys.get(provider) {
            Some(k) => Some(k.clone()),
            None => None,
        }
    }

    /// Forgets the key of `provider`.
    pub fn remove_key(&mut self, provider: &str)
        requires
            old(self).wf(),
        ensures
            final(self).wf(),
            final(self)@ == old(self)@.remove(provider@),
    {
        let _ = self.keys.remove(provider);
        proof {
            assert(self@ =~= old(self)@.remove(provider@));
        }
    }

    /// Whether `provider` has a key.
    pub fn has_key(&self, provider: &str) -> (r: bool)
        requires
            self.wf(),
        ensures
            r == self@.contains_key(provider@),
    {
        self.keys.contains(provider)
    }
}

impl Default for ApiKeyStore {
    fn default() -> (r: Self)
        ensures
            r.wf(),
            r@ == Map::<Seq<char>, Seq<char>>::empty(),
    {
        ApiKeyStore::new()
    }
}

} // verus!
