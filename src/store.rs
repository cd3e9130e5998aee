use vstd::prelude::*;

use crate::text::str_eq;

verus! {

struct Entry<T> {
    key: String,
    value: T,
}

/// Values keyed by strings, at most one value per key.
pub struct KeyedStore<T> {
    entries: Vec<Entry<T>>,
}

spec fn map_of<T>(e: Seq<Entry<T>>) -> Map<Seq<char>, T>
    decreases e.len(),
{
    if e.len() == 0 {
        Map::empty()
    } else {
        map_of(e.drop_last()).insert(e.last().key@, e.last().value)
    }
}

spec fn keys_unique<T>(e: Seq<Entry<T>>) -> bool {
    forall|i: int, j: int|
        0 <= i < e.len() && 0 <= j < e.len() && i != j ==> e[i].key@ != e[j].key@
}

proof fn lemma_map_of<T>(e: Seq<Entry<T>>)
    ensures
        forall|k: Seq<char>|
            #[trigger] map_of(e).contains_key(k) <==> exists|i: int|
                0 <= i < e.len() && e[i].key@ == k,
        keys_unique(e) ==> forall|i: int|
            0 <= i < e.len() ==> #[trigger] map_of(e)[e[i].key@] == e[i].value,
    decreases e.len(),
{
    if e.len() > 0 {
        let p = e.drop_last();
        lemma_map_of(p);
        assert forall|k: Seq<char>| #[trigger] map_of(e).contains_key(k) <==> exists|i: int|
            0 <= i < e.len() && e[i].key@ == k by {
            if map_of(e).contains_key(k) && k != e.last().key@ {
                assert(map_of(p).contains_key(k));
                let i = choose|i: int| 0 <= i < p.len() && p[i].key@ == k;
                assert(e[i] == p[i]);
            }
            if exists|i: int| 0 <= i < e.len() && e[i].key@ == k {
                let i = choose|i: int| 0 <= i < e.len() && e[i].key@ == k;
                if i < e.len() - 1 {
                    assert(p[i] == e[i]);
                    assert(map_of(p).contains_key(k));
                }
            }
        }
        if keys_unique(e) {
            assert forall|i: int, j: int|
                0 <= i < p.len() && 0 <= j < p.len() && i != j implies p[i].key@ != p[j].key@ by {
                assert(p[i] == e[i] && p[j] == e[j]);
            }
            assert(keys_unique(p));
            assert forall|i: int| 0 <= i < e.len() implies #[trigger] map_of(e)[e[i].key@]
                == e[i].value by {
                if i < e.len() - 1 {
                    assert(p[i] == e[i]);
                    assert(e[i].key@ != e.last().key@);
                    assert(map_of(p)[p[i].key@] == p[i].value);
                }
            }
        }
    }
}

proof fn lemma_remove<T>(e: Seq<Entry<T>>, i: int)
    requires
        keys_unique(e),
        0 <= i < e.len(),
    ensures
        keys_unique(e.remove(i)),
        map_of(e.remove(i)) == map_of(e).remove(e[i].key@),
{
    let r = e.remove(i);
    assert forall|j: int| 0 <= j < r.len() implies #[trigger] r[j] == (if j < i {
        e[j]
    } else {
        e[j + 1]
    }) by {}
    assert forall|a: int, b: int| 0 <= a < r.len() && 0 <= b < r.len() && a != b implies r[a].key@
        != r[b].key@ by {
        let ea = if a < i { a } else { a + 1 };
        let eb = if b < i { b } else { b + 1 };
        assert(r[a] == e[ea] && r[b] == e[eb]);
    }
    lemma_map_of(e);
    lemma_map_of(r);
    let k0 = e[i].key@;
    assert forall|k: Seq<char>| #[trigger] map_of(r).contains_key(k) <==> map_of(e).remove(
        k0,
    ).contains_key(k) by {
        if map_of(r).contains_key(k) {
            let j = choose|j: int| 0 <= j < r.len() && r[j].key@ == k;
            let ej = if j < i { j } else { j + 1 };
            assert(r[j] == e[ej]);
            assert(map_of(e).contains_key(k));
        }
        if map_of(e).remove(k0).contains_key(k) {
            assert(map_of(e).contains_key(k));
            let j = choose|j: int| 0 <= j < e.len() && e[j].key@ == k;
            assert(j != i);
            let rj = if j < i { j } else { j - 1 };
            assert(r[rj] == e[j]);
        }
    }
    assert forall|k: Seq<char>| #[trigger] map_of(r).contains_key(k) implies map_of(r)[k]
        == map_of(e).remove(k0)[k] by {
        let j = choose|j: int| 0 <= j < r.len() && r[j].key@ == k;
        let ej = if j < i { j } else { j + 1 };
        assert(r[j] == e[ej]);
        assert(map_of(r)[r[j].key@] == r[j].value);
        assert(map_of(e)[e[ej].key@] == e[ej].value);
    }
    assert(map_of(r) =~= map_of(e).remove(k0));
}

proof fn lemma_push<T>(e: Seq<Entry<T>>, x: Entry<T>)
    requires
        keys_unique(e),
        !map_of(e).contains_key(x.key@),
    ensures
        keys_unique(e.push(x)),
        map_of(e.push(x)) == map_of(e).insert(x.key@, x.value),
{
    lemma_map_of(e);
    let n = e.push(x);
    assert(n.drop_last() == e);
    assert forall|a: int, b: int| 0 <= a < n.len() && 0 <= b < n.len() && a != b implies n[a].key@
        != n[b].key@ by {
        if a < e.len() && b < e.len() {
            assert(n[a] == e[a] && n[b] == e[b]);
        } else if a < e.len() {
            assert(n[a] == e[a]);
            assert(map_of(e).contains_key(e[a].key@));
        } else {
            assert(n[b] == e[b]);
            assert(map_of(e).contains_key(e[b].key@));
        }
    }
}

impl<T> View for KeyedStore<T> {
    type V = Map<Seq<char>, T>;

    /// The values, keyed by their keys.
    closed spec fn view(&self) -> Map<Seq<char>, T> {
        map_of(self.entries@)
    }
}

impl<T> KeyedStore<T> {
    /// No key is held twice.
    pub closed spec fn wf(&self) -> bool {
        keys_unique(self.entries@)
    }

    /// An empty store.
    pub fn new() -> (r: Self)
        ensures
            r.wf(),
            r@ == Map::<Seq<char>, T>::empty(),
    {
        KeyedStore { entries: Vec::new() }
    }

    /// The number of keys held.
    pub fn len(&self) -> (r: usize)
        requires
            self.wf(),
        ensures
            r == self@.len(),
    {
        proof {
            self.lemma_len();
        }
        self.entries.len()
    }

    proof fn lemma_len(&self)
        requires
            self.wf(),
        ensures
            self@.len() == self.entries@.len(),
            self@.dom().finite(),
    {
        let e = self.entries@;
        lemma_map_of(e);
        let ids = Seq::new(e.len(), |i: int| e[i].key@);
        assert forall|i: int, j: int| 0 <= i < ids.len() && 0 <= j < ids.len() && i != j
            implies ids[i] != ids[j] by {}
        ids.unique_seq_to_set();
        assert(self@.dom() =~= ids.to_set()) by {
            assert forall|k: Seq<char>| self@.dom().contains(k) <==> ids.to_set().contains(k) by {
                if self@.dom().contains(k) {
                    let i = choose|i: int| 0 <= i < e.len() && e[i].key@ == k;
                    assert(ids[i] == k);
                }
                if ids.to_set().contains(k) {
                    let i = choose|i: int| 0 <= i < ids.len() && ids[i] == k;
                    assert(map_of(e).contains_key(k));
                }
            }
        }
    }

    /// The store holds finitely many keys.
    pub proof fn lemma_finite(&self)
        requires
            self.wf(),
        ensures
            self@.dom().finite(),
    {
        self.lemma_len();
    }

    fn find(&self, key: &str) -> (r: Option<usize>)
        requires
            self.wf(),
        ensures
            r is Some ==> r->Some_0 < self.entries@.len() && self.entries@[r->Some_0 as int].key@
                == key@,
            r is None ==> !self@.contains_key(key@),
    {
        proof {
            lemma_map_of(self.entries@);
        }
        let mut i: usize = 0;
        while i < self.entries.len()
            invariant
                i <= self.entries@.len(),
                forall|j: int| 0 <= j < i ==> self.entries@[j].key@ != key@,
            decreases self.entries.len() - i,
        {
            if str_eq(self.entries[i].key.as_str(), key) {
                return Some(i);
            }
            i = i + 1;
        }
        None
    }

    /// Whether a value is held under `key`.
    pub fn contains(&self, key: &str) -> (r: bool)
        requires
            self.wf(),
        ensures
            r == self@.contains_key(key@),
    {
        proof {
            lemma_map_of(self.entries@);
        }
        self.find(key).is_some()
    }

    /// The value held under `key`, if any.
    pub fn get(&self, key: &str) -> (r: Option<&T>)
        requires
            self.wf(),
        ensures
            r is Some <==> self@.contains_key(key@),
            r is Some ==> *r->Some_0 == self@[key@],
    {
        proof {
            lemma_map_of(self.entries@);
        }
        match self.find(key) {
            Some(i) => Some(&self.entries[i].value),
            None => None,
        }
    }

    /// Puts `value` under `key`; the value that was there before is handed back.
    pub fn insert(&mut self, key: String, value: T) -> (r: Option<T>)
        requires
            old(self).wf(),
        ensures
            final(self).wf(),
            final(self)@ == old(self)@.insert(key@, value),
            r is Some <==> old(self)@.contains_key(key@),
            r is Some ==> r->Some_0 == old(self)@[key@],
    {
        proof {
            lemma_map_of(self.entries@);
        }
        let displaced = match self.find(key.as_str()) {
            Some(i) => {
                proof {
                    lemma_remove(self.entries@, i as int);
                    assert(map_of(self.entries@)[self.entries@[i as int].key@]
                        == self.entries@[i as int].value);
                }
                let e = self.entries.remove(i);
                Some(e.value)
            },
            None => None,
        };
        let ghost mid = self.entries@;
        proof {
            lemma_map_of(mid);
        }
        let entry = Entry { key, value };
        proof {
            lemma_push(mid, entry);
        }
        self.entries.push(entry);
        proof {
            assert(map_of(self.entries@) =~= old(self)@.insert(entry.key@, entry.value));
        }
        displaced
    }

    /// Takes the value under `key` out of the store, if there is one.
    pub fn remove(&mut self, key: &str) -> (r: Option<T>)
        requires
            old(self).wf(),
        ensures
            final(self).wf(),
            final(self)@ == old(self)@.remove(key@),
            r is Some <==> old(self)@.contains_key(key@),
            r is Some ==> r->Some_0 == old(self)@[key@],
    {
        proof {
            lemma_map_of(self.entries@);
        }
        match self.find(key) {
            Some(i) => {
                proof {
                    lemma_remove(self.entries@, i as int);
                    assert(map_of(self.entries@)[self.entries@[i as int].key@]
                        == self.entries@[i as int].value);
                }
                let e = self.entries.remove(i);
                Some(e.value)
            },
            None => {
                proof {
                    assert(self@.remove(key@) =~= self@);
                }
                None
            },
        }
    }

    /// The keys held, each once.
    pub fn keys(&self) -> (r: Vec<String>)
        requires
            self.wf(),
        ensures
            forall|k: int| 0 <= k < r@.len() ==> self@.contains_key(#[trigger] r@[k]@),
            forall|key: Seq<char>| self@.contains_key(key) ==> exists|k: int| 0 <= k < r@.len() && #[trigger] r@[k]@ == key,
            forall|a: int, b: int| 0 <= a < r@.len() && 0 <= b < r@.len() && a != b ==> r@[a]@ != r@[b]@,
    {
        proof {
            lemma_map_of(self.entries@);
        }
        let mut out: Vec<String> = Vec::new();
        let mut i: usize = 0;
        while i < self.entries.len()
            invariant
                i <= self.entries@.len(),
                keys_unique(self.entries@),
                out@.len() == i,
                forall|k: int| 0 <= k < i ==> #[trigger] out@[k]@ == self.entries@[k].key@,
            decreases self.entries.len() - i,
        {
            out.push(self.entries[i].key.clone());
            i = i + 1;
        }
        proof {
            assert forall|key: Seq<char>| self@.contains_key(key) implies exists|k: int| 0 <= k < out@.len() && #[trigger] out@[k]@ == key by {
                let j = choose|j: int| 0 <= j < self.entries@.len() && self.entries@[j].key@ == key;
                assert(out@[j]@ == key);
            }
        }
        out
    }

} // impl

} // verus!
