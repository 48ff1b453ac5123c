use vstd::prelude::*;

use crate::bytes::copy_range;

verus! {

/// Each key of the list appears once.
pub open spec fn keys_unique(s: Seq<(String, Vec<u8>)>) -> bool {
    forall|i: int, j: int|
        0 <= i < s.len() && 0 <= j < s.len() && i != j ==> #[trigger] s[i].0@ != #[trigger] s[j].0@
}

/// The map that a list of key and payload pairs stands for.
pub open spec fn map_of(s: Seq<(String, Vec<u8>)>) -> Map<Seq<char>, Seq<u8>> {
    Map::new(
        |k: Seq<char>| exists|i: int| 0 <= i < s.len() && #[trigger] s[i].0@ == k,
        |k: Seq<char>| s[choose|i: int| 0 <= i < s.len() && #[trigger] s[i].0@ == k].1@,
    )
}

proof fn lemma_map_of_at(s: Seq<(String, Vec<u8>)>, i: int)
    requires
        keys_unique(s),
        0 <= i < s.len(),
    ensures
        map_of(s).contains_key(s[i].0@),
        map_of(s)[s[i].0@] == s[i].1@,
{
    let k = s[i].0@;
    assert(s[i].0@ == k);
    let j = choose|j: int| 0 <= j < s.len() && #[trigger] s[j].0@ == k;
    if j != i {
        assert(s[j].0@ != s[i].0@);
    }
}

/// The in-memory tier: payloads by digest, with no expiry of its own.
pub struct MemoryIndex {
    entries: Vec<(String, Vec<u8>)>,
}

impl MemoryIndex {
    pub closed spec fn wf(&self) -> bool {
        keys_unique(self.entries@)
    }

    pub closed spec fn view(&self) -> Map<Seq<char>, Seq<u8>> {
        map_of(self.entries@)
    }

    pub fn new() -> (r: MemoryIndex)
        ensures
            r.wf(),
            r@ == Map::<Seq<char>, Seq<u8>>::empty(),
    {
        let r = MemoryIndex { entries: Vec::new() };
        assert(r@ =~= Map::<Seq<char>, Seq<u8>>::empty());
        r
    }

    fn find(&self, key: &String) -> (r: Option<usize>)
        ensures
            r matches Some(i) ==> i < self.entries@.len() && self.entries@[i as int].0@ == key@,
            r is None ==> forall|j: int| 0 <= j < self.entries@.len() ==> self.entries@[j].0@ != key@,
    {
        let mut i: usize = 0;
        while i < self.entries.len()
            invariant
                i <= self.entries@.len(),
                forall|j: int| 0 <= j < i ==> self.entries@[j].0@ != key@,
            decreases self.entries@.len() - i,
        {
            if self.entries[i].0 == *key {
                return Some(i);
            }
            i = i + 1;
        }
        None
    }

    /// The payload held for `key`.
    pub fn get(&self, key: &str) -> (r: Option<Vec<u8>>)
        requires
            self.wf(),
        ensures
            r is Some <==> self@.contains_key(key@),
            r matches Some(v) ==> v@ == self@[key@],
    {
        let k = key.to_string();
        match self.find(&k) {
            Some(i) => {
                let v = &self.entries[i].1;
                let c = copy_range(v.as_slice(), 0, v.len());
                proof {
                    lemma_map_of_at(self.entries@, i as int);
                    assert(v@.subrange(0, v@.len() as int) =~= v@);
                }
                Some(c)
            },
            None => None,
        }
    }

    /// Holds `payload` for `key`, replacing what was held for it.
    pub fn put(&mut self, key: &str, payload: Vec<u8>)
        requires
            old(self).wf(),
        ensures
            final(self).wf(),
            final(self)@ == old(self)@.insert(key@, payload@),
    {
        let ghost s0 = self.entries@;
        let ghost v = payload@;
        let k = key.to_string();
        let at: usize;
        match self.find(&k) {
            Some(i) => {
                self.entries.set(i, (k, payload));
                at = i;
            },
            None => {
                self.entries.push((k, payload));
                at = (self.entries.len() - 1) as usize;
            },
        }
        let ghost s1 = self.entries@;
        proof {
            assert(s1[at as int].0@ == key@ && s1[at as int].1@ == v);
            assert(forall|j: int| 0 <= j < s1.len() && j != at ==> s1[j] == s0[j]);
            assert(forall|j: int| 0 <= j < s0.len() && j != at ==> s0[j].0@ != key@);
            assert(keys_unique(s1));
            let target = map_of(s0).insert(key@, v);
            assert forall|k2: Seq<char>| #[trigger] map_of(s1).contains_key(k2) == target.contains_key(k2) by {
                if map_of(s1).contains_key(k2) && k2 != key@ {
                    let j = choose|j: int| 0 <= j < s1.len() && #[trigger] s1[j].0@ == k2;
                    assert(s0[j].0@ == k2);
                }
                if map_of(s0).contains_key(k2) && k2 != key@ {
                    let j = choose|j: int| 0 <= j < s0.len() && #[trigger] s0[j].0@ == k2;
                    assert(s1[j].0@ == k2);
                }
                if k2 == key@ {
                    assert(s1[at as int].0@ == k2);
                }
            }
            assert forall|k2: Seq<char>| #[trigger] map_of(s1).contains_key(k2) implies map_of(s1)[k2] == target[k2] by {
                let j = choose|j: int| 0 <= j < s1.len() && #[trigger] s1[j].0@ == k2;
                lemma_map_of_at(s1, j);
                if k2 != key@ {
                    lemma_map_of_at(s0, j);
                } else {
                    lemma_map_of_at(s1, at as int);
                }
            }
            assert(map_of(s1) =~= target);
        }
    }
}

} // verus!
