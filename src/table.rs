//! A keyed table: the persistent key-value store that the ledger is built on,
//! with text keys and whole-value replacement.

use vstd::prelude::*;

verus! {

/// A table from text keys to values; each key is stored at most once.
pub struct Table<V> {
    keys: Vec<String>,
    vals: Vec<V>,
    contents: Ghost<Map<Seq<char>, V>>,
}

impl<V> Table<V> {
    /// What the table holds, keyed by the characters of each key.
    pub closed spec fn view(&self) -> Map<Seq<char>, V> {
        self.contents@
    }

    pub closed spec fn wf(&self) -> bool {
        &&& self.keys@.len() == self.vals@.len()
        &&& forall|i: int, j: int|
            0 <= i < self.keys@.len() && 0 <= j < self.keys@.len() && #[trigger] self.keys@[i]@
                == #[trigger] self.keys@[j]@ ==> i == j
        &&& forall|i: int|
            0 <= i < self.keys@.len() ==> self.contents@.contains_key(#[trigger] self.keys@[i]@)
                && self.contents@[self.keys@[i]@] == self.vals@[i]
        &&& forall|k: Seq<char>|
            #[trigger] self.contents@.contains_key(k) ==> exists|i: int|
                0 <= i < self.keys@.len() && #[trigger] self.keys@[i]@ == k
    }

    pub fn new() -> (r: Self)
        ensures
            r.wf(),
            r@ == Map::<Seq<char>, V>::empty(),
    {
        Table { keys: Vec::new(), vals: Vec::new(), contents: Ghost(Map::empty()) }
    }

    /// The position at which `key` is stored, if it is stored.
    fn position(&self, key: &String) -> (r: Option<usize>)
        requires
            self.wf(),
        ensures
            match r {
                Some(i) => i < self.keys@.len() && self.keys@[i as int]@ == key@,
                None => !self@.contains_key(key@),
            },
    {
        let mut i: usize = 0;
        while i < self.keys.len()
            invariant
                self.wf(),
                i <= self.keys@.len(),
                forall|j: int| 0 <= j < i ==> self.keys@[j]@ != key@,
            decreases self.keys@.len() - i,
        {
            if self.keys[i] == *key {
                return Some(i);
            }
            i = i + 1;
        }
        None
    }

    pub fn has(&self, key: &String) -> (r: bool)
        requires
            self.wf(),
        ensures
            r == self@.contains_key(key@),
    {
        self.position(key).is_some()
    }

    pub fn get(&self, key: &String) -> (r: Option<&V>)
        requires
            self.wf(),
        ensures
            match r {
                Some(v) => self@.contains_key(key@) && *v == self@[key@],
                None => !self@.contains_key(key@),
            },
    {
        match self.position(key) {
            Some(i) => Some(&self.vals[i]),
            None => None,
        }
    }

    /// Stores `val` under `key`, replacing what was there.
    pub fn set(&mut self, key: String, val: V)
        requires
            old(self).wf(),
        ensures
            final(self).wf(),
            final(self)@ == old(self)@.insert(key@, val),
    {
        let ghost k = key@;
        let ghost v = val;
        let ghost mut at: int = 0;
        match self.position(&key) {
            Some(i) => {
                self.vals.set(i, val);
                proof {
                    at = i as int;
                }
            },
            None => {
                proof {
                    at = self.keys@.len() as int;
                }
                self.keys.push(key);
                self.vals.push(val);
            },
        }
        self.contents = Ghost(self.contents@.insert(k, v));
        assert forall|k2: Seq<char>| #[trigger] self.contents@.contains_key(k2) implies exists|
            i: int,
        |
            0 <= i < self.keys@.len() && #[trigger] self.keys@[i]@ == k2 by {
            if k2 != k {
                let i = choose|i: int| 0 <= i < old(self).keys@.len() && old(self).keys@[i]@ == k2;
                assert(self.keys@[i]@ == k2);
            } else {
                assert(self.keys@[at]@ == k2);
            }
        }
    }

    /// Removes and returns what is stored under `key`.
    pub fn take(&mut self, key: &String) -> (r: Option<V>)
        requires
            old(self).wf(),
        ensures
            final(self).wf(),
            final(self)@ == old(self)@.remove(key@),
            match r {
                Some(v) => old(self)@.contains_key(key@) && v == old(self)@[key@],
                None => !old(self)@.contains_key(key@),
            },
    {
        match self.position(key) {
            Some(i) => {
                let ghost k = key@;
                let ghost ok = self.keys@;
                let _ = self.keys.swap_remove(i);
                let v = self.vals.swap_remove(i);
                self.contents = Ghost(self.contents@.remove(k));
                assert forall|k2: Seq<char>| #[trigger] self.contents@.contains_key(k2) implies exists|
                    j: int,
                |
                    0 <= j < self.keys@.len() && #[trigger] self.keys@[j]@ == k2 by {
                    let j = choose|j: int| 0 <= j < ok.len() && ok[j]@ == k2;
                    if j == ok.len() - 1 {
                        assert(self.keys@[i as int]@ == k2);
                    } else {
                        assert(self.keys@[j]@ == k2);
                    }
                }
                Some(v)
            },
            None => {
                assert(self@.remove(key@) =~= self@);
                None
            },
        }
    }
}

} // verus!
