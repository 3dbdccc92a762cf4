use vstd::prelude::*;

verus! {

/// Compares two byte strings.
pub fn bytes_eq(a: &[u8], b: &[u8]) -> (r: bool)
    ensures
        r == (a@ == b@),
{
    if a.len() != b.len() {
        return false;
    }
    let mut i: usize = 0;
    while i < a.len()
        invariant
            a@.len() == b@.len(),
            i <= a@.len(),
            forall|j: int| 0 <= j < i ==> a@[j] == b@[j],
        decreases a@.len() - i,
    {
        if a[i] != b[i] {
            return false;
        }
        i = i + 1;
    }
    assert(a@ =~= b@);
    true
}

/// Copies a byte string.
pub fn copy_bytes(a: &[u8]) -> (r: Vec<u8>)
    ensures
        r@ == a@,
{
    let mut r: Vec<u8> = Vec::with_capacity(a.len());
    let mut i: usize = 0;
    while i < a.len()
        invariant
            i <= a@.len(),
            r@ =~= a@.subrange(0, i as int),
        decreases a@.len() - i,
    {
        r.push(a[i]);
        i = i + 1;
    }
    assert(r@ =~= a@);
    r
}

/// One partition of the key space: a mapping from keys to values, each key
/// held at most once.
pub struct Shard {
    entries: Vec<(Vec<u8>, Vec<u8>)>,
    contents: Ghost<Map<Seq<u8>, Seq<u8>>>,
}

impl View for Shard {
    type V = Map<Seq<u8>, Seq<u8>>;

    closed spec fn view(&self) -> Map<Seq<u8>, Seq<u8>> {
        self.contents@
    }
}

impl Shard {
    /// The entries hold each key once, and hold exactly the mapping of the view.
    pub closed spec fn wf(&self) -> bool {
        &&& forall|i: int, j: int|
            0 <= i < self.entries@.len() && 0 <= j < self.entries@.len() && i != j
                ==> (#[trigger] self.entries@[i]).0@ != (#[trigger] self.entries@[j]).0@
        &&& forall|i: int|
            0 <= i < self.entries@.len() ==> {
                &&& self.contents@.contains_key((#[trigger] self.entries@[i]).0@)
                &&& self.contents@[self.entries@[i].0@] == self.entries@[i].1@
            }
        &&& forall|k: Seq<u8>|
            #[trigger] self.contents@.contains_key(k) ==> exists|i: int|
                0 <= i < self.entries@.len() && (#[trigger] self.entries@[i]).0@ == k
    }

    /// An empty shard.
    pub fn new() -> (r: Shard)
        ensures
            r.wf(),
            r@ == Map::<Seq<u8>, Seq<u8>>::empty(),
    {
        Shard { entries: Vec::new(), contents: Ghost(Map::empty()) }
    }

    /// The position of `key` among the entries, if it is held.
    fn find(&self, key: &[u8]) -> (r: Option<usize>)
        requires
            self.wf(),
        ensures
            r.is_some() ==> r.unwrap() < self.entries@.len() && self.entries@[r.unwrap() as int].0@
                == key@,
            r.is_none() ==> !self@.contains_key(key@),
    {
        let mut i: usize = 0;
        while i < self.entries.len()
            invariant
                self.wf(),
                i <= self.entries@.len(),
                forall|j: int| 0 <= j < i ==> (#[trigger] self.entries@[j]).0@ != key@,
            decreases self.entries@.len() - i,
        {
            if bytes_eq(self.entries[i].0.as_slice(), key) {
                return Some(i);
            }
            i = i + 1;
        }
        None
    }

    /// The value held for `key`, as a copy.
    pub fn get(&self, key: &[u8]) -> (r: Option<Vec<u8>>)
        requires
            self.wf(),
        ensures
            r.is_some() == self@.contains_key(key@),
            r.is_some() ==> r.unwrap()@ == self@[key@],
    {
        match self.find(key) {
            Some(i) => Some(copy_bytes(self.entries[i].1.as_slice())),
            None => None,
        }
    }

    /// Holds `value` for `key`, in place of any value held before.
    pub fn set(&mut self, key: Vec<u8>, value: Vec<u8>)
        requires
            old(self).wf(),
        ensures
            final(self).wf(),
            final(self)@ == old(self)@.insert(key@, value@),
    {
        let ghost k = key@;
        let ghost v = value@;
        let ghost prev = self.entries@;
        match self.find(key.as_slice()) {
            Some(i) => {
                self.entries.set(i, (key, value));
                self.contents = Ghost(self.contents@.insert(k, v));
                assert forall|kk: Seq<u8>| #[trigger] self.contents@.contains_key(kk) implies exists|
                    j: int,
                | 0 <= j < self.entries@.len() && (#[trigger] self.entries@[j]).0@ == kk by {
                    if kk != k {
                        let j = choose|j: int| 0 <= j < prev.len() && (#[trigger] prev[j]).0@ == kk;
                        assert(self.entries@[j] == prev[j]);
                    } else {
                        assert(self.entries@[i as int].0@ == kk);
                    }
                }
            },
            None => {
                self.entries.push((key, value));
                self.contents = Ghost(self.contents@.insert(k, v));
                assert forall|kk: Seq<u8>| #[trigger] self.contents@.contains_key(kk) implies exists|
                    j: int,
                | 0 <= j < self.entries@.len() && (#[trigger] self.entries@[j]).0@ == kk by {
                    if kk != k {
                        let j = choose|j: int| 0 <= j < prev.len() && (#[trigger] prev[j]).0@ == kk;
                        assert(self.entries@[j] == prev[j]);
                    } else {
                        assert(self.entries@[prev.len() as int].0@ == kk);
                    }
                }
            },
        }
    }
}

} // verus!
