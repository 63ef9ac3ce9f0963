use std::sync::Arc;
use vstd::prelude::*;
use vstd::rwlock::{RwLock, RwLockPredicate};
use vstd::slice::slice_to_vec;

verus! {

/// `a` orders before `b` byte by byte, comparing from index `i` on; a proper
/// prefix orders first.
pub open spec fn lex_lt_from(a: Seq<u8>, b: Seq<u8>, i: int) -> bool
    decreases a.len() - i,
{
    if i < 0 || i >= a.len() {
        0 <= i < b.len()
    } else if i >= b.len() {
        false
    } else if a[i] != b[i] {
        a[i] < b[i]
    } else {
        lex_lt_from(a, b, i + 1)
    }
}

/// Lexicographic order on byte strings.
pub open spec fn lex_lt(a: Seq<u8>, b: Seq<u8>) -> bool {
    lex_lt_from(a, b, 0)
}

/// Whether `a` orders before `b`.
pub fn bytes_lt(a: &[u8], b: &[u8]) -> (r: bool)
    ensures
        r == lex_lt(a@, b@),
{
    let mut i: usize = 0;
    while i < a.len() && i < b.len() && a[i] == b[i]
        invariant
            i <= a@.len(),
            i <= b@.len(),
            lex_lt_from(a@, b@, 0) == lex_lt_from(a@, b@, i as int),
        decreases a.len() - i,
    {
        i = i + 1;
    }
    if i < a.len() && i < b.len() {
        a[i] < b[i]
    } else {
        i < b.len()
    }
}

/// Whether `a` and `b` hold the same bytes.
pub fn bytes_eq(a: &[u8], b: &[u8]) -> (r: bool)
    ensures
        r == (a@ == b@),
{
    if a.len() != b.len() {
        return false;
    }
    let mut i: usize = 0;
    while i < a.len()
        invariant
            a@.len() == b@.len(),
            i <= a@.len(),
            a@.subrange(0, i as int) == b@.subrange(0, i as int),
        decreases a.len() - i,
    {
        if a[i] != b[i] {
            assert(a@.subrange(0, i as int + 1)[i as int] != b@.subrange(0, i as int + 1)[i as int]);
            return false;
        }
        assert(a@.subrange(0, i as int + 1) =~= a@.subrange(0, i as int).push(a[i as int]));
        assert(b@.subrange(0, i as int + 1) =~= b@.subrange(0, i as int).push(b[i as int]));
        i = i + 1;
    }
    assert(a@ =~= a@.subrange(0, a@.len() as int));
    assert(b@ =~= b@.subrange(0, b@.len() as int));
    true
}

/// One end of a scan.
pub enum Bound {
    Included(Vec<u8>),
    Excluded(Vec<u8>),
    Unbounded,
}

/// The keys that a scan visits.
pub struct Range {
    pub start: Bound,
    pub end: Bound,
}

/// Key `k` lies within `range`.
pub open spec fn in_range(range: Range, k: Seq<u8>) -> bool {
    &&& match range.start {
        Bound::Included(s) => !lex_lt(k, s@),
        Bound::Excluded(s) => lex_lt(s@, k),
        Bound::Unbounded => true,
    }
    &&& match range.end {
        Bound::Included(e) => !lex_lt(e@, k),
        Bound::Excluded(e) => lex_lt(k, e@),
        Bound::Unbounded => true,
    }
}

impl Range {
    /// Whether `key` lies within this range.
    pub fn contains(&self, key: &[u8]) -> (r: bool)
        ensures
            r == in_range(*self, key@),
    {
        let above = match &self.start {
            Bound::Included(s) => !bytes_lt(key, s.as_slice()),
            Bound::Excluded(s) => bytes_lt(s.as_slice(), key),
            Bound::Unbounded => true,
        };
        let below = match &self.end {
            Bound::Included(e) => !bytes_lt(e.as_slice(), key),
            Bound::Excluded(e) => bytes_lt(key, e.as_slice()),
            Bound::Unbounded => true,
        };
        above && below
    }
}

/// An in-memory key-value backend: distinct keys, each with one value.
pub struct Memory {
    entries: Vec<(Vec<u8>, Vec<u8>)>,
    model: Ghost<Map<Seq<u8>, Seq<u8>>>,
}

impl View for Memory {
    type V = Map<Seq<u8>, Seq<u8>>;

    closed spec fn view(&self) -> Map<Seq<u8>, Seq<u8>> {
        self.model@
    }
}

impl Memory {
    /// The entries are a listing of the model: keys distinct, each entry in
    /// the model, each key of the model among the entries.
    pub closed spec fn wf(&self) -> bool {
        &&& forall|i: int, j: int|
            0 <= i < j < self.entries@.len() ==> self.entries@[i].0@ != self.entries@[j].0@
        &&& forall|i: int|
            0 <= i < self.entries@.len() ==> {
                &&& #[trigger] self.model@.contains_key(self.entries@[i].0@)
                &&& self.model@[self.entries@[i].0@] == self.entries@[i].1@
            }
        &&& forall|k: Seq<u8>|
            #[trigger] self.model@.contains_key(k) ==> exists|i: int|
                0 <= i < self.entries@.len() && self.entries@[i].0@ == k
    }

    /// An empty store.
    pub fn new() -> (r: Memory)
        ensures
            r.wf(),
            r@ == Map::<Seq<u8>, Seq<u8>>::empty(),
    {
        Memory { entries: Vec::new(), model: Ghost(Map::empty()) }
    }

    /// The index of the entry for `key`, if there is one.
    fn find(&self, key: &[u8]) -> (r: Option<usize>)
        requires
            self.wf(),
        ensures
            r matches Some(i) ==> i < self.entries@.len() && self.entries@[i as int].0@ == key@,
            r is None ==> !self@.contains_key(key@),
    {
        let mut i: usize = 0;
        while i < self.entries.len()
            invariant
                i <= self.entries@.len(),
                forall|j: int| 0 <= j < i ==> self.entries@[j].0@ != key@,
            decreases self.entries.len() - i,
        {
            if bytes_eq(self.entries[i].0.as_slice(), key) {
                return Some(i);
            }
            i = i + 1;
        }
        None
    }

    /// The value stored under `key`.
    pub fn get(&self, key: &[u8]) -> (r: Option<Vec<u8>>)
        requires
            self.wf(),
        ensures
            r is Some <==> self@.contains_key(key@),
            r matches Some(v) ==> v@ == self@[key@],
    {
        match self.find(key) {
            Some(i) => {
                assert(self.model@.contains_key(self.entries@[i as int].0@));
                Some(slice_to_vec(self.entries[i].1.as_slice()))
            },
            None => None,
        }
    }

    /// Stores `value` under `key`, replacing any value there.
    pub fn set(&mut self, key: &[u8], value: Vec<u8>)
        requires
            old(self).wf(),
        ensures
            final(self).wf(),
            final(self)@ == old(self)@.insert(key@, value@),
    {
        let ghost m = old(self).model@.insert(key@, value@);
        let ghost e = old(self).entries@;
        let k = slice_to_vec(key);
        match self.find(key) {
            Some(i) => {
                self.entries.set(i, (k, value));
                proof {
                    assert forall|j: int| 0 <= j < e.len() && j != i implies e[j].0@ != key@ by {
                        if j < i {
                            assert(e[j].0@ != e[i as int].0@);
                        } else {
                            assert(e[i as int].0@ != e[j].0@);
                        }
                    }
                    assert forall|a: int, b: int| 0 <= a < b < self.entries@.len() implies
                        self.entries@[a].0@ != self.entries@[b].0@ by {
                        if a != i && b != i {
                            assert(e[a].0@ != e[b].0@);
                        }
                    }
                    assert forall|j: int| 0 <= j < self.entries@.len() implies
                        #[trigger] m.contains_key(self.entries@[j].0@)
                            && m[self.entries@[j].0@] == self.entries@[j].1@ by {
                        if j != i {
                            assert(old(self).model@.contains_key(e[j].0@));
                        }
                    }
                    assert forall|q: Seq<u8>| #[trigger] m.contains_key(q) implies exists|j: int|
                        0 <= j < self.entries@.len() && self.entries@[j].0@ == q by {
                        if q != key@ {
                            let j = choose|j: int| 0 <= j < e.len() && e[j].0@ == q;
                            assert(self.entries@[j].0@ == q);
                        } else {
                            assert(self.entries@[i as int].0@ == q);
                        }
                    }
                }
            },
            None => {
                self.entries.push((k, value));
                proof {
                    let n = e.len() as int;
                    assert forall|j: int| 0 <= j < e.len() implies e[j].0@ != key@ by {
                        assert(old(self).model@.contains_key(e[j].0@));
                    }
                    assert forall|a: int, b: int| 0 <= a < b < self.entries@.len() implies
                        self.entries@[a].0@ != self.entries@[b].0@ by {
                        if b != n {
                            assert(e[a].0@ != e[b].0@);
                        }
                    }
                    assert forall|j: int| 0 <= j < self.entries@.len() implies
                        #[trigger] m.contains_key(self.entries@[j].0@)
                            && m[self.entries@[j].0@] == self.entries@[j].1@ by {
                        if j != n {
                            assert(old(self).model@.contains_key(e[j].0@));
                        }
                    }
                    assert forall|q: Seq<u8>| #[trigger] m.contains_key(q) implies exists|j: int|
                        0 <= j < self.entries@.len() && self.entries@[j].0@ == q by {
                        if q != key@ {
                            let j = choose|j: int| 0 <= j < e.len() && e[j].0@ == q;
                            assert(self.entries@[j].0@ == q);
                        } else {
                            assert(self.entries@[n].0@ == q);
                        }
                    }
                }
            },
        }
        self.model = Ghost(m);
        assert(self.wf());
    }

    /// Removes the entry for `key`, if there is one.
    pub fn delete(&mut self, key: &[u8])
        requires
            old(self).wf(),
        ensures
            final(self).wf(),
            final(self)@ == old(self)@.remove(key@),
    {
        let ghost m = self.model@.remove(key@);
        match self.find(key) {
            Some(i) => {
                let ghost e = self.entries@;
                self.entries.swap_remove(i);
                self.model = Ghost(m);
                assert forall|k: Seq<u8>| #[trigger] m.contains_key(k) implies exists|j: int|
                    0 <= j < self.entries@.len() && self.entries@[j].0@ == k by {
                    let j = choose|j: int| 0 <= j < e.len() && e[j].0@ == k;
                    if j == e.len() - 1 {
                        assert(self.entries@[i as int].0@ == k);
                    } else {
                        assert(self.entries@[j].0@ == k);
                    }
                }
                assert forall|a: int, b: int| 0 <= a < b < self.entries@.len() implies
                    self.entries@[a].0@ != self.entries@[b].0@ by {
                    let last = e.len() - 1;
                    let ea = if a == i { last } else { a };
                    let eb = if b == i { last } else { b };
                    assert(ea != eb);
                    if ea < eb {
                        assert(e[ea].0@ != e[eb].0@);
                    } else {
                        assert(e[eb].0@ != e[ea].0@);
                    }
                }
            },
            None => {
                assert(m =~= self.model@);
                self.model = Ghost(m);
            },
        }
    }

    /// Copies of the entries whose keys lie in `range`, each key once.
    pub fn scan(&self, range: &Range) -> (r: Vec<(Vec<u8>, Vec<u8>)>)
        requires
            self.wf(),
        ensures
            forall|j: int| #![trigger r@[j]] 0 <= j < r@.len() ==> in_range(*range, r@[j].0@)
                && self@.contains_key(r@[j].0@) && self@[r@[j].0@] == r@[j].1@,
            forall|k: Seq<u8>| #[trigger] self@.contains_key(k) && in_range(*range, k) ==>
                exists|j: int| 0 <= j < r@.len() && r@[j].0@ == k,
            forall|a: int, b: int| 0 <= a < b < r@.len() ==> r@[a].0@ != r@[b].0@,
    {
        let ghost e = self.entries@;
        let ghost mut idx: Seq<int> = Seq::empty();
        let mut r: Vec<(Vec<u8>, Vec<u8>)> = Vec::new();
        let mut i: usize = 0;
        while i < self.entries.len()
            invariant
                self.wf(),
                e == self.entries@,
                i <= e.len(),
                r@.len() == idx.len(),
                forall|j: int| 0 <= j < idx.len() ==> {
                    &&& 0 <= #[trigger] idx[j] < i
                    &&& r@[j].0@ == e[idx[j]].0@
                    &&& r@[j].1@ == e[idx[j]].1@
                    &&& in_range(*range, r@[j].0@)
                },
                forall|a: int, b: int| 0 <= a < b < idx.len() ==> idx[a] < idx[b],
                forall|t: int| 0 <= t < i && in_range(*range, #[trigger] e[t].0@) ==>
                    exists|j: int| 0 <= j < idx.len() && idx[j] == t,
            decreases e.len() - i,
        {
            if range.contains(self.entries[i].0.as_slice()) {
                let k = slice_to_vec(self.entries[i].0.as_slice());
                let v = slice_to_vec(self.entries[i].1.as_slice());
                r.push((k, v));
                proof {
                    let prev = idx;
                    idx = idx.push(i as int);
                    assert(idx[idx.len() - 1] == i);
                    assert forall|t: int| 0 <= t < i + 1 && in_range(*range, #[trigger] e[t].0@) implies
                        exists|j: int| 0 <= j < idx.len() && idx[j] == t by {
                        if t < i {
                            let j = choose|j: int| 0 <= j < prev.len() && prev[j] == t;
                            assert(idx[j] == t);
                        } else {
                            assert(idx[idx.len() - 1] == t);
                        }
                    }
                }
            }
            i = i + 1;
        }
        proof {
            assert forall|j: int| #![trigger r@[j]] 0 <= j < r@.len() implies in_range(*range, r@[j].0@)
                && self@.contains_key(r@[j].0@) && self@[r@[j].0@] == r@[j].1@ by {
                assert(self.model@.contains_key(e[idx[j]].0@));
            }
            assert forall|k: Seq<u8>| #[trigger] self@.contains_key(k) && in_range(*range, k) implies
                exists|j: int| 0 <= j < r@.len() && r@[j].0@ == k by {
                let t = choose|t: int| 0 <= t < e.len() && e[t].0@ == k;
                let j = choose|j: int| 0 <= j < idx.len() && idx[j] == t;
                assert(r@[j].0@ == k);
            }
            assert forall|a: int, b: int| 0 <= a < b < r@.len() implies r@[a].0@ != r@[b].0@ by {
                assert(idx[a] < idx[b]);
                assert(e[idx[a]].0@ != e[idx[b]].0@);
            }
        }
        r
    }
}

/// What the lock holds at every moment: a well-formed store.
pub struct WellFormed;

impl RwLockPredicate<Memory> for WellFormed {
    open spec fn inv(self, v: Memory) -> bool {
        v.wf()
    }
}

/// A store that several owners share: each clone is a handle on the same
/// `Memory` behind one reader-writer lock, so a change made through one clone
/// is seen through all of them.
///
/// Other handles may change the store between two calls, so each method
/// promises only what holds whatever they did.
#[derive(Clone)]
pub struct Test {
    kv: Arc<RwLock<Memory, WellFormed>>,
}

impl Test {
    /// A new, empty shared store.
    pub fn new() -> (r: Test) {
        Test { kv: Arc::new(RwLock::new(Memory::new(), Ghost(WellFormed))) }
    }

    /// The name of this backend.
    pub fn to_string(&self) -> (r: String)
        ensures
            r@ == "test"@,
    {
        proof {
            reveal_strlit("test");
        }
        String::from_str("test")
    }

    /// Removes the entry for `key` under the write lock.
    pub fn delete(&mut self, key: &[u8]) {
        let (mut m, handle) = self.kv.acquire_write();
        m.delete(key);
        handle.release_write(m);
    }

    /// Nothing to write out: the store lives in memory.
    pub fn flush(&mut self) {
    }

    /// The value stored under `key`, read under the read lock.
    pub fn get(&self, key: &[u8]) -> (r: Option<Vec<u8>>) {
        let handle = self.kv.acquire_read();
        let r = handle.borrow().get(key);
        handle.release_read();
        r
    }

    /// The entries whose keys lie in `range`, copied out under the read lock.
    /// The lock is released before they are returned, so the caller may write
    /// to the store while going through them, and later writes leave them as
    /// they are.
    pub fn scan(&self, range: &Range) -> (r: Vec<(Vec<u8>, Vec<u8>)>)
        ensures
            forall|j: int| 0 <= j < r@.len() ==> in_range(*range, #[trigger] r@[j].0@),
            forall|a: int, b: int| 0 <= a < b < r@.len() ==> r@[a].0@ != r@[b].0@,
    {
        let handle = self.kv.acquire_read();
        let r = handle.borrow().scan(range);
        handle.release_read();
        r
    }

    /// Stores `value` under `key` under the write lock.
    pub fn set(&mut self, key: &[u8], value: Vec<u8>) {
        let (mut m, handle) = self.kv.acquire_write();
        m.set(key, value);
        handle.release_write(m);
    }
}

} // verus!
