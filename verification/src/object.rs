//! The insertion-order-preserving object container. Its view is the sequence
//! of (key, node) entries in insertion order; the well-formedness predicate
//! says the keys are unique. Point lookups scan that sequence, so the
//! contracts speak of the first index holding the key. Verus does not let a
//! function return a mutable reference, so the two mutable accessors are
//! exposed as value replacements that hand the previous value back.
use vstd::prelude::*;

use crate::value::{JObject, Json};

verus! {

/// The first index of `s` whose key is `k`, or -1 when no entry has it.
pub open spec fn find_key<V>(s: Seq<(Seq<u8>, V)>, k: Seq<u8>) -> int
    decreases s.len(),
{
    if s.len() == 0 {
        -1
    } else if s[0].0 == k {
        0
    } else {
        let r = find_key(s.drop_first(), k);
        if r < 0 {
            -1
        } else {
            r + 1
        }
    }
}

/// What `find_key` means: a negative result is absence, a non-negative result
/// is the first position of the key.
pub proof fn lemma_find_key<V>(s: Seq<(Seq<u8>, V)>, k: Seq<u8>)
    ensures
        find_key(s, k) < 0 ==> forall|j: int| 0 <= j < s.len() ==> (#[trigger] s[j]).0 != k,
        find_key(s, k) >= 0 ==> {
            &&& find_key(s, k) < s.len()
            &&& s[find_key(s, k)].0 == k
            &&& forall|j: int| 0 <= j < find_key(s, k) ==> (#[trigger] s[j]).0 != k
        },
    decreases s.len(),
{
    if s.len() > 0 && s[0].0 != k {
        lemma_find_key(s.drop_first(), k);
        let r = find_key(s.drop_first(), k);
        if r < 0 {
            assert forall|j: int| 0 <= j < s.len() implies (#[trigger] s[j]).0 != k by {
                if j > 0 {
                    assert(s.drop_first()[j - 1] == s[j]);
                }
            }
        } else {
            assert(s.drop_first()[r] == s[r + 1]);
            assert forall|j: int| 0 <= j < find_key(s, k) implies (#[trigger] s[j]).0 != k by {
                if j > 0 {
                    assert(s.drop_first()[j - 1] == s[j]);
                }
            }
        }
    }
}

/// The mathematical shape of an entry sequence: each node mapped to its view.
pub open spec fn pairs_view(s: Seq<(Seq<u8>, Json)>) -> Seq<(Seq<u8>, crate::value::SpecDoc)> {
    Seq::new(s.len(), |i: int| (s[i].0, crate::value::doc_view(s[i].1)))
}

/// Mapping the nodes to their views moves keys unchanged, so lookup agrees.
pub proof fn lemma_pairs_view_find(s: Seq<(Seq<u8>, Json)>, k: Seq<u8>)
    ensures
        find_key(pairs_view(s), k) == find_key(s, k),
    decreases s.len(),
{
    if s.len() > 0 {
        assert(pairs_view(s)[0].0 == s[0].0);
        assert(pairs_view(s).drop_first() =~= pairs_view(s.drop_first()));
        lemma_pairs_view_find(s.drop_first(), k);
    }
}

/// The two routes from an object to its mathematical entries agree: through
/// the raw entry list, and through the container's view.
pub proof fn lemma_obj_views(o: JObject)
    ensures
        crate::value::entries_view(o.entries@) == pairs_view(o@),
{
    crate::value::lemma_entries_view(o.entries@);
    assert(crate::value::entries_view(o.entries@) =~= pairs_view(o@));
}

/// Byte-string equality.
pub fn bytes_eq(a: &Vec<u8>, b: &Vec<u8>) -> (r: bool)
    ensures
        r == (a@ == b@),
{
    if a.len() != b.len() {
        return false;
    }
    let mut i: usize = 0;
    while i < a.len()
        invariant
            0 <= i <= a.len(),
            a.len() == b.len(),
            forall|j: int| 0 <= j < i ==> a@[j] == b@[j],
        decreases a.len() - i,
    {
        if a[i] != b[i] {
            return false;
        }
        i += 1;
    }
    proof {
        assert(a@ =~= b@);
    }
    true
}

impl View for JObject {
    type V = Seq<(Seq<u8>, Json)>;

    open spec fn view(&self) -> Seq<(Seq<u8>, Json)> {
        Seq::new(self.entries@.len(), |i: int| (self.entries@[i].0@, self.entries@[i].1))
    }
}

impl JObject {
    /// Keys are unique: no two entries share one.
    pub open spec fn wf(&self) -> bool {
        forall|i: int, j: int|
            0 <= i < j < self@.len() ==> (#[trigger] self@[i]).0 != (#[trigger] self@[j]).0
    }

    /// A fresh, empty object.
    pub fn new() -> (r: JObject)
        ensures
            r@ == Seq::<(Seq<u8>, Json)>::empty(),
            r.wf(),
    {
        let r = JObject { entries: Vec::new() };
        proof {
            assert(r@ =~= Seq::<(Seq<u8>, Json)>::empty());
        }
        r
    }

    /// Clears all entries from the object.
    pub fn clear(&mut self)
        ensures
            final(self)@ == Seq::<(Seq<u8>, Json)>::empty(),
            final(self).wf(),
    {
        self.entries.clear();
        proof {
            assert(self@ =~= Seq::<(Seq<u8>, Json)>::empty());
        }
    }

    /// The number of entries in the object.
    pub fn len(&self) -> (r: usize)
        ensures
            r == self@.len(),
    {
        self.entries.len()
    }

    /// Whether the object contains no entries.
    pub fn is_empty(&self) -> (r: bool)
        ensures
            r == (self@.len() == 0),
    {
        self.entries.is_empty()
    }

    /// All key-value pairs in insertion order, for in-order traversal.
    pub fn iter(&self) -> (r: &Vec<(Vec<u8>, Json)>)
        ensures
            r@.len() == self@.len(),
            forall|i: int| 0 <= i < r@.len() ==> ((#[trigger] r@[i]).0@, r@[i].1) == self@[i],
    {
        &self.entries
    }

    /// The positional slot holding `key`, or `None` when the key is absent.
    pub fn index_of(&self, key: &Vec<u8>) -> (r: Option<usize>)
        ensures
            match r {
                Some(i) => i == find_key(self@, key@),
                None => find_key(self@, key@) < 0,
            },
    {
        proof {
            lemma_find_key(self@, key@);
        }
        let mut i: usize = 0;
        while i < self.entries.len()
            invariant
                0 <= i <= self@.len(),
                self@.len() == self.entries@.len(),
                forall|j: int| 0 <= j < i ==> (#[trigger] self@[j]).0 != key@,
                find_key(self@, key@) >= 0 ==> {
                    &&& find_key(self@, key@) < self@.len()
                    &&& self@[find_key(self@, key@)].0 == key@
                },
                find_key(self@, key@) < 0 ==> forall|j: int|
                    0 <= j < self@.len() ==> (#[trigger] self@[j]).0 != key@,
            decreases self.entries@.len() - i,
        {
            if bytes_eq(&self.entries[i].0, key) {
                proof {
                    lemma_find_key(self@, key@);
                    assert(self@[i as int].0 == key@);
                }
                return Some(i);
            }
            i += 1;
        }
        None
    }

    /// The value stored under `key`, or `None` when the key is absent.
    pub fn get(&self, key: &Vec<u8>) -> (r: Option<&Json>)
        ensures
            match r {
                Some(v) => find_key(self@, key@) >= 0 && *v == self@[find_key(self@, key@)].1,
                None => find_key(self@, key@) < 0,
            },
    {
        proof {
            lemma_find_key(self@, key@);
        }
        match self.index_of(key) {
            Some(i) => Some(&self.entries[i].1),
            None => None,
        }
    }

    /// The key-value pair at positional `index`, or `None` past the end.
    pub fn get_index(&self, index: usize) -> (r: Option<&(Vec<u8>, Json)>)
        ensures
            match r {
                Some(p) => index < self@.len() && (p.0@, p.1) == self@[index as int],
                None => index >= self@.len(),
            },
    {
        if index < self.entries.len() {
            Some(&self.entries[index])
        } else {
            None
        }
    }

    /// Replaces the value of the pair at positional `index` (the key stays),
    /// returning the previous value; `None` past the end. This is the mutable
    /// positional access of the container, exposed as a replacement.
    pub fn get_index_mut(&mut self, index: usize, value: Json) -> (r: Option<Json>)
        ensures
            index < old(self)@.len() ==> {
                &&& r == Some(old(self)@[index as int].1)
                &&& final(self)@ == old(self)@.update(index as int, (old(self)@[index as int].0, value))
            },
            index >= old(self)@.len() ==> r == None::<Json> && final(self)@ == old(self)@,
            old(self).wf() ==> final(self).wf(),
    {
        if index < self.entries.len() {
            let mut tmp = value;
            core::mem::swap(&mut self.entries[index].1, &mut tmp);
            proof {
                assert(self@ =~= old(self)@.update(
                    index as int,
                    (old(self)@[index as int].0, value),
                ));
                if old(self).wf() {
                    assert forall|a: int, b: int| 0 <= a < b < self@.len() implies (
                    #[trigger] self@[a]).0 != (#[trigger] self@[b]).0 by {
                        assert(self@[a].0 == old(self)@[a].0);
                        assert(self@[b].0 == old(self)@[b].0);
                    }
                }
            }
            Some(tmp)
        } else {
            None
        }
    }

    /// Replaces the value stored under `key`, returning the previous value;
    /// `None` (and no change) when the key is absent. This is the mutable
    /// point access of the container, exposed as a replacement.
    pub fn get_mut(&mut self, key: &Vec<u8>, value: Json) -> (r: Option<Json>)
        ensures
            find_key(old(self)@, key@) >= 0 ==> {
                &&& r == Some(old(self)@[find_key(old(self)@, key@)].1)
                &&& final(self)@ == old(self)@.update(
                    find_key(old(self)@, key@),
                    (old(self)@[find_key(old(self)@, key@)].0, value),
                )
            },
            find_key(old(self)@, key@) < 0 ==> r == None::<Json> && final(self)@ == old(self)@,
            old(self).wf() ==> final(self).wf(),
    {
        proof {
            lemma_find_key(self@, key@);
        }
        match self.index_of(key) {
            Some(i) => self.get_index_mut(i, value),
            None => None,
        }
    }

    /// Inserts a key-value pair. If the key already exists, replaces the value
    /// in place (the entry keeps its position and its original key buffer) and
    /// returns the old value; otherwise appends a new entry and returns `None`.
    pub fn insert(&mut self, key: Vec<u8>, value: Json) -> (r: Option<Json>)
        ensures
            find_key(old(self)@, key@) >= 0 ==> {
                &&& r == Some(old(self)@[find_key(old(self)@, key@)].1)
                &&& final(self)@ == old(self)@.update(
                    find_key(old(self)@, key@),
                    (old(self)@[find_key(old(self)@, key@)].0, value),
                )
            },
            find_key(old(self)@, key@) < 0 ==> r == None::<Json> && final(self)@ == old(self)@.push(
                (key@, value),
            ),
            old(self).wf() ==> final(self).wf(),
    {
        proof {
            lemma_find_key(self@, key@);
        }
        match self.index_of(&key) {
            Some(i) => self.get_index_mut(i, value),
            None => {
                let ghost prev = self@;
                proof {
                    lemma_find_key(prev, key@);
                }
                self.entries.push((key, value));
                proof {
                    assert(self@ =~= prev.push((key@, value)));
                    if old(self).wf() {
                        assert forall|a: int, b: int| 0 <= a < b < self@.len() implies (
                        #[trigger] self@[a]).0 != (#[trigger] self@[b]).0 by {
                            if b == self@.len() - 1 {
                                assert(prev[a].0 != key@);
                            }
                        }
                    }
                }
                None
            },
        }
    }

    /// Removes the entry stored under `key` and returns its value, `None`
    /// (and no change) when the key is absent. Entries after it shift down
    /// one slot, keeping positional access consistent with insertion order.
    pub fn remove(&mut self, key: &Vec<u8>) -> (r: Option<Json>)
        ensures
            find_key(old(self)@, key@) >= 0 ==> {
                &&& r == Some(old(self)@[find_key(old(self)@, key@)].1)
                &&& final(self)@ == old(self)@.remove(find_key(old(self)@, key@))
            },
            find_key(old(self)@, key@) < 0 ==> r == None::<Json> && final(self)@ == old(self)@,
            old(self).wf() ==> final(self).wf(),
    {
        proof {
            lemma_find_key(self@, key@);
        }
        match self.index_of(key) {
            Some(i) => {
                let pair = self.entries.remove(i);
                proof {
                    assert(self@ =~= old(self)@.remove(i as int));
                    if old(self).wf() {
                        assert forall|a: int, b: int| 0 <= a < b < self@.len() implies (
                        #[trigger] self@[a]).0 != (#[trigger] self@[b]).0 by {
                            let oa = if a < i as int {
                                a
                            } else {
                                a + 1
                            };
                            let ob = if b < i as int {
                                b
                            } else {
                                b + 1
                            };
                            assert(self@[a] == old(self)@[oa]);
                            assert(self@[b] == old(self)@[ob]);
                        }
                    }
                }
                Some(pair.1)
            },
            None => None,
        }
    }
}

} // verus!
