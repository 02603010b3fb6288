//! The field map: an ordered mapping from text keys to text values.
//!
//! The entries are kept sorted by byte-wise comparison of the keys' UTF-8
//! bytes, with no duplicate keys, so that serializing the entries in order
//! always produces byte-identical output for logically identical maps. The
//! map represents the full contents of one state entry at one address.

use vstd::prelude::*;
use vstd::string::StringSliceAdditionalSpecFns;
use vstd::utf8::encode_utf8;
use crate::codec::{encode_text_map, map_bytes, pairs_view};
use crate::order::{bytes_lt, str_cmp, KeyOrder};

verus! {

/// The byte sequence that orders a key: its UTF-8 encoding.
pub open spec fn key_bytes(k: Seq<char>) -> Seq<u8> {
    encode_utf8(k)
}

/// A sequence of entries is strictly sorted by the byte-wise order of its
/// keys (and therefore holds no duplicate keys).
pub open spec fn entries_sorted(s: Seq<(Seq<char>, Seq<char>)>) -> bool {
    forall|i: int|
        0 <= i && i + 1 < s.len() ==> bytes_lt(
            key_bytes(#[trigger] s[i].0),
            key_bytes(s[i + 1].0),
        )
}

/// Insertion into a key-sorted sequence of entries: overwrite the entry
/// whose key equals `k`, or place a new entry at the position the key order
/// assigns it.
pub open spec fn sorted_insert(
    s: Seq<(Seq<char>, Seq<char>)>,
    k: Seq<char>,
    v: Seq<char>,
) -> Seq<(Seq<char>, Seq<char>)>
    decreases s.len(),
{
    if s.len() == 0 {
        seq![(k, v)]
    } else if s[0].0 == k {
        seq![(k, v)] + s.drop_first()
    } else if bytes_lt(key_bytes(k), key_bytes(s[0].0)) {
        seq![(k, v)] + s
    } else {
        seq![s[0]] + sorted_insert(s.drop_first(), k, v)
    }
}

proof fn lemma_sorted_update(s: Seq<(Seq<char>, Seq<char>)>, i: int, k: Seq<char>, v: Seq<char>)
    requires
        entries_sorted(s),
        0 <= i < s.len(),
        key_bytes(k) == key_bytes(s[i].0),
    ensures
        entries_sorted(s.update(i, (k, v))),
{
    let t = s.update(i, (k, v));
    assert forall|j: int| 0 <= j && j + 1 < t.len() implies bytes_lt(
        key_bytes(#[trigger] t[j].0),
        key_bytes(t[j + 1].0),
    ) by {
        assert(bytes_lt(key_bytes(s[j].0), key_bytes(s[j + 1].0)));
        if j == i {
            assert(t[j].0 == k);
        } else {
            assert(t[j] == s[j]);
        }
        if j + 1 == i {
            assert(t[j + 1].0 == k);
        } else {
            assert(t[j + 1] == s[j + 1]);
        }
    }
}

proof fn lemma_sorted_insert_at(s: Seq<(Seq<char>, Seq<char>)>, i: int, k: Seq<char>, v: Seq<char>)
    requires
        entries_sorted(s),
        0 <= i <= s.len(),
        forall|j: int| 0 <= j < i ==> bytes_lt(key_bytes(#[trigger] s[j].0), key_bytes(k)),
        i < s.len() ==> bytes_lt(key_bytes(k), key_bytes(s[i].0)),
    ensures
        entries_sorted(s.take(i) + seq![(k, v)] + s.skip(i)),
{
    let t = s.take(i) + seq![(k, v)] + s.skip(i);
    assert(t.len() == s.len() + 1);
    assert forall|j: int| 0 <= j && j + 1 < t.len() implies bytes_lt(
        key_bytes(#[trigger] t[j].0),
        key_bytes(t[j + 1].0),
    ) by {
        let a = s.take(i) + seq![(k, v)];
        assert(a.len() == i + 1);
        if j + 1 < i {
            assert(t[j] == a[j] && a[j] == s.take(i)[j] && s.take(i)[j] == s[j]);
            assert(t[j + 1] == a[j + 1] && a[j + 1] == s.take(i)[j + 1] && s.take(i)[j + 1] == s[j
                + 1]);
            assert(bytes_lt(key_bytes(s[j].0), key_bytes(s[j + 1].0)));
        } else if j + 1 == i {
            assert(t[j] == a[j] && a[j] == s.take(i)[j] && s.take(i)[j] == s[j]);
            assert(t[j + 1] == a[j + 1] && a[j + 1] == (k, v));
        } else if j == i {
            assert(t[j] == a[j] && a[j] == (k, v));
            assert(t[j + 1] == s.skip(i)[j + 1 - (i + 1)] && s.skip(i)[j + 1 - (i + 1)] == s[j]);
        } else {
            assert(t[j] == s.skip(i)[j - (i + 1)] && s.skip(i)[j - (i + 1)] == s[j - 1]);
            assert(t[j + 1] == s.skip(i)[j + 1 - (i + 1)] && s.skip(i)[j + 1 - (i + 1)] == s[j]);
            assert(bytes_lt(key_bytes(s[j - 1].0), key_bytes(s[j].0)));
        }
    }
}

proof fn lemma_step_hit(pv: Seq<(Seq<char>, Seq<char>)>, i: int, k: Seq<char>, v: Seq<char>)
    requires
        0 <= i < pv.len(),
        pv[i].0 == k,
    ensures
        pv.take(i) + sorted_insert(pv.skip(i), k, v) == pv.update(i, (k, v)),
{
    let s = pv.skip(i);
    assert(s[0] == pv[i]);
    assert(sorted_insert(s, k, v) == seq![(k, v)] + s.drop_first());
    assert(s.drop_first() =~= pv.skip(i + 1));
    assert(pv.take(i) + (seq![(k, v)] + pv.skip(i + 1)) =~= pv.update(i, (k, v)));
}

proof fn lemma_step_less(pv: Seq<(Seq<char>, Seq<char>)>, i: int, k: Seq<char>, v: Seq<char>)
    requires
        0 <= i < pv.len(),
        pv[i].0 != k,
        bytes_lt(key_bytes(k), key_bytes(pv[i].0)),
    ensures
        pv.take(i) + sorted_insert(pv.skip(i), k, v) == pv.take(i) + seq![(k, v)] + pv.skip(i),
{
    let s = pv.skip(i);
    assert(s[0] == pv[i]);
    assert(sorted_insert(s, k, v) == seq![(k, v)] + s);
    assert(pv.take(i) + (seq![(k, v)] + pv.skip(i)) =~= pv.take(i) + seq![(k, v)] + pv.skip(i));
}

proof fn lemma_step_greater(pv: Seq<(Seq<char>, Seq<char>)>, i: int, k: Seq<char>, v: Seq<char>)
    requires
        0 <= i < pv.len(),
        pv[i].0 != k,
        !bytes_lt(key_bytes(k), key_bytes(pv[i].0)),
    ensures
        pv.take(i) + sorted_insert(pv.skip(i), k, v) == pv.take(i + 1) + sorted_insert(
            pv.skip(i + 1),
            k,
            v,
        ),
{
    let s = pv.skip(i);
    assert(s[0] == pv[i]);
    assert(s.drop_first() =~= pv.skip(i + 1));
    assert(sorted_insert(s, k, v) == seq![pv[i]] + sorted_insert(pv.skip(i + 1), k, v));
    assert(pv.take(i) + (seq![pv[i]] + sorted_insert(pv.skip(i + 1), k, v)) =~= pv.take(i + 1)
        + sorted_insert(pv.skip(i + 1), k, v));
}

proof fn lemma_step_end(pv: Seq<(Seq<char>, Seq<char>)>, k: Seq<char>, v: Seq<char>)
    ensures
        pv.take(pv.len() as int) + sorted_insert(pv.skip(pv.len() as int), k, v) == pv.push(
            (k, v),
        ),
{
    assert(pv.skip(pv.len() as int) =~= Seq::<(Seq<char>, Seq<char>)>::empty());
    assert(sorted_insert(Seq::<(Seq<char>, Seq<char>)>::empty(), k, v) == seq![(k, v)]);
    assert(pv.take(pv.len() as int) + seq![(k, v)] =~= pv.push((k, v)));
}

/// An ordered mapping from text keys to text values, sorted by byte-wise
/// key comparison.
pub struct FieldMap {
    entries: Vec<(String, String)>,
}

impl FieldMap {
    /// The entries, as character sequences, in stored (key-sorted) order.
    pub closed spec fn view_entries(&self) -> Seq<(Seq<char>, Seq<char>)> {
        pairs_view(self.entries@)
    }

    /// The stored entries are strictly sorted by key.
    pub open spec fn wf(&self) -> bool {
        entries_sorted(self.view_entries())
    }

    /// An empty field map.
    pub fn new() -> (r: FieldMap)
        ensures
            r.wf(),
            r.view_entries() == Seq::<(Seq<char>, Seq<char>)>::empty(),
    {
        let r = FieldMap { entries: Vec::new() };
        proof {
            assert(r.view_entries() =~= Seq::<(Seq<char>, Seq<char>)>::empty());
        }
        r
    }

    /// A copy of this field map, entry by entry.
    pub fn duplicate(&self) -> (r: FieldMap)
        ensures
            r.view_entries() == self.view_entries(),
            r.wf() == self.wf(),
    {
        let mut es: Vec<(String, String)> = Vec::new();
        let mut i: usize = 0;
        while i < self.entries.len()
            invariant
                i <= self.entries@.len(),
                es@.len() == i,
                pairs_view(es@) =~= pairs_view(self.entries@).take(i as int),
            decreases self.entries@.len() - i,
        {
            let k = self.entries[i].0.clone();
            let v = self.entries[i].1.clone();
            es.push((k, v));
            proof {
                assert(k == self.entries@[i as int].0);
                assert(v == self.entries@[i as int].1);
                assert(es@[i as int] == (k, v));
                assert(pairs_view(es@)[i as int] == (k@, v@));
                assert(pairs_view(self.entries@)[i as int] == (
                    self.entries@[i as int].0@,
                    self.entries@[i as int].1@,
                ));
                assert(pairs_view(es@) =~= pairs_view(self.entries@).take(i as int + 1));
            }
            i = i + 1;
        }
        let r = FieldMap { entries: es };
        proof {
            assert(pairs_view(self.entries@).take(self.entries@.len() as int) =~= pairs_view(
                self.entries@,
            ));
            assert(r.view_entries() == self.view_entries());
        }
        r
    }

    /// Inserts a field, overwriting the value of an equal key, keeping the
    /// entries sorted.
    #[verifier::rlimit(100)]
    pub fn insert(&mut self, key: String, value: String)
        requires
            old(self).wf(),
        ensures
            final(self).wf(),
            final(self).view_entries() == sorted_insert(old(self).view_entries(), key@, value@),
    {
        let ghost pv = self.view_entries();
        proof {
            assert(pv.skip(0) =~= pv);
            assert(pv.take(0) + sorted_insert(pv, key@, value@) =~= sorted_insert(
                pv,
                key@,
                value@,
            ));
        }
        let mut i: usize = 0;
        loop
            invariant
                self == old(self),
                old(self).wf(),
                pv == self.view_entries(),
                i <= pv.len(),
                sorted_insert(pv, key@, value@) == pv.take(i as int) + sorted_insert(
                    pv.skip(i as int),
                    key@,
                    value@,
                ),
                forall|j: int|
                    0 <= j < i ==> bytes_lt(key_bytes(#[trigger] pv[j].0), key_bytes(key@)),
            decreases pv.len() - i,
        {
            if i >= self.entries.len() {
                // every stored key is smaller: the new entry goes last
                proof {
                    lemma_sorted_insert_at(pv, i as int, key@, value@);
                    lemma_step_end(pv, key@, value@);
                }
                self.entries.push((key, value));
                proof {
                    assert(self.view_entries() =~= pv.push((key@, value@)));
                    assert(pv.push((key@, value@)) =~= pv.take(i as int) + seq![(key@, value@)]
                        + pv.skip(i as int));
                }
                return ;
            }
            let o = str_cmp(key.as_str(), self.entries[i].0.as_str());
            proof {
                assert(pv[i as int] == (self.entries@[i as int].0@, self.entries@[i as int].1@));
            }
            match o {
                KeyOrder::Equal => {
                    // same key: overwrite the value in place
                    proof {
                        lemma_sorted_update(pv, i as int, key@, value@);
                        lemma_step_hit(pv, i as int, key@, value@);
                    }
                    self.entries.remove(i);
                    self.entries.insert(i, (key, value));
                    proof {
                        assert(self.view_entries() =~= pv.update(i as int, (key@, value@)));
                    }
                    return ;
                },
                KeyOrder::Less => {
                    // the new key orders before this entry: insert here
                    proof {
                        assert(key@ != pv[i as int].0);
                        lemma_sorted_insert_at(pv, i as int, key@, value@);
                        lemma_step_less(pv, i as int, key@, value@);
                    }
                    self.entries.insert(i, (key, value));
                    proof {
                        assert(self.view_entries() =~= pv.take(i as int) + seq![(key@, value@)]
                            + pv.skip(i as int));
                    }
                    return ;
                },
                KeyOrder::Greater => {
                    proof {
                        assert(key@ != pv[i as int].0);
                        lemma_step_greater(pv, i as int, key@, value@);
                    }
                    i = i + 1;
                },
            }
        }
    }

    /// The canonical encoding of this field map: the map header followed by
    /// the entries in stored order, each as two text items.
    pub fn encode(&self) -> (r: Vec<u8>)
        ensures
            r@ == map_bytes(self.view_entries()),
    {
        encode_text_map(&self.entries)
    }

    /// The entries in stored (key-sorted) order.
    pub fn entries(&self) -> (r: &Vec<(String, String)>)
        ensures
            pairs_view(r@) == self.view_entries(),
    {
        &self.entries
    }
}

} // verus!
