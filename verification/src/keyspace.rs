use vstd::prelude::*;
use crate::order::{lex_lt, lemma_lex_lt_asym, lemma_lex_lt_trans, compare_bytes, KeyOrder};

verus! {

/// One key together with its bound value.
pub struct Record {
    pub key: Vec<u8>,
    pub value: Vec<u8>,
}

impl View for Record {
    type V = (Seq<u8>, Seq<u8>);

    open spec fn view(&self) -> (Seq<u8>, Seq<u8>) {
        (self.key@, self.value@)
    }
}

/// The (key, value) views of a record sequence, in storage order.
pub open spec fn views_of(s: Seq<Record>) -> Seq<(Seq<u8>, Seq<u8>)> {
    s.map_values(|r: Record| r@)
}

/// The value bound to `k` by the records of `s`, later entries winning.
pub open spec fn lookup(s: Seq<Record>, k: Seq<u8>) -> Option<Seq<u8>>
    decreases s.len(),
{
    if s.len() == 0 {
        None
    } else if s.last().key@ == k {
        Some(s.last().value@)
    } else {
        lookup(s.drop_last(), k)
    }
}

/// The finite map that a record sequence denotes.
pub open spec fn contents_of(s: Seq<Record>) -> Map<Seq<u8>, Seq<u8>> {
    Map::new(|k: Seq<u8>| lookup(s, k) is Some, |k: Seq<u8>| lookup(s, k).unwrap())
}

/// Keys strictly increase in lexicographic order.
pub open spec fn sorted(s: Seq<Record>) -> bool {
    forall|i: int, j: int| 0 <= i < j < s.len() ==> lex_lt(s[i].key@, s[j].key@)
}

/// No two records carry the same key.
pub open spec fn distinct_keys(s: Seq<Record>) -> bool {
    forall|i: int, j: int| 0 <= i < j < s.len() ==> s[i].key@ != s[j].key@
}

pub proof fn lemma_sorted_distinct(s: Seq<Record>)
    requires
        sorted(s),
    ensures
        distinct_keys(s),
{
    assert forall|i: int, j: int| 0 <= i < j < s.len() implies s[i].key@ != s[j].key@ by {
        lemma_lex_lt_asym(s[i].key@, s[j].key@);
    }
}

/// A key held by no record looks up to nothing.
pub proof fn lemma_lookup_absent(s: Seq<Record>, k: Seq<u8>)
    requires
        forall|i: int| 0 <= i < s.len() ==> s[i].key@ != k,
    ensures
        lookup(s, k) is None,
    decreases s.len(),
{
    if s.len() > 0 {
        assert forall|i: int| 0 <= i < s.drop_last().len() implies s.drop_last()[i].key@ != k by {
            assert(s.drop_last()[i] == s[i]);
        }
        lemma_lookup_absent(s.drop_last(), k);
    }
}

/// With distinct keys, the record holding `k` decides the lookup.
pub proof fn lemma_lookup_present(s: Seq<Record>, k: Seq<u8>, i: int)
    requires
        distinct_keys(s),
        0 <= i < s.len(),
        s[i].key@ == k,
    ensures
        lookup(s, k) == Some(s[i].value@),
    decreases s.len(),
{
    if i == s.len() - 1 {
    } else {
        assert(s.last().key@ != k);
        assert forall|p: int, q: int|
            0 <= p < q < s.drop_last().len() implies s.drop_last()[p].key@
            != s.drop_last()[q].key@ by {
            assert(s.drop_last()[p] == s[p]);
            assert(s.drop_last()[q] == s[q]);
        }
        assert(s.drop_last()[i] == s[i]);
        lemma_lookup_present(s.drop_last(), k, i);
    }
}

/// Replacing the value of the record at `i` updates exactly that binding.
pub proof fn lemma_contents_update(s: Seq<Record>, i: int, r: Record)
    requires
        distinct_keys(s),
        0 <= i < s.len(),
        r.key@ == s[i].key@,
    ensures
        contents_of(s.update(i, r)) == contents_of(s).insert(r.key@, r.value@),
{
    let s2 = s.update(i, r);
    assert(contents_of(s2) =~= contents_of(s).insert(r.key@, r.value@)) by {
        assert forall|k: Seq<u8>| true implies #[trigger] lookup(s2, k) == (if k == r.key@ {
            Some(r.value@)
        } else {
            lookup(s, k)
        }) by {
            lemma_contents_pointwise_update(s, i, r, k);
        }
    }
}

proof fn lemma_contents_pointwise_update(s: Seq<Record>, i: int, r: Record, k: Seq<u8>)
    requires
        distinct_keys(s),
        0 <= i < s.len(),
        r.key@ == s[i].key@,
    ensures
        lookup(s.update(i, r), k) == (if k == r.key@ {
            Some(r.value@)
        } else {
            lookup(s, k)
        }),
{
    let s2 = s.update(i, r);
    assert forall|p: int, q: int| 0 <= p < q < s2.len() implies s2[p].key@ != s2[q].key@ by {
        assert(s2[p].key@ == s[p].key@);
        assert(s2[q].key@ == s[q].key@);
    }
    if k == r.key@ {
        lemma_lookup_present(s2, k, i);
    } else {
        if exists|j: int| 0 <= j < s.len() && s[j].key@ == k {
            let j = choose|j: int| 0 <= j < s.len() && s[j].key@ == k;
            lemma_lookup_present(s, k, j);
            assert(s2[j].key@ == k);
            lemma_lookup_present(s2, k, j);
        } else {
            lemma_lookup_absent(s, k);
            assert forall|j: int| 0 <= j < s2.len() implies s2[j].key@ != k by {
                if j == i {
                } else {
                    assert(s2[j] == s[j]);
                }
            }
            lemma_lookup_absent(s2, k);
        }
    }
}

proof fn lemma_contents_pointwise_insert(s: Seq<Record>, i: int, r: Record, k: Seq<u8>)
    requires
        distinct_keys(s),
        0 <= i <= s.len(),
        forall|j: int| 0 <= j < s.len() ==> s[j].key@ != r.key@,
    ensures
        lookup(s.insert(i, r), k) == (if k == r.key@ {
            Some(r.value@)
        } else {
            lookup(s, k)
        }),
{
    let s2 = s.insert(i, r);
    assert(s2.len() == s.len() + 1);
    assert(s2[i] == r);
    assert forall|p: int, q: int| 0 <= p < q < s2.len() implies s2[p].key@ != s2[q].key@ by {
        if p == i {
            assert(s2[q] == s[q - 1]);
        } else if q == i {
            assert(s2[p] == s[p]);
        } else if p < i && q < i {
            assert(s2[p] == s[p]);
            assert(s2[q] == s[q]);
        } else if p < i {
            assert(s2[p] == s[p]);
            assert(s2[q] == s[q - 1]);
        } else {
            assert(s2[p] == s[p - 1]);
            assert(s2[q] == s[q - 1]);
        }
    }
    if k == r.key@ {
        lemma_lookup_present(s2, k, i);
    } else {
        if exists|j: int| 0 <= j < s.len() && s[j].key@ == k {
            let j = choose|j: int| 0 <= j < s.len() && s[j].key@ == k;
            lemma_lookup_present(s, k, j);
            if j < i {
                assert(s2[j] == s[j]);
                lemma_lookup_present(s2, k, j);
            } else {
                assert(s2[j + 1] == s[j]);
                lemma_lookup_present(s2, k, j + 1);
            }
        } else {
            lemma_lookup_absent(s, k);
            assert forall|j: int| 0 <= j < s2.len() implies s2[j].key@ != k by {
                if j < i {
                    assert(s2[j] == s[j]);
                } else if j == i {
                } else {
                    assert(s2[j] == s[j - 1]);
                }
            }
            lemma_lookup_absent(s2, k);
        }
    }
}

/// Inserting a record with a fresh key adds exactly that binding.
pub proof fn lemma_contents_insert(s: Seq<Record>, i: int, r: Record)
    requires
        distinct_keys(s),
        0 <= i <= s.len(),
        forall|j: int| 0 <= j < s.len() ==> s[j].key@ != r.key@,
    ensures
        contents_of(s.insert(i, r)) == contents_of(s).insert(r.key@, r.value@),
{
    let s2 = s.insert(i, r);
    assert(contents_of(s2) =~= contents_of(s).insert(r.key@, r.value@)) by {
        assert forall|k: Seq<u8>| true implies #[trigger] lookup(s2, k) == (if k == r.key@ {
            Some(r.value@)
        } else {
            lookup(s, k)
        }) by {
            lemma_contents_pointwise_insert(s, i, r, k);
        }
    }
}

/// Removing the record at `i` removes exactly its binding.
pub proof fn lemma_contents_remove(s: Seq<Record>, i: int)
    requires
        distinct_keys(s),
        0 <= i < s.len(),
    ensures
        contents_of(s.remove(i)) == contents_of(s).remove(s[i].key@),
{
    let s2 = s.remove(i);
    assert(contents_of(s2) =~= contents_of(s).remove(s[i].key@)) by {
        assert forall|k: Seq<u8>| true implies #[trigger] lookup(s2, k) == (if k == s[i].key@ {
            None
        } else {
            lookup(s, k)
        }) by {
            lemma_contents_pointwise_remove(s, i, k);
        }
    }
}

proof fn lemma_contents_pointwise_remove(s: Seq<Record>, i: int, k: Seq<u8>)
    requires
        distinct_keys(s),
        0 <= i < s.len(),
    ensures
        lookup(s.remove(i), k) == (if k == s[i].key@ {
            None
        } else {
            lookup(s, k)
        }),
{
    let s2 = s.remove(i);
    assert forall|p: int, q: int| 0 <= p < q < s2.len() implies s2[p].key@ != s2[q].key@ by {
        if p < i && q < i {
            assert(s2[p] == s[p]);
            assert(s2[q] == s[q]);
        } else if p < i {
            assert(s2[p] == s[p]);
            assert(s2[q] == s[q + 1]);
        } else {
            assert(s2[p] == s[p + 1]);
            assert(s2[q] == s[q + 1]);
        }
    }
    if k == s[i].key@ {
        assert forall|j: int| 0 <= j < s2.len() implies s2[j].key@ != k by {
            if j < i {
                assert(s2[j] == s[j]);
            } else {
                assert(s2[j] == s[j + 1]);
            }
        }
        lemma_lookup_absent(s2, k);
    } else {
        if exists|j: int| 0 <= j < s.len() && s[j].key@ == k {
            let j = choose|j: int| 0 <= j < s.len() && s[j].key@ == k;
            lemma_lookup_present(s, k, j);
            if j < i {
                assert(s2[j] == s[j]);
                lemma_lookup_present(s2, k, j);
            } else {
                assert(s2[j - 1] == s[j]);
                lemma_lookup_present(s2, k, j - 1);
            }
        } else {
            lemma_lookup_absent(s, k);
            assert forall|j: int| 0 <= j < s2.len() implies s2[j].key@ != k by {
                if j < i {
                    assert(s2[j] == s[j]);
                } else {
                    assert(s2[j] == s[j + 1]);
                }
            }
            lemma_lookup_absent(s2, k);
        }
    }
}

/// Two record sequences with the same views denote the same ordering and map.
pub proof fn lemma_same_views_same_contents(s1: Seq<Record>, s2: Seq<Record>)
    requires
        views_of(s1) == views_of(s2),
    ensures
        contents_of(s1) == contents_of(s2),
        sorted(s1) == sorted(s2),
    decreases s1.len(),
{
    assert(views_of(s1).len() == s1.len());
    assert(views_of(s2).len() == s2.len());
    assert forall|i: int| 0 <= i < s1.len() implies s1[i].key@ == s2[i].key@ && s1[i].value@
        == s2[i].value@ by {
        assert(views_of(s1)[i] == s1[i]@);
        assert(views_of(s2)[i] == s2[i]@);
    }
    assert forall|k: Seq<u8>| true implies #[trigger] lookup(s1, k) == lookup(s2, k) by {
        lemma_same_views_same_lookup(s1, s2, k);
    }
    assert(contents_of(s1) =~= contents_of(s2));
    assert(sorted(s1) == sorted(s2));
}

proof fn lemma_same_views_same_lookup(s1: Seq<Record>, s2: Seq<Record>, k: Seq<u8>)
    requires
        s1.len() == s2.len(),
        forall|i: int| 0 <= i < s1.len() ==> s1[i].key@ == s2[i].key@ && s1[i].value@
            == s2[i].value@,
    ensures
        lookup(s1, k) == lookup(s2, k),
    decreases s1.len(),
{
    if s1.len() > 0 {
        assert forall|i: int|
            0 <= i < s1.drop_last().len() implies s1.drop_last()[i].key@ == s2.drop_last()[i].key@
            && s1.drop_last()[i].value@ == s2.drop_last()[i].value@ by {
            assert(s1.drop_last()[i] == s1[i]);
            assert(s2.drop_last()[i] == s2[i]);
        }
        lemma_same_views_same_lookup(s1.drop_last(), s2.drop_last(), k);
    }
}

/// Returns a fresh byte string with the same contents.
pub fn copy_bytes(v: &Vec<u8>) -> (r: Vec<u8>)
    ensures
        r@ == v@,
{
    let mut r: Vec<u8> = Vec::new();
    let mut i: usize = 0;
    while i < v.len()
        invariant
            0 <= i <= v@.len(),
            r@ == v@.take(i as int),
        decreases v@.len() - i,
    {
        r.push(v[i]);
        proof {
            assert(v@.take(i + 1 as int) =~= v@.take(i as int).push(v@[i as int]));
        }
        i += 1;
    }
    proof {
        assert(v@.take(v@.len() as int) =~= v@);
    }
    r
}

/// Returns a fresh record with the same key and value.
pub fn copy_record(r: &Record) -> (c: Record)
    ensures
        c@ == r@,
        c.key@ == r.key@,
        c.value@ == r.value@,
{
    Record { key: copy_bytes(&r.key), value: copy_bytes(&r.value) }
}

/// The ordered keyspace: records sorted by strictly increasing key.
pub struct Keyspace {
    pub records: Vec<Record>,
}

impl Keyspace {
    /// Well-formedness: keys strictly increase, so every key occurs once.
    pub open spec fn wf(self) -> bool {
        sorted(self.records@)
    }

    /// The keyspace as a map from keys to values.
    pub open spec fn contents(self) -> Map<Seq<u8>, Seq<u8>> {
        contents_of(self.records@)
    }

    /// The (key, value) pairs in ascending key order.
    pub open spec fn entries(self) -> Seq<(Seq<u8>, Seq<u8>)> {
        views_of(self.records@)
    }

    /// An empty keyspace.
    pub fn new() -> (ks: Keyspace)
        ensures
            ks.wf(),
            ks.contents() == Map::<Seq<u8>, Seq<u8>>::empty(),
            ks.entries() == Seq::<(Seq<u8>, Seq<u8>)>::empty(),
    {
        let ks = Keyspace { records: Vec::new() };
        proof {
            assert(ks.contents() =~= Map::<Seq<u8>, Seq<u8>>::empty());
            assert(ks.entries() =~= Seq::<(Seq<u8>, Seq<u8>)>::empty());
        }
        ks
    }

    /// Index of the record holding `key`, if any.
    fn find(&self, key: &Vec<u8>) -> (r: Option<usize>)
        ensures
            match r {
                Some(i) => i < self.records@.len() && self.records@[i as int].key@ == key@,
                None => forall|i: int|
                    0 <= i < self.records@.len() ==> self.records@[i].key@ != key@,
            },
    {
        let mut i: usize = 0;
        while i < self.records.len()
            invariant
                0 <= i <= self.records@.len(),
                forall|j: int| 0 <= j < i ==> self.records@[j].key@ != key@,
            decreases self.records@.len() - i,
        {
            if compare_bytes(&self.records[i].key, key) == KeyOrder::Equal {
                return Some(i);
            }
            i += 1;
        }
        None
    }

    /// The value bound to `key`, as a fresh copy, or `None` when absent.
    pub fn get_value(&self, key: &Vec<u8>) -> (r: Option<Vec<u8>>)
        requires
            self.wf(),
        ensures
            (r is Some) == self.contents().contains_key(key@),
            r matches Some(v) ==> self.contents()[key@] == v@,
    {
        proof {
            lemma_sorted_distinct(self.records@);
        }
        match self.find(key) {
            Some(i) => {
                proof {
                    lemma_lookup_present(self.records@, key@, i as int);
                }
                Some(copy_bytes(&self.records[i].value))
            },
            None => {
                proof {
                    lemma_lookup_absent(self.records@, key@);
                }
                None
            },
        }
    }

    /// Number of records whose key sorts strictly before `key`.
    pub fn lower_bound(&self, key: &Vec<u8>) -> (i: usize)
        requires
            self.wf(),
        ensures
            0 <= i <= self.records@.len(),
            forall|j: int| 0 <= j < i ==> lex_lt(self.records@[j].key@, key@),
            forall|j: int| i <= j < self.records@.len() ==> !lex_lt(self.records@[j].key@, key@),
    {
        let mut i: usize = 0;
        while i < self.records.len() && compare_bytes(&self.records[i].key, key) == KeyOrder::Less
            invariant
                self.wf(),
                0 <= i <= self.records@.len(),
                forall|j: int| 0 <= j < i ==> lex_lt(self.records@[j].key@, key@),
            decreases self.records@.len() - i,
        {
            i += 1;
        }
        proof {
            assert forall|j: int|
                i <= j < self.records@.len() implies !lex_lt(self.records@[j].key@, key@) by {
                if j > i {
                    if lex_lt(self.records@[j].key@, key@) {
                        lemma_lex_lt_trans(
                            self.records@[i as int].key@,
                            self.records@[j].key@,
                            key@,
                        );
                    }
                }
            }
        }
        i
    }

    /// Number of records whose key sorts at or before `key`.
    pub fn upper_bound(&self, key: &Vec<u8>) -> (i: usize)
        requires
            self.wf(),
        ensures
            0 <= i <= self.records@.len(),
            forall|j: int| 0 <= j < i ==> !lex_lt(key@, self.records@[j].key@),
            forall|j: int| i <= j < self.records@.len() ==> lex_lt(key@, self.records@[j].key@),
    {
        let mut i: usize = 0;
        while i < self.records.len() && compare_bytes(&self.records[i].key, key) != KeyOrder::Greater
            invariant
                self.wf(),
                0 <= i <= self.records@.len(),
                forall|j: int| 0 <= j < i ==> !lex_lt(key@, self.records@[j].key@),
            decreases self.records@.len() - i,
        {
            i += 1;
        }
        proof {
            assert forall|j: int|
                i <= j < self.records@.len() implies lex_lt(key@, self.records@[j].key@) by {
                if j > i {
                    lemma_lex_lt_trans(key@, self.records@[i as int].key@, self.records@[j].key@);
                }
            }
        }
        i
    }

    /// Upserts `key` to `value`.
    pub fn set(&mut self, key: &Vec<u8>, value: &Vec<u8>)
        requires
            old(self).wf(),
        ensures
            final (self).wf(),
            final (self).contents() == old(self).contents().insert(key@, value@),
    {
        proof {
            lemma_sorted_distinct(self.records@);
        }
        let i = self.lower_bound(key);
        let r = Record { key: copy_bytes(key), value: copy_bytes(value) };
        if i < self.records.len() && compare_bytes(&self.records[i].key, key) == KeyOrder::Equal {
            let ghost s = self.records@;
            self.records.remove(i);
            self.records.insert(i, r);
            proof {
                assert(self.records@ =~= s.update(i as int, r));
                lemma_contents_update(s, i as int, r);
                assert forall|p: int, q: int|
                    0 <= p < q < self.records@.len() implies lex_lt(
                    self.records@[p].key@,
                    self.records@[q].key@,
                ) by {
                    assert(self.records@[p].key@ == s[p].key@);
                    assert(self.records@[q].key@ == s[q].key@);
                }
            }
        } else {
            let ghost s = self.records@;
            proof {
                assert forall|j: int| 0 <= j < s.len() implies s[j].key@ != r.key@ by {
                    if j < i {
                        lemma_lex_lt_asym(s[j].key@, key@);
                    } else {
                        if s[j].key@ == key@ {
                            crate::order::lemma_lex_lt_connected(s[j].key@, key@);
                        }
                    }
                }
            }
            self.records.insert(i, r);
            proof {
                lemma_contents_insert(s, i as int, r);
                let s2 = self.records@;
                assert forall|p: int, q: int| 0 <= p < q < s2.len() implies lex_lt(
                    s2[p].key@,
                    s2[q].key@,
                ) by {
                    if q == i {
                        assert(s2[p] == s[p]);
                        assert(lex_lt(s[p].key@, key@));
                    } else if p == i {
                        assert(s2[q] == s[q - 1]);
                        assert(!lex_lt(s[q - 1].key@, key@));
                        if s[q - 1].key@ != key@ {
                            if !lex_lt(key@, s[q - 1].key@) {
                                crate::order::lemma_lex_lt_connected(key@, s[q - 1].key@);
                            }
                        }
                    } else if p < i && q < i {
                        assert(s2[p] == s[p]);
                        assert(s2[q] == s[q]);
                    } else if p < i {
                        assert(s2[p] == s[p]);
                        assert(s2[q] == s[q - 1]);
                        assert(lex_lt(s[p].key@, key@));
                        assert(!lex_lt(s[q - 1].key@, key@));
                        if !lex_lt(s[p].key@, s[q - 1].key@) {
                            if s[p].key@ == s[q - 1].key@ {
                            } else {
                                crate::order::lemma_lex_lt_connected(s[p].key@, s[q - 1].key@);
                                lemma_lex_lt_trans(s[q - 1].key@, s[p].key@, key@);
                            }
                        }
                    } else {
                        assert(s2[p] == s[p - 1]);
                        assert(s2[q] == s[q - 1]);
                    }
                }
            }
        }
    }

    /// Removes `key` if present; removing an absent key changes nothing.
    pub fn delete(&mut self, key: &Vec<u8>)
        requires
            old(self).wf(),
        ensures
            final (self).wf(),
            final (self).contents() == old(self).contents().remove(key@),
    {
        proof {
            lemma_sorted_distinct(self.records@);
        }
        match self.find(key) {
            Some(i) => {
                let ghost s = self.records@;
                self.records.remove(i);
                proof {
                    lemma_contents_remove(s, i as int);
                    let s2 = self.records@;
                    assert forall|p: int, q: int| 0 <= p < q < s2.len() implies lex_lt(
                        s2[p].key@,
                        s2[q].key@,
                    ) by {
                        if p < i && q < i {
                            assert(s2[p] == s[p]);
                            assert(s2[q] == s[q]);
                        } else if p < i {
                            assert(s2[p] == s[p]);
                            assert(s2[q] == s[q + 1]);
                        } else {
                            assert(s2[p] == s[p + 1]);
                            assert(s2[q] == s[q + 1]);
                        }
                    }
                }
            },
            None => {
                proof {
                    lemma_lookup_absent(self.records@, key@);
                    assert(self.contents() =~= self.contents().remove(key@));
                }
            },
        }
    }

    /// Returns a fresh keyspace with the same contents.
    pub fn duplicate(&self) -> (c: Keyspace)
        requires
            self.wf(),
        ensures
            c.wf(),
            c.contents() == self.contents(),
            c.entries() == self.entries(),
    {
        let mut out: Vec<Record> = Vec::new();
        let mut i: usize = 0;
        while i < self.records.len()
            invariant
                0 <= i <= self.records@.len(),
                out@.len() == i,
                forall|j: int| 0 <= j < i ==> out@[j]@ == self.records@[j]@,
            decreases self.records@.len() - i,
        {
            let r = copy_record(&self.records[i]);
            out.push(r);
            i += 1;
        }
        let c = Keyspace { records: out };
        proof {
            assert(views_of(c.records@) =~= views_of(self.records@));
            lemma_same_views_same_contents(c.records@, self.records@);
        }
        c
    }
}

} // verus!
