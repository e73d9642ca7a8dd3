use vstd::prelude::*;
use crate::db::Db;
use crate::errors::KvError;
use crate::keyspace::{copy_record, views_of, Record};
use crate::order::lex_lt;

verus! {

/// Scan direction.
#[derive(Clone, Copy, Debug, PartialEq, Eq, Structural)]
pub enum Direction {
    Forward,
    Reverse,
}

/// Start position of a scan: the lowest key, the highest key (scanning in
/// reverse by definition), or the first key at or past a given key in the
/// chosen direction.
pub enum IteratorMode {
    Start,
    End,
    From(Vec<u8>, Direction),
}

/// The recognized mode words of an iterator request; a request that names no
/// recognized word scans from the start.
#[derive(Clone, Copy, Debug, PartialEq, Eq, Structural)]
pub enum ModeWord {
    Start,
    End,
    From,
}

/// Resolves a loose iterator request into a mode. A missing mode word means
/// a scan from the start; a `From` request without a key seeks from the
/// empty key; the direction selector counts only beside a key, and a
/// negative selector means reverse.
pub fn resolve_mode(mode: Option<ModeWord>, key: Option<Vec<u8>>, direction: Option<i32>) -> (m:
    IteratorMode)
    ensures
        mode is None ==> m == IteratorMode::Start,
        mode == Some(ModeWord::Start) ==> m == IteratorMode::Start,
        mode == Some(ModeWord::End) ==> m == IteratorMode::End,
        mode == Some(ModeWord::From) ==> match m {
            IteratorMode::From(k, d) => k@ == (match key {
                Some(kb) => kb@,
                None => Seq::<u8>::empty(),
            }) && d == (if key is Some && direction is Some && direction.unwrap() < 0 {
                Direction::Reverse
            } else {
                Direction::Forward
            }),
            _ => false,
        },
{
    match mode {
        None => IteratorMode::Start,
        Some(ModeWord::Start) => IteratorMode::Start,
        Some(ModeWord::End) => IteratorMode::End,
        Some(ModeWord::From) => {
            match key {
                Some(kb) => {
                    let dir = match direction {
                        Some(d) => if d < 0 {
                            Direction::Reverse
                        } else {
                            Direction::Forward
                        },
                        None => Direction::Forward,
                    };
                    IteratorMode::From(kb, dir)
                },
                None => IteratorMode::From(Vec::new(), Direction::Forward),
            }
        },
    }
}

/// The first `n` pairs sort strictly before `k` and the rest do not: `n` is
/// where a forward scan from `k` begins.
pub open spec fn split_at_lower(s: Seq<(Seq<u8>, Seq<u8>)>, k: Seq<u8>, n: int) -> bool {
    &&& 0 <= n <= s.len()
    &&& forall|j: int| 0 <= j < n ==> lex_lt((#[trigger] s[j]).0, k)
    &&& forall|j: int| n <= j < s.len() ==> !lex_lt((#[trigger] s[j]).0, k)
}

/// The first `n` pairs sort at or before `k` and the rest past it: `n` is
/// where a reverse scan from `k` begins.
pub open spec fn split_at_upper(s: Seq<(Seq<u8>, Seq<u8>)>, k: Seq<u8>, n: int) -> bool {
    &&& 0 <= n <= s.len()
    &&& forall|j: int| 0 <= j < n ==> !lex_lt(k, (#[trigger] s[j]).0)
    &&& forall|j: int| n <= j < s.len() ==> lex_lt(k, (#[trigger] s[j]).0)
}

/// A lazy, finite, non-restartable cursor over the pairs that the keyspace
/// held when the iterator was created. Advancing it demands the handle it
/// was created from: once that handle is closed, advancing fails rather
/// than serving stale data.
pub struct KvIterator {
    pub items: Vec<Record>,
    pub pos: usize,
}

impl KvIterator {
    pub open spec fn wf(self) -> bool {
        self.pos <= self.items@.len()
    }

    /// The pairs not yet yielded, in yield order.
    pub open spec fn remaining(self) -> Seq<(Seq<u8>, Seq<u8>)> {
        views_of(self.items@).skip(self.pos as int)
    }

    /// Yields the next pair, or `None` once the sequence is exhausted.
    /// Fails with `NotOpenFailure` when `db` has been closed.
    pub fn next(&mut self, db: &Db) -> (r: Result<Option<Record>, KvError>)
        requires
            old(self).wf(),
        ensures
            final (self).wf(),
            !db.is_open() ==> r == Err::<Option<Record>, KvError>(KvError::NotOpenFailure)
                && *final (self) == *old(self),
            db.is_open() && old(self).remaining().len() == 0 ==> (r matches Ok(o) && o is None)
                && *final (self) == *old(self),
            db.is_open() && old(self).remaining().len() > 0 ==> match r {
                Ok(Some(rec)) => rec@ == old(self).remaining()[0] && final (self).remaining()
                    == old(self).remaining().skip(1),
                _ => false,
            },
    {
        if db.keyspace.is_none() {
            return Err(KvError::NotOpenFailure);
        }
        if self.pos < self.items.len() {
            let rec = copy_record(&self.items[self.pos]);
            let ghost p = self.pos as int;
            self.pos = self.pos + 1;
            proof {
                let vs = views_of(self.items@);
                assert(vs[p] == self.items@[p]@);
                assert(vs.skip(p)[0] == vs[p]);
                assert(vs.skip(p + 1) =~= vs.skip(p).skip(1));
            }
            Ok(Some(rec))
        } else {
            Ok(None)
        }
    }
}

impl Db {
    /// Creates an ordered cursor over the current keyspace, positioned by
    /// `mode`: from the lowest key forward, from the highest key backward,
    /// or seeking from a given key in a chosen direction.
    pub fn iterator(&self, mode: IteratorMode) -> (r: Result<KvIterator, KvError>)
        requires
            self.wf(),
        ensures
            !self.is_open() ==> r == Err::<KvIterator, KvError>(KvError::NotOpenFailure),
            self.is_open() ==> match r {
                Ok(it) => it.wf() && match mode {
                    IteratorMode::Start => it.remaining() == self.entries(),
                    IteratorMode::End => it.remaining() == self.entries().reverse(),
                    IteratorMode::From(k, d) => match d {
                        Direction::Forward => exists|n: int|
                            #[trigger] split_at_lower(self.entries(), k@, n) && it.remaining()
                                == self.entries().skip(n),
                        Direction::Reverse => exists|n: int|
                            #[trigger] split_at_upper(self.entries(), k@, n) && it.remaining()
                                == self.entries().take(n).reverse(),
                    },
                },
                Err(_) => false,
            },
    {
        match &self.keyspace {
            Some(ks) => {
                let items: Vec<Record> = match &mode {
                    IteratorMode::Start => {
                        let dup = ks.duplicate();
                        proof {
                            assert(views_of(dup.records@).skip(0) =~= ks.entries());
                        }
                        dup.records
                    },
                    IteratorMode::End => {
                        let n = ks.records.len();
                        let mut out: Vec<Record> = Vec::new();
                        let mut i: usize = 0;
                        while i < n
                            invariant
                                n == ks.records@.len(),
                                0 <= i <= n,
                                out@.len() == i,
                                forall|j: int|
                                    0 <= j < i ==> out@[j]@ == ks.records@[n - 1 - j]@,
                            decreases n - i,
                        {
                            let rec = copy_record(&ks.records[n - 1 - i]);
                            out.push(rec);
                            i += 1;
                        }
                        proof {
                            assert(views_of(out@).skip(0) =~= ks.entries().reverse());
                        }
                        out
                    },
                    IteratorMode::From(k, Direction::Forward) => {
                        let n = ks.lower_bound(k);
                        let len = ks.records.len();
                        let mut out: Vec<Record> = Vec::new();
                        let mut i: usize = n;
                        while i < len
                            invariant
                                len == ks.records@.len(),
                                n <= i <= len,
                                out@.len() == i - n,
                                forall|j: int| 0 <= j < i - n ==> out@[j]@ == ks.records@[n + j]@,
                            decreases len - i,
                        {
                            let rec = copy_record(&ks.records[i]);
                            out.push(rec);
                            i += 1;
                        }
                        proof {
                            assert(self.entries() == ks.entries());
                            assert(views_of(out@).skip(0) =~= self.entries().skip(n as int));
                            assert forall|j: int| 0 <= j < ks.entries().len() implies (
                            #[trigger] ks.entries()[j]).0 == ks.records@[j].key@ by {}
                            assert(split_at_lower(self.entries(), k@, n as int));
                            assert(exists|n0: int|
                                #[trigger] split_at_lower(self.entries(), k@, n0)
                                    && views_of(out@).skip(0) == self.entries().skip(n0));
                        }
                        out
                    },
                    IteratorMode::From(k, Direction::Reverse) => {
                        let n = ks.upper_bound(k);
                        let mut out: Vec<Record> = Vec::new();
                        let mut i: usize = 0;
                        while i < n
                            invariant
                                n <= ks.records@.len(),
                                0 <= i <= n,
                                out@.len() == i,
                                forall|j: int| 0 <= j < i ==> out@[j]@ == ks.records@[n - 1 - j]@,
                            decreases n - i,
                        {
                            let rec = copy_record(&ks.records[n - 1 - i]);
                            out.push(rec);
                            i += 1;
                        }
                        proof {
                            assert(self.entries() == ks.entries());
                            assert(views_of(out@).skip(0) =~= self.entries().take(n as int).reverse());
                            assert forall|j: int| 0 <= j < ks.entries().len() implies (
                            #[trigger] ks.entries()[j]).0 == ks.records@[j].key@ by {}
                            assert(split_at_upper(self.entries(), k@, n as int));
                            assert(exists|n0: int|
                                #[trigger] split_at_upper(self.entries(), k@, n0)
                                    && views_of(out@).skip(0) == self.entries().take(n0).reverse());
                        }
                        out
                    },
                };
                Ok(KvIterator { items, pos: 0 })
            },
            None => Err(KvError::NotOpenFailure),
        }
    }
}

} // verus!
