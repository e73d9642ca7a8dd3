use vstd::prelude::*;
use crate::batch::{apply_ops, ops_of, BatchOp, KvOp, WriteBatch};
use crate::errors::KvError;
use crate::keyspace::Keyspace;

verus! {

/// Options recognized when opening a handle.
///
/// A read-only handle serves reads but refuses every mutation; a secondary
/// handle additionally tails a primary's log through
/// `try_catch_up_with_primary`.
pub struct Options {
    pub read_only: bool,
    pub secondary: bool,
}

impl Options {
    /// The defaults: a writable, primary handle.
    pub fn new() -> (opts: Options)
        ensures
            !opts.read_only,
            !opts.secondary,
    {
        Options { read_only: false, secondary: false }
    }
}

/// The views of a sequence of keys.
pub open spec fn key_views(s: Seq<Vec<u8>>) -> Seq<Seq<u8>> {
    s.map_values(|k: Vec<u8>| k@)
}

/// The views of a sequence of optional values.
pub open spec fn opt_views(s: Seq<Option<Vec<u8>>>) -> Seq<Option<Seq<u8>>> {
    s.map_values(
        |o: Option<Vec<u8>>|
            match o {
                Some(v) => Some(v@),
                None => None,
            },
    )
}

/// The result of looking up `keys` in `m`, in input order: a present key
/// contributes its value; an absent key contributes an explicit missing
/// marker, or nothing at all when `skip_missing` is set.
pub open spec fn gathered(
    m: Map<Seq<u8>, Seq<u8>>,
    keys: Seq<Seq<u8>>,
    skip_missing: bool,
) -> Seq<Option<Seq<u8>>>
    decreases keys.len(),
{
    if keys.len() == 0 {
        Seq::empty()
    } else {
        let front = gathered(m, keys.drop_last(), skip_missing);
        let k = keys.last();
        if m.contains_key(k) {
            front.push(Some(m[k]))
        } else if skip_missing {
            front
        } else {
            front.push(None)
        }
    }
}

/// An open (or closed) database instance.
///
/// The handle owns the engine state while open; `close` releases it, after
/// which every operation reports `NotOpenFailure`. Closing twice is a no-op.
pub struct Db {
    pub keyspace: Option<Keyspace>,
    pub read_only: bool,
    pub secondary: bool,
    pub background_active: bool,
    pub durable: Ghost<Map<Seq<u8>, Seq<u8>>>,
}

impl Db {
    /// The handle is open.
    pub open spec fn is_open(self) -> bool {
        self.keyspace is Some
    }

    /// Mutations are admitted: open, and neither read-only nor secondary.
    pub open spec fn writable(self) -> bool {
        !self.read_only && !self.secondary
    }

    /// The keyspace as a map from keys to values; meaningful while open.
    pub open spec fn contents(self) -> Map<Seq<u8>, Seq<u8>> {
        self.keyspace.unwrap().contents()
    }

    /// The (key, value) pairs in ascending key order; meaningful while open.
    pub open spec fn entries(self) -> Seq<(Seq<u8>, Seq<u8>)> {
        self.keyspace.unwrap().entries()
    }

    /// Well-formedness: an open handle holds a sorted keyspace.
    pub open spec fn wf(self) -> bool {
        self.keyspace matches Some(ks) ==> ks.wf()
    }

    /// The mode flags and the durable snapshot are untouched.
    pub open spec fn same_config(self, other: Db) -> bool {
        self.read_only == other.read_only && self.secondary == other.secondary
            && self.background_active == other.background_active && self.durable
            == other.durable
    }

    /// Opens a fresh, empty instance with the given options.
    pub fn open_with_options(opts: &Options) -> (db: Db)
        ensures
            db.wf(),
            db.is_open(),
            db.contents() == Map::<Seq<u8>, Seq<u8>>::empty(),
            db.read_only == opts.read_only,
            db.secondary == opts.secondary,
            db.background_active,
            db.durable@ == Map::<Seq<u8>, Seq<u8>>::empty(),
    {
        Db {
            keyspace: Some(Keyspace::new()),
            read_only: opts.read_only,
            secondary: opts.secondary,
            background_active: true,
            durable: Ghost(Map::empty()),
        }
    }

    /// Opens a fresh, empty, writable instance.
    pub fn open_default() -> (db: Db)
        ensures
            db.wf(),
            db.is_open(),
            db.contents() == Map::<Seq<u8>, Seq<u8>>::empty(),
            db.writable(),
            db.background_active,
            db.durable@ == Map::<Seq<u8>, Seq<u8>>::empty(),
    {
        let opts = Options::new();
        Db::open_with_options(&opts)
    }

    /// Opens a writable instance over previously materialized state, such as
    /// the result of a restore.
    pub fn open_from(ks: Keyspace) -> (db: Db)
        requires
            ks.wf(),
        ensures
            db.wf(),
            db.is_open(),
            db.contents() == ks.contents(),
            db.writable(),
            db.background_active,
            db.durable@ == ks.contents(),
    {
        Db {
            keyspace: Some(ks),
            read_only: false,
            secondary: false,
            background_active: true,
            durable: Ghost(ks.contents()),
        }
    }

    /// Returns the value bound to `key`, or `None` when the key is absent.
    /// Absence is not an error; a closed handle is.
    pub fn get(&self, key: &Vec<u8>) -> (r: Result<Option<Vec<u8>>, KvError>)
        requires
            self.wf(),
        ensures
            !self.is_open() ==> r == Err::<Option<Vec<u8>>, KvError>(KvError::NotOpenFailure),
            self.is_open() ==> match r {
                Ok(Some(v)) => self.contents().contains_key(key@) && v@ == self.contents()[key@],
                Ok(None) => !self.contents().contains_key(key@),
                Err(_) => false,
            },
    {
        match &self.keyspace {
            Some(ks) => Ok(ks.get_value(key)),
            None => Err(KvError::NotOpenFailure),
        }
    }

    /// Upserts `key` to `value`.
    pub fn set(&mut self, key: &Vec<u8>, value: &Vec<u8>) -> (r: Result<(), KvError>)
        requires
            old(self).wf(),
        ensures
            final (self).wf(),
            final (self).same_config(*old(self)),
            final (self).is_open() == old(self).is_open(),
            !old(self).is_open() ==> r == Err::<(), KvError>(KvError::NotOpenFailure) && *final(self) == *old(self),
            old(self).is_open() && !old(self).writable() ==> r == Err::<(), KvError>(
                KvError::ReadOnlyFailure,
            ) && *final(self) == *old(self),
            old(self).is_open() && old(self).writable() ==> r == Ok::<(), KvError>(()) && final(self).contents() == old(self).contents().insert(key@, value@),
    {
        if self.read_only || self.secondary {
            if self.keyspace.is_none() {
                return Err(KvError::NotOpenFailure);
            }
            return Err(KvError::ReadOnlyFailure);
        }
        match &mut self.keyspace {
            Some(ks) => {
                ks.set(key, value);
                Ok(())
            },
            None => Err(KvError::NotOpenFailure),
        }
    }

    /// Removes `key`; removing an absent key succeeds and changes nothing.
    pub fn delete(&mut self, key: &Vec<u8>) -> (r: Result<(), KvError>)
        requires
            old(self).wf(),
        ensures
            final (self).wf(),
            final (self).same_config(*old(self)),
            final (self).is_open() == old(self).is_open(),
            !old(self).is_open() ==> r == Err::<(), KvError>(KvError::NotOpenFailure) && *final(self) == *old(self),
            old(self).is_open() && !old(self).writable() ==> r == Err::<(), KvError>(
                KvError::ReadOnlyFailure,
            ) && *final(self) == *old(self),
            old(self).is_open() && old(self).writable() ==> r == Ok::<(), KvError>(()) && final(self).contents() == old(self).contents().remove(key@),
    {
        if self.read_only || self.secondary {
            if self.keyspace.is_none() {
                return Err(KvError::NotOpenFailure);
            }
            return Err(KvError::ReadOnlyFailure);
        }
        match &mut self.keyspace {
            Some(ks) => {
                ks.delete(key);
                Ok(())
            },
            None => Err(KvError::NotOpenFailure),
        }
    }

    /// Looks up every key of `keys`, in input order. With `skip_missing`
    /// unset the result has one entry per input key, absent keys marked by
    /// `None`; with it set, absent keys are omitted and the result may be
    /// shorter than the input. The relative order of present values is kept
    /// either way.
    pub fn multi_get(&self, keys: &Vec<Vec<u8>>, skip_missing: bool) -> (r: Result<
        Vec<Option<Vec<u8>>>,
        KvError,
    >)
        requires
            self.wf(),
        ensures
            !self.is_open() ==> r == Err::<Vec<Option<Vec<u8>>>, KvError>(KvError::NotOpenFailure),
            self.is_open() ==> match r {
                Ok(out) => opt_views(out@) == gathered(
                    self.contents(),
                    key_views(keys@),
                    skip_missing,
                ),
                Err(_) => false,
            },
    {
        match &self.keyspace {
            Some(ks) => {
                let mut out: Vec<Option<Vec<u8>>> = Vec::new();
                let mut i: usize = 0;
                proof {
                    assert(opt_views(out@) =~= gathered(
                        ks.contents(),
                        key_views(keys@).take(0),
                        skip_missing,
                    ));
                }
                while i < keys.len()
                    invariant
                        self.wf(),
                        self.keyspace == Some(*ks),
                        0 <= i <= keys@.len(),
                        opt_views(out@) == gathered(
                            ks.contents(),
                            key_views(keys@).take(i as int),
                            skip_missing,
                        ),
                    decreases keys@.len() - i,
                {
                    let ghost kv = key_views(keys@);
                    proof {
                        assert(kv.take(i + 1 as int).drop_last() =~= kv.take(i as int));
                        assert(kv.take(i + 1 as int).last() == kv[i as int]);
                        assert(kv[i as int] == keys@[i as int]@);
                    }
                    match ks.get_value(&keys[i]) {
                        Some(v) => {
                            out.push(Some(v));
                            proof {
                                assert(opt_views(out@) =~= gathered(
                                    ks.contents(),
                                    kv.take(i + 1 as int),
                                    skip_missing,
                                ));
                            }
                        },
                        None => {
                            if !skip_missing {
                                out.push(None);
                                proof {
                                    assert(opt_views(out@) =~= gathered(
                                        ks.contents(),
                                        kv.take(i + 1 as int),
                                        skip_missing,
                                    ));
                                }
                            }
                        },
                    }
                    i += 1;
                }
                proof {
                    assert(key_views(keys@).take(keys@.len() as int) =~= key_views(keys@));
                }
                Ok(out)
            },
            None => Err(KvError::NotOpenFailure),
        }
    }

    /// Applies every mutation of `batch` atomically, in insertion order; for
    /// keys that collide, the last entry wins. The batch is consumed (left
    /// empty) whether or not the write is admitted; on failure the keyspace
    /// is untouched, so a reader never observes a partial application.
    pub fn write(&mut self, batch: &mut WriteBatch) -> (r: Result<(), KvError>)
        requires
            old(self).wf(),
        ensures
            final (self).wf(),
            final (self).same_config(*old(self)),
            final (self).is_open() == old(self).is_open(),
            final (batch).pending() == Seq::<KvOp>::empty(),
            !old(self).is_open() ==> r == Err::<(), KvError>(KvError::NotOpenFailure) && *final(self) == *old(self),
            old(self).is_open() && !old(self).writable() ==> r == Err::<(), KvError>(
                KvError::ReadOnlyFailure,
            ) && *final(self) == *old(self),
            old(self).is_open() && old(self).writable() ==> r == Ok::<(), KvError>(()) && final(self).contents() == apply_ops(old(self).contents(), old(batch).pending()),
    {
        if self.read_only || self.secondary {
            batch.ops.clear();
            proof {
                assert(batch.pending() =~= Seq::<KvOp>::empty());
            }
            if self.keyspace.is_none() {
                return Err(KvError::NotOpenFailure);
            }
            return Err(KvError::ReadOnlyFailure);
        }
        match &mut self.keyspace {
            Some(ks) => {
                ks.apply_batch(&batch.ops);
                batch.ops.clear();
                proof {
                    assert(batch.pending() =~= Seq::<KvOp>::empty());
                }
                Ok(())
            },
            None => {
                batch.ops.clear();
                proof {
                    assert(batch.pending() =~= Seq::<KvOp>::empty());
                }
                Err(KvError::NotOpenFailure)
            },
        }
    }

    /// Forces buffered state to durable storage.
    pub fn flush(&mut self) -> (r: Result<(), KvError>)
        requires
            old(self).wf(),
        ensures
            final (self).wf(),
            final (self).read_only == old(self).read_only,
            final (self).secondary == old(self).secondary,
            final (self).background_active == old(self).background_active,
            final (self).is_open() == old(self).is_open(),
            final (self).keyspace == old(self).keyspace,
            !old(self).is_open() ==> r == Err::<(), KvError>(KvError::NotOpenFailure) && *final(self) == *old(self),
            old(self).is_open() ==> r == Ok::<(), KvError>(()) && final (self).durable@ == old(
                self,
            ).contents(),
    {
        if self.keyspace.is_none() {
            return Err(KvError::NotOpenFailure);
        }
        self.durable = Ghost(self.contents());
        Ok(())
    }

    /// Requests an end to background maintenance. The in-memory engine runs
    /// no background threads, so with or without `wait` the request completes
    /// immediately; the flag is accepted because callers of a disk-backed
    /// engine pass it.
    pub fn cancel_all_background_work(&mut self, wait: Option<bool>) -> (r: Result<(), KvError>)
        requires
            old(self).wf(),
        ensures
            final (self).wf(),
            final (self).read_only == old(self).read_only,
            final (self).secondary == old(self).secondary,
            final (self).durable == old(self).durable,
            final (self).is_open() == old(self).is_open(),
            final (self).keyspace == old(self).keyspace,
            !old(self).is_open() ==> r == Err::<(), KvError>(KvError::NotOpenFailure) && *final(self) == *old(self),
            old(self).is_open() ==> r == Ok::<(), KvError>(()) && !final (self).background_active,
    {
        let mut w = false;
        if wait.is_some() {
            w = wait.unwrap();
        }
        let _ = w;
        if self.keyspace.is_none() {
            return Err(KvError::NotOpenFailure);
        }
        self.background_active = false;
        Ok(())
    }

    /// Applies the mutations recorded by the primary since the last
    /// catch-up, handed over by the engine's log-shipping transport. Valid
    /// only for a secondary handle.
    pub fn try_catch_up_with_primary(&mut self, oplog: &Vec<BatchOp>) -> (r: Result<(), KvError>)
        requires
            old(self).wf(),
        ensures
            final (self).wf(),
            final (self).same_config(*old(self)),
            final (self).is_open() == old(self).is_open(),
            !old(self).is_open() ==> r == Err::<(), KvError>(KvError::NotOpenFailure) && *final(self) == *old(self),
            old(self).is_open() && !old(self).secondary ==> r == Err::<(), KvError>(
                KvError::ReplicationFailure,
            ) && *final(self) == *old(self),
            old(self).is_open() && old(self).secondary ==> r == Ok::<(), KvError>(()) && final(self).contents() == apply_ops(old(self).contents(), ops_of(oplog@)),
    {
        if !self.secondary {
            if self.keyspace.is_none() {
                return Err(KvError::NotOpenFailure);
            }
            return Err(KvError::ReplicationFailure);
        }
        match &mut self.keyspace {
            Some(ks) => {
                ks.apply_batch(oplog);
                Ok(())
            },
            None => Err(KvError::NotOpenFailure),
        }
    }

    /// Releases the engine instance. Idempotent: closing a closed handle is
    /// a no-op, not an error.
    pub fn close(&mut self) -> (r: Result<(), KvError>)
        ensures
            r == Ok::<(), KvError>(()),
            !final (self).is_open(),
            final (self).read_only == old(self).read_only,
            final (self).secondary == old(self).secondary,
    {
        self.keyspace = None;
        Ok(())
    }
}

} // verus!
