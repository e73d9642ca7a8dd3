use vstd::prelude::*;
use crate::db::Db;
use crate::errors::KvError;
use crate::keyspace::Keyspace;

verus! {

/// The accumulated backups at one backup location, oldest first. Creating a
/// backup appends; nothing ever deletes a prior backup automatically.
pub struct BackupStore {
    pub backups: Vec<Keyspace>,
}

impl BackupStore {
    pub open spec fn wf(self) -> bool {
        forall|i: int| 0 <= i < self.backups@.len() ==> (#[trigger] self.backups@[i]).wf()
    }

    /// The recorded snapshots, as maps, oldest first.
    pub open spec fn snapshots(self) -> Seq<Map<Seq<u8>, Seq<u8>>> {
        self.backups@.map_values(|ks: Keyspace| ks.contents())
    }

    /// A backup location holding no backups yet.
    pub fn new() -> (s: BackupStore)
        ensures
            s.wf(),
            s.snapshots() == Seq::<Map<Seq<u8>, Seq<u8>>>::empty(),
    {
        let s = BackupStore { backups: Vec::new() };
        proof {
            assert(s.snapshots() =~= Seq::<Map<Seq<u8>, Seq<u8>>>::empty());
        }
        s
    }
}

impl Db {
    /// Takes a consistent, point-in-time snapshot of the open keyspace and
    /// appends it to `store`. The in-memory state is flushed first, so the
    /// snapshot carries everything written so far; prior backups are kept.
    pub fn create_backup(&mut self, store: &mut BackupStore) -> (r: Result<(), KvError>)
        requires
            old(self).wf(),
            old(store).wf(),
        ensures
            final (self).wf(),
            final (store).wf(),
            final (self).read_only == old(self).read_only,
            final (self).secondary == old(self).secondary,
            final (self).background_active == old(self).background_active,
            final (self).is_open() == old(self).is_open(),
            final (self).keyspace == old(self).keyspace,
            !old(self).is_open() ==> r == Err::<(), KvError>(KvError::NotOpenFailure) && *final(self) == *old(self) && *final (store) == *old(store),
            old(self).is_open() ==> r == Ok::<(), KvError>(()) && final (store).snapshots() == old(store).snapshots().push(old(self).contents()) && final (self).durable@ == old(self).contents(),
    {
        match &self.keyspace {
            Some(ks) => {
                let snap = ks.duplicate();
                store.backups.push(snap);
                proof {
                    assert(store.snapshots() =~= old(store).snapshots().push(ks.contents()));
                }
                self.durable = Ghost(self.contents());
                Ok(())
            },
            None => Err(KvError::NotOpenFailure),
        }
    }

    /// Selects the most recently completed backup at `store` and
    /// materializes it as a fresh keyspace, ready to be opened with
    /// `Db::open_from`; no open handle is involved or produced. Fails with
    /// `RestoreFailure` when no backup exists.
    pub fn restore_latest_backup(store: &BackupStore) -> (r: Result<Keyspace, KvError>)
        requires
            store.wf(),
        ensures
            store.snapshots().len() == 0 ==> r is Err && (r matches Err(e) && e
                == KvError::RestoreFailure),
            store.snapshots().len() > 0 ==> match r {
                Ok(ks) => ks.wf() && ks.contents() == store.snapshots().last(),
                Err(_) => false,
            },
    {
        if store.backups.len() == 0 {
            return Err(KvError::RestoreFailure);
        }
        let last = store.backups.len() - 1;
        let ks = store.backups[last].duplicate();
        proof {
            assert(store.snapshots()[last as int] == store.backups@[last as int].contents());
        }
        Ok(ks)
    }
}

} // verus!
