use vstd::prelude::*;
use crate::keyspace::Keyspace;

verus! {

/// A pending mutation, recorded by a batch but not yet applied.
pub enum BatchOp {
    Put { key: Vec<u8>, value: Vec<u8> },
    Delete { key: Vec<u8> },
}

/// The mathematical form of a pending mutation.
pub enum KvOp {
    Put(Seq<u8>, Seq<u8>),
    Delete(Seq<u8>),
}

impl View for BatchOp {
    type V = KvOp;

    open spec fn view(&self) -> KvOp {
        match self {
            BatchOp::Put { key, value } => KvOp::Put(key@, value@),
            BatchOp::Delete { key } => KvOp::Delete(key@),
        }
    }
}

/// Effect of one mutation on a keyspace map.
pub open spec fn apply_op(m: Map<Seq<u8>, Seq<u8>>, op: KvOp) -> Map<Seq<u8>, Seq<u8>> {
    match op {
        KvOp::Put(k, v) => m.insert(k, v),
        KvOp::Delete(k) => m.remove(k),
    }
}

/// Effect of a sequence of mutations, applied in order; for keys that
/// collide, the last mutation wins.
pub open spec fn apply_ops(m: Map<Seq<u8>, Seq<u8>>, ops: Seq<KvOp>) -> Map<Seq<u8>, Seq<u8>>
    decreases ops.len(),
{
    if ops.len() == 0 {
        m
    } else {
        apply_op(apply_ops(m, ops.drop_last()), ops.last())
    }
}

/// The mutation views of a recorded operation sequence.
pub open spec fn ops_of(s: Seq<BatchOp>) -> Seq<KvOp> {
    s.map_values(|op: BatchOp| op@)
}

/// An ordered, append-only collection of pending mutations, applied
/// atomically by `Db::write` and emptied by it.
pub struct WriteBatch {
    pub ops: Vec<BatchOp>,
}

impl WriteBatch {
    /// The pending mutations, in insertion order.
    pub open spec fn pending(self) -> Seq<KvOp> {
        ops_of(self.ops@)
    }

    /// An empty batch.
    pub fn new() -> (b: WriteBatch)
        ensures
            b.pending() == Seq::<KvOp>::empty(),
    {
        let b = WriteBatch { ops: Vec::new() };
        proof {
            assert(b.pending() =~= Seq::<KvOp>::empty());
        }
        b
    }

    /// Appends a put entry; storage is not touched.
    pub fn add(&mut self, key: &Vec<u8>, value: &Vec<u8>)
        ensures
            final (self).pending() == old(self).pending().push(KvOp::Put(key@, value@)),
    {
        let op = BatchOp::Put { key: crate::keyspace::copy_bytes(key), value: crate::keyspace::copy_bytes(value) };
        self.ops.push(op);
        proof {
            assert(self.pending() =~= old(self).pending().push(KvOp::Put(key@, value@)));
        }
    }

    /// Appends a delete entry; storage is not touched.
    pub fn delete(&mut self, key: &Vec<u8>)
        ensures
            final (self).pending() == old(self).pending().push(KvOp::Delete(key@)),
    {
        let op = BatchOp::Delete { key: crate::keyspace::copy_bytes(key) };
        self.ops.push(op);
        proof {
            assert(self.pending() =~= old(self).pending().push(KvOp::Delete(key@)));
        }
    }

    /// Number of pending mutations.
    pub fn len(&self) -> (n: usize)
        ensures
            n == self.pending().len(),
    {
        self.ops.len()
    }
}

impl Keyspace {
    /// Applies a sequence of mutations in order.
    pub fn apply_batch(&mut self, ops: &Vec<BatchOp>)
        requires
            old(self).wf(),
        ensures
            final (self).wf(),
            final (self).contents() == apply_ops(old(self).contents(), ops_of(ops@)),
    {
        let mut i: usize = 0;
        while i < ops.len()
            invariant
                self.wf(),
                0 <= i <= ops@.len(),
                self.contents() == apply_ops(old(self).contents(), ops_of(ops@).take(i as int)),
            decreases ops@.len() - i,
        {
            let ghost before = self.contents();
            match &ops[i] {
                BatchOp::Put { key, value } => {
                    self.set(key, value);
                },
                BatchOp::Delete { key } => {
                    self.delete(key);
                },
            }
            proof {
                let kv = ops_of(ops@);
                assert(kv[i as int] == ops@[i as int]@);
                assert(kv.take(i + 1 as int).drop_last() =~= kv.take(i as int));
                assert(kv.take(i + 1 as int).last() == kv[i as int]);
                assert(self.contents() == apply_op(before, kv[i as int]));
            }
            i += 1;
        }
        proof {
            assert(ops_of(ops@).take(ops@.len() as int) =~= ops_of(ops@));
        }
    }
}

} // verus!
