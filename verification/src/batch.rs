//! Write batches of the key-value store, the serialization of rows, and the
//! write buffer that stands between the import pipelines and durable
//! storage.

use vstd::prelude::*;
use kvdb::DBTransaction;

verus! {

/// The write batch of the key-value store. Its operations are read through
/// [`batch_ops`].
#[verifier::external_type_specification]
#[verifier::external_body]
pub struct ExDBTransaction(DBTransaction);

/// Marks an insert among the operations of a batch.
pub const OP_INSERT: u8 = 0;

/// The operations that a batch holds, in the order in which they were
/// added: for each the kind (0 for an insert, 1 for a delete, 2 for a delete
/// by prefix), the column, the key or prefix, and the value (empty but for
/// an insert).
pub uninterp spec fn batch_ops(batch: DBTransaction) -> Seq<(u8, u32, Seq<u8>, Seq<u8>)>;

/// What `rlp::encode_list` returns for a list of byte strings: the RLP
/// encoding of the list whose items are those strings.
pub uninterp spec fn rlp_list(items: Seq<Seq<u8>>) -> Seq<u8>;

/// `DBTransaction::new`: a batch that holds no operation.
#[verifier::external_body]
pub(crate) fn new_batch() -> (batch: DBTransaction)
    ensures
        batch_ops(batch) == Seq::<(u8, u32, Seq<u8>, Seq<u8>)>::empty(),
{
    DBTransaction::new()
}

/// `DBTransaction::put`: the batch as it was, with one insert of `value`
/// under `key` in column `col` added at the end.
#[verifier::external_body]
pub(crate) fn batch_put(batch: &mut DBTransaction, col: u32, key: &Vec<u8>, value: &Vec<u8>)
    ensures
        batch_ops(*final(batch)) == batch_ops(*old(batch)).push((OP_INSERT, col, key@, value@)),
{
    batch.put(col, key, value)
}

/// `rlp::encode_list` on byte strings: the RLP encoding of the list of
/// `items`, which depends on the items alone.
#[verifier::external_body]
pub(crate) fn rlp_encode_list(items: &Vec<Vec<u8>>) -> (out: Vec<u8>)
    ensures
        out@ == rlp_list(items.deep_view()),
{
    rlp::encode_list::<Vec<u8>, Vec<u8>>(items).to_vec()
}

/// The operations of a sequence of batches, one batch after the other.
pub open spec fn all_ops(batches: Seq<DBTransaction>) -> Seq<(u8, u32, Seq<u8>, Seq<u8>)>
    decreases batches.len(),
{
    if batches.len() == 0 {
        Seq::empty()
    } else {
        all_ops(batches.drop_last()) + batch_ops(batches.last())
    }
}

/// `tail` is the end of `all`.
pub open spec fn ends_with(
    all: Seq<(u8, u32, Seq<u8>, Seq<u8>)>,
    tail: Seq<(u8, u32, Seq<u8>, Seq<u8>)>,
) -> bool {
    tail.len() <= all.len() && all.subrange(all.len() - tail.len(), all.len() as int) == tail
}

/// The receipt of a write: what the chain store asks for before it
/// publishes what it holds pending.
pub struct Written {
    ops: Ghost<Seq<(u8, u32, Seq<u8>, Seq<u8>)>>,
}

impl Written {
    /// The operations of the batch that was written.
    pub closed spec fn ops(&self) -> Seq<(u8, u32, Seq<u8>, Seq<u8>)> {
        self.ops@
    }
}

/// The write buffer of the key-value store: batches that were written but
/// not yet flushed, and batches that a flush has made durable, each in the
/// order of arrival.
pub struct Database {
    pub buffered: Vec<DBTransaction>,
    pub durable: Vec<DBTransaction>,
}

impl Database {
    /// A store that holds nothing.
    pub fn new() -> (db: Database)
        ensures
            db.buffered@.len() == 0,
            db.durable@.len() == 0,
    {
        Database { buffered: Vec::new(), durable: Vec::new() }
    }

    /// Every operation that the store has taken, durable ones first.
    pub open spec fn ops(self) -> Seq<(u8, u32, Seq<u8>, Seq<u8>)> {
        all_ops(self.durable@ + self.buffered@)
    }

    /// Takes a batch into the buffer and returns the receipt. Durability
    /// waits for the next flush.
    pub fn write_buffered(&mut self, batch: DBTransaction) -> (written: Written)
        ensures
            final(self).buffered@ == old(self).buffered@.push(batch),
            final(self).durable@ == old(self).durable@,
            final(self).ops() == old(self).ops() + batch_ops(batch),
            written.ops() == batch_ops(batch),
    {
        proof {
            let all = self.durable@ + self.buffered@.push(batch);
            assert(all.drop_last() =~= self.durable@ + self.buffered@);
            assert(all.last() == batch);
        }
        let written = Written { ops: Ghost(batch_ops(batch)) };
        self.buffered.push(batch);
        written
    }

    /// Makes every buffered batch durable, in order.
    pub fn flush(&mut self)
        ensures
            final(self).durable@ == old(self).durable@ + old(self).buffered@,
            final(self).buffered@.len() == 0,
            final(self).ops() == old(self).ops(),
    {
        let ghost before = self.durable@ + self.buffered@;
        self.durable.append(&mut self.buffered);
        proof {
            assert(self.durable@ + self.buffered@ =~= before);
        }
    }
}

} // verus!
