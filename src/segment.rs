use vstd::prelude::*;

verus! {

/// Pairs each record with the offset id at the same position.
pub open spec fn tag_records<R>(records: Seq<R>, offset_ids: Seq<Option<u32>>) -> Seq<(R, Option<u32>)>
    recommends
        records.len() == offset_ids.len(),
{
    Seq::new(records.len(), |i: int| (records[i], offset_ids[i]))
}

/// Transactional, batched ingestion of records into a segment.
///
/// A writer is idle or in a transaction. Records written during a transaction
/// are pending: a commit makes all of them visible at once, a rollback
/// discards all of them. Beginning a transaction while one is open is not
/// allowed.
pub trait SegmentWriter<R>: Sized {
    /// The records made visible by committed transactions, each with its
    /// offset id, in the order they were written.
    spec fn visible(&self) -> Seq<(R, Option<u32>)>;

    /// The records written in the open transaction, in order.
    spec fn pending(&self) -> Seq<(R, Option<u32>)>;

    /// Whether a transaction is open.
    spec fn in_transaction(&self) -> bool;

    /// The writer's internal consistency.
    spec fn wf(&self) -> bool;

    /// Opens a transaction on an idle writer.
    fn begin_transaction(&mut self)
        requires
            old(self).wf(),
            !old(self).in_transaction(),
        ensures
            final(self).wf(),
            final(self).in_transaction(),
            final(self).pending() == Seq::<(R, Option<u32>)>::empty(),
            final(self).visible() == old(self).visible(),
    ;

    /// Adds `records` to the open transaction, the record at each index tagged
    /// with the offset id at that index.
    fn write_records(&mut self, records: Vec<R>, offset_ids: Vec<Option<u32>>)
        requires
            old(self).wf(),
            old(self).in_transaction(),
            records@.len() == offset_ids@.len(),
        ensures
            final(self).wf(),
            final(self).in_transaction(),
            final(self).pending() == old(self).pending() + tag_records(records@, offset_ids@),
            final(self).visible() == old(self).visible(),
    ;

    /// Makes every pending record visible at once and closes the transaction.
    fn commit_transaction(&mut self)
        requires
            old(self).wf(),
            old(self).in_transaction(),
        ensures
            final(self).wf(),
            !final(self).in_transaction(),
            final(self).pending() == Seq::<(R, Option<u32>)>::empty(),
            final(self).visible() == old(self).visible() + old(self).pending(),
    ;

    /// Discards every pending record and closes the transaction. Like the
    /// other transaction operations it takes exclusive access, since it
    /// changes the writer's state.
    fn rollback_transaction(&mut self)
        requires
            old(self).wf(),
            old(self).in_transaction(),
        ensures
            final(self).wf(),
            !final(self).in_transaction(),
            final(self).pending() == Seq::<(R, Option<u32>)>::empty(),
            final(self).visible() == old(self).visible(),
    ;
}

/// `after` is what `begin_transaction` leaves of `before`, by its contract:
/// a transaction is open with nothing pending, and what is visible is
/// unchanged.
pub open spec fn began<R, W: SegmentWriter<R>>(before: W, after: W) -> bool {
    &&& after.in_transaction()
    &&& after.pending() == Seq::<(R, Option<u32>)>::empty()
    &&& after.visible() == before.visible()
}

/// `after` is what `write_records` of `records`, tagged with `offset_ids`,
/// leaves of `before`, by its contract: the tagged records are pending after
/// those pending before, and what is visible is unchanged.
pub open spec fn wrote<R, W: SegmentWriter<R>>(
    before: W,
    records: Seq<R>,
    offset_ids: Seq<Option<u32>>,
    after: W,
) -> bool {
    &&& after.in_transaction()
    &&& after.pending() == before.pending() + tag_records(records, offset_ids)
    &&& after.visible() == before.visible()
}

/// `after` is what `commit_transaction` leaves of `before`, by its contract:
/// all pending records are visible, after those visible before, and no
/// transaction is open.
pub open spec fn committed<R, W: SegmentWriter<R>>(before: W, after: W) -> bool {
    &&& !after.in_transaction()
    &&& after.pending() == Seq::<(R, Option<u32>)>::empty()
    &&& after.visible() == before.visible() + before.pending()
}

/// `after` is what `rollback_transaction` leaves of `before`, by its
/// contract: the pending records are discarded, what is visible is unchanged,
/// and no transaction is open.
pub open spec fn rolled_back<R, W: SegmentWriter<R>>(before: W, after: W) -> bool {
    &&& !after.in_transaction()
    &&& after.pending() == Seq::<(R, Option<u32>)>::empty()
    &&& after.visible() == before.visible()
}

/// A transaction is atomic. Begin a transaction on an idle writer and write a
/// batch in it: committing then makes every record of the batch visible, each
/// with its offset id and in order, after what was visible before; rolling
/// back instead makes none of them visible.
pub proof fn lemma_transaction_atomicity<R, W: SegmentWriter<R>>(
    idle: W,
    open: W,
    written: W,
    records: Seq<R>,
    offset_ids: Seq<Option<u32>>,
    after_commit: W,
    after_rollback: W,
)
    requires
        !idle.in_transaction(),
        records.len() == offset_ids.len(),
        began(idle, open),
        wrote(open, records, offset_ids, written),
        committed(written, after_commit),
        rolled_back(written, after_rollback),
    ensures
        after_commit.visible() == idle.visible() + tag_records(records, offset_ids),
        forall|i: int| 0 <= i < records.len() ==>
            #[trigger] after_commit.visible()[idle.visible().len() + i] == (records[i], offset_ids[i]),
        after_rollback.visible() == idle.visible(),
{
    assert(written.pending() =~= tag_records(records, offset_ids));
}

/// A segment writer that also computes the offset ids of a batch.
pub trait OffsetIdAssigner<R>: SegmentWriter<R> {
    /// The id this writer gives to the record at position `i` of a batch.
    spec fn spec_offset_id(&self, i: int) -> Option<u32>;

    /// One offset id for each record, in the order of the records.
    fn assign_offset_ids(&self, records: &Vec<R>) -> (r: Vec<Option<u32>>)
        requires
            self.wf(),
        ensures
            r@.len() == records@.len(),
            forall|i: int| 0 <= i < r@.len() ==> r@[i] == self.spec_offset_id(i),
    ;
}

/// An in-memory segment writer: committed records and their offset ids in
/// parallel vectors, and the open transaction's records likewise.
pub struct MemorySegmentWriter<R> {
    records: Vec<R>,
    offset_ids: Vec<Option<u32>>,
    pending_records: Vec<R>,
    pending_offset_ids: Vec<Option<u32>>,
    open: bool,
}

impl<R> MemorySegmentWriter<R> {
    /// The number of records written so far, committed or pending.
    pub open spec fn written(&self) -> nat {
        self.visible().len() + self.pending().len()
    }

    /// An idle writer with nothing written.
    pub fn new() -> (r: Self)
        ensures
            r.wf(),
            !r.in_transaction(),
            r.visible() == Seq::<(R, Option<u32>)>::empty(),
            r.pending() == Seq::<(R, Option<u32>)>::empty(),
    {
        let r = MemorySegmentWriter {
            records: Vec::new(),
            offset_ids: Vec::new(),
            pending_records: Vec::new(),
            pending_offset_ids: Vec::new(),
            open: false,
        };
        assert(r.visible() =~= Seq::<(R, Option<u32>)>::empty());
        assert(r.pending() =~= Seq::<(R, Option<u32>)>::empty());
        r
    }

    pub fn is_in_transaction(&self) -> (r: bool)
        ensures
            r == self.in_transaction(),
    {
        self.open
    }

    /// The number of visible records.
    pub fn visible_len(&self) -> (r: usize)
        requires
            self.wf(),
        ensures
            r == self.visible().len(),
    {
        self.records.len()
    }

    /// The visible record at position `i`, with its offset id.
    pub fn visible_record(&self, i: usize) -> (r: (&R, Option<u32>))
        requires
            self.wf(),
            i < self.visible().len(),
        ensures
            *r.0 == self.visible()[i as int].0,
            r.1 == self.visible()[i as int].1,
    {
        (&self.records[i], self.offset_ids[i])
    }
}

impl<R> SegmentWriter<R> for MemorySegmentWriter<R> {
    closed spec fn visible(&self) -> Seq<(R, Option<u32>)> {
        tag_records(self.records@, self.offset_ids@)
    }

    closed spec fn pending(&self) -> Seq<(R, Option<u32>)> {
        tag_records(self.pending_records@, self.pending_offset_ids@)
    }

    closed spec fn in_transaction(&self) -> bool {
        self.open
    }

    closed spec fn wf(&self) -> bool {
        &&& self.records@.len() == self.offset_ids@.len()
        &&& self.pending_records@.len() == self.pending_offset_ids@.len()
        &&& !self.open ==> self.pending_records@.len() == 0
    }

    /// Opens a transaction on an idle writer.
    fn begin_transaction(&mut self) {
        self.open = true;
        assert(self.pending() =~= Seq::<(R, Option<u32>)>::empty());
    }

    fn write_records(&mut self, records: Vec<R>, offset_ids: Vec<Option<u32>>) {
        let ghost before = self.pending();
        let mut records = records;
        let mut offset_ids = offset_ids;
        let ghost batch = tag_records(records@, offset_ids@);
        self.pending_records.append(&mut records);
        self.pending_offset_ids.append(&mut offset_ids);
        assert(self.pending() =~= before + batch);
    }

    /// Makes every pending record visible at once and closes the transaction.
    fn commit_transaction(&mut self) {
        let ghost before = self.visible();
        let ghost batch = self.pending();
        self.records.append(&mut self.pending_records);
        self.offset_ids.append(&mut self.pending_offset_ids);
        self.open = false;
        assert(self.visible() =~= before + batch);
        assert(self.pending() =~= Seq::<(R, Option<u32>)>::empty());
    }

    /// Discards every pending record and closes the transaction. Like the
    /// other transaction operations it takes exclusive access, since it
    /// changes the writer's state.
    fn rollback_transaction(&mut self) {
        self.pending_records.clear();
        self.pending_offset_ids.clear();
        self.open = false;
        assert(self.pending() =~= Seq::<(R, Option<u32>)>::empty());
    }
}

impl<R> OffsetIdAssigner<R> for MemorySegmentWriter<R> {
    /// Ids continue the count of records written so far, committed or
    /// pending; a position whose id would not fit in a `u32` gets none.
    closed spec fn spec_offset_id(&self, i: int) -> Option<u32> {
        if self.written() + i <= u32::MAX {
            Some((self.written() + i) as u32)
        } else {
            None
        }
    }

    fn assign_offset_ids(&self, records: &Vec<R>) -> (r: Vec<Option<u32>>) {
        let base: usize = self.records.len();
        let mut ids: Vec<Option<u32>> = Vec::new();
        let mut i: usize = 0;
        while i < records.len()
            invariant
                i <= records@.len(),
                ids@.len() == i,
                base == self.records@.len(),
                forall|j: int| 0 <= j < i ==> ids@[j] == self.spec_offset_id(j),
            decreases records@.len() - i,
        {
            let pending: usize = self.pending_records.len();
            let max: usize = u32::MAX as usize;
            let id: Option<u32> = if base <= max && pending <= max - base && i <= max - base - pending {
                Some((base + pending + i) as u32)
            } else {
                None
            };
            ids.push(id);
            i += 1;
        }
        ids
    }
}

} // verus!
