#![verifier::loop_isolation(false)]

use vstd::prelude::*;

use crate::batch::{Batch, Schema};
use crate::error::WriterError;
use crate::partition::{key_eq, PartitionKey, PartitionSpec, PartitionType, PartitionValue};
use crate::splitter::{FieldProjector, PartitionSplitter};

verus! {

/// An output artifact description produced by an inner writer's finalize;
/// its partition attribute is overwritten exactly once by the fanout writer.
#[derive(Clone, Debug, PartialEq)]
pub struct ResultRecord {
    pub partition: Option<PartitionValue>,
    pub row_count: usize,
}

impl ResultRecord {
    /// Overwrite the partition attribute, leaving the rest untouched.
    pub fn set_partition(&mut self, partition: Option<PartitionValue>)
        ensures
            final(self).partition == partition,
            final(self).row_count == old(self).row_count,
    {
        self.partition = partition;
    }
}

/// Stamp every record with one partition value: the output holds exactly
/// the input records, in order, each with its partition attribute
/// overwritten by the given value and everything else kept.
pub fn stamp_records(records: Vec<ResultRecord>, value: &PartitionValue) -> (out: Vec<
    ResultRecord,
>)
    ensures
        out@.len() == records@.len(),
        forall|p: int|
            0 <= p < out@.len() ==> {
                &&& (#[trigger] out@[p]).row_count == records@[p].row_count
                &&& (out@[p].partition matches Some(pv) && pv@ == value@)
            },
{
    let ghost orig = records@;
    let mut out = records;
    let mut p: usize = 0;
    while p < out.len()
        invariant
            out@.len() == orig.len(),
            p <= out@.len(),
            forall|q: int| p <= q < out@.len() ==> out@[q] == orig[q],
            forall|q: int|
                0 <= q < p ==> {
                    &&& (#[trigger] out@[q]).row_count == orig[q].row_count
                    &&& (out@[q].partition matches Some(pv) && pv@ == value@)
                },
        decreases out@.len() - p,
    {
        let stamp = value.clone();
        out[p].set_partition(Some(stamp));
        p += 1;
    }
    out
}

/// The per-partition writer contract. Implementations are external
/// collaborators: nothing is promised of their behaviour here.
pub trait IcebergWriter: Sized {
    /// Deliver one batch to this writer; may fail.
    fn write(&mut self, batch: Batch) -> Result<(), WriterError>;

    /// Finalize, yielding zero or more result records; may fail.
    fn flush(&mut self) -> Result<Vec<ResultRecord>, WriterError>;
}

/// The per-partition writer factory contract, duplicable so that one
/// instance can be spawned per partition key on demand.
pub trait IcebergWriterBuilder: Sized + Clone {
    type R: IcebergWriter;

    /// Build one inner writer against the schema; may fail.
    fn build(&self, schema: &Schema) -> Result<Self::R, WriterError>;
}

/// A snapshot of the fanout writer's observable state: the number of open,
/// not-yet-flushed partitions.
pub struct FanoutPartitionedWriterMetrics {
    pub partition_num: usize,
}

/// The set of partition keys derived from the rows of a batch.
pub open spec fn batch_key_set(s: PartitionSplitter, b: Batch) -> Set<Seq<i64>> {
    Set::new(
        |k: Seq<i64>|
            exists|i: int| 0 <= i < b.num_rows() && #[trigger] s.row_key(b, i) == k,
    )
}

/// Configuration for a fanout partitioned writer: the inner writer factory,
/// the declared partition type, and the partition spec.
#[derive(Clone)]
pub struct FanoutPartitionedWriterBuilder<B: IcebergWriterBuilder> {
    pub inner: B,
    pub partition_type: PartitionType,
    pub partition_spec: PartitionSpec,
}

impl<B: IcebergWriterBuilder> FanoutPartitionedWriterBuilder<B> {
    pub fn new(inner: B, partition_type: PartitionType, partition_spec: PartitionSpec) -> (r:
        Self)
        ensures
            r.inner == inner,
            r.partition_type == partition_type,
            r.partition_spec == partition_spec,
    {
        Self { inner, partition_type, partition_spec }
    }

    /// Validate the partition spec against the target schema and construct
    /// an empty fanout writer around a partition splitter. Fails exactly
    /// when a declared source column is absent from the schema.
    pub fn build(self, schema: Schema) -> (r: Result<FanoutPartitionedWriter<B>, WriterError>)
        ensures
            match r {
                Ok(w) => {
                    &&& w.wf()
                    &&& w.inner_writers@.len() == 0
                    &&& w.partition_splitter.partition_spec == self.partition_spec
                    &&& w.partition_splitter.partition_type == self.partition_type
                    &&& w.schema == schema
                    &&& w.inner_builder == self.inner
                    &&& forall|k: int|
                        0 <= k < self.partition_spec.fields@.len() ==> schema.has_column(
                            (#[trigger] self.partition_spec.fields@[k]).source_column_id,
                        )
                },
                Err(e) => {
                    &&& e == WriterError::SchemaMismatch
                    &&& exists|k: int|
                        0 <= k < self.partition_spec.fields@.len() && !schema.has_column(
                            (#[trigger] self.partition_spec.fields@[k]).source_column_id,
                        )
                },
            },
    {
        let column_ids = self.partition_spec.column_ids();
        let projector = match FieldProjector::new(&schema, &column_ids) {
            Ok(p) => p,
            Err(e) => {
                return Err(e);
            },
        };
        proof {
            assert forall|k: int|
                0 <= k < self.partition_spec.fields@.len() implies schema.has_column(
                (#[trigger] self.partition_spec.fields@[k]).source_column_id,
            ) by {
                assert(column_ids@[k] == self.partition_spec.fields@[k].source_column_id);
                assert(schema.has_column(column_ids@[k]));
            }
        }
        let splitter = match PartitionSplitter::try_new(
            projector,
            self.partition_spec,
            self.partition_type,
        ) {
            Ok(s) => s,
            Err(e) => {
                return Err(e);
            },
        };
        Ok(
            FanoutPartitionedWriter {
                inner_writers: Vec::new(),
                partition_splitter: splitter,
                inner_builder: self.inner,
                schema,
            },
        )
    }
}

/// Routes each split row group to the inner writer for its partition key,
/// creating inner writers lazily and draining them all at flush.
pub struct FanoutPartitionedWriter<B: IcebergWriterBuilder> {
    pub inner_writers: Vec<(PartitionKey, B::R)>,
    pub partition_splitter: PartitionSplitter,
    pub inner_builder: B,
    pub schema: Schema,
}

impl<B: IcebergWriterBuilder> FanoutPartitionedWriter<B> {
    /// The open partitions' keys, in creation order.
    pub open spec fn key_seq(self) -> Seq<Seq<i64>> {
        Seq::new(self.inner_writers@.len(), |g: int| self.inner_writers@[g].0@)
    }

    /// The set of open partitions' keys.
    pub open spec fn key_set(self) -> Set<Seq<i64>> {
        Set::new(|k: Seq<i64>| self.key_seq().contains(k))
    }

    /// At most one inner writer per distinct key; every key as wide as the
    /// spec's field list; splitter and schema agree.
    pub open spec fn wf(self) -> bool {
        &&& self.partition_splitter.wf()
        &&& self.partition_splitter.projector.wf_for(self.schema.columns@.len() as int)
        &&& forall|g1: int, g2: int|
            0 <= g1 < g2 < self.inner_writers@.len() ==> self.inner_writers@[g1].0@
                != self.inner_writers@[g2].0@
        &&& forall|g: int|
            0 <= g < self.inner_writers@.len() ==> (#[trigger] self.inner_writers@[g].0)@.len()
                == self.partition_splitter.partition_spec.fields@.len()
    }

    /// A batch routable by this writer: equally long columns, carrying at
    /// least the schema's columns.
    pub open spec fn accepts(self, b: Batch) -> bool {
        &&& b.wf()
        &&& b.num_columns() >= self.schema.columns@.len()
    }

    /// Split the batch and deliver each row group to the inner writer for
    /// its key, creating missing inner writers from the builder template.
    /// On success the open partitions are exactly the old ones plus the
    /// batch's keys; a split failure leaves the writer untouched; an inner
    /// writer failure aborts the rest of the call, and row groups already
    /// delivered stay applied.
    pub fn write(&mut self, batch: Batch) -> (r: Result<(), WriterError>)
        requires
            old(self).wf(),
            old(self).accepts(batch),
        ensures
            final(self).wf(),
            final(self).partition_splitter == old(self).partition_splitter,
            final(self).schema == old(self).schema,
            final(self).inner_builder == old(self).inner_builder,
            old(self).inner_writers@.len() <= final(self).inner_writers@.len(),
            forall|k: Seq<i64>|
                old(self).key_set().contains(k) ==> final(self).key_set().contains(k),
            forall|k: Seq<i64>|
                final(self).key_set().contains(k) ==> old(self).key_set().contains(k)
                    || batch_key_set(old(self).partition_splitter, batch).contains(k),
            r is Ok ==> old(self).partition_splitter.batch_ok(batch),
            r is Ok ==> final(self).key_set() == old(self).key_set().union(
                batch_key_set(old(self).partition_splitter, batch),
            ),
            batch.num_rows() == 0 ==> r is Ok && *final(self) == *old(self),
            !old(self).partition_splitter.batch_ok(batch) ==> r == Err::<(), WriterError>(
                WriterError::TransformError,
            ) && *final(self) == *old(self),
    {
        let ghost old_self = *self;
        let ghost bks = batch_key_set(old(self).partition_splitter, batch);
        let n_rows_probe: usize = if batch.columns.len() == 0 {
            0
        } else {
            batch.columns[0].len()
        };
        proof {
            assert(batch.num_rows() == n_rows_probe as int);
        }
        let mut groups = match self.partition_splitter.split_by_partition(&batch) {
            Ok(g) => g,
            Err(e) => {
                return Err(e);
            },
        };
        let ghost all_groups = groups@;
        proof {
            // a batch without rows yields no groups: every group's bucket
            // would have to be non-empty
            if batch.num_rows() == 0 && all_groups.len() > 0 {
                assert(old_self.partition_splitter.rows_with_key(batch, all_groups[0].0@).len()
                    > 0);
                assert(old_self.partition_splitter.rows_with_key_upto(batch, all_groups[0].0@, 0)
                    == Seq::<usize>::empty());
                assert(false);
            }
            // every group key is some row's key, hence a batch key
            assert forall|g: int| 0 <= g < all_groups.len() implies bks.contains(
                (#[trigger] all_groups[g]).0@,
            ) by {
                let s = old_self.partition_splitter;
                s.lemma_rows_upto_props(batch, all_groups[g].0@, batch.num_rows());
                let rows = s.rows_with_key(batch, all_groups[g].0@);
                assert(rows.len() > 0);
                assert(s.row_key(batch, rows[0] as int) == all_groups[g].0@);
            }
            // every batch key is some group's key
            assert forall|k: Seq<i64>| bks.contains(k) implies exists|g: int|
                0 <= g < all_groups.len() && (#[trigger] all_groups[g]).0@ == k by {
                let i = choose|i: int|
                    0 <= i < batch.num_rows() && old_self.partition_splitter.row_key(batch, i)
                        == k;
                assert(PartitionSplitter::group_keys(all_groups).contains(
                    old_self.partition_splitter.row_key(batch, i),
                ));
                let g = choose|g: int|
                    0 <= g < PartitionSplitter::group_keys(all_groups).len()
                        && PartitionSplitter::group_keys(all_groups)[g] == k;
                assert(all_groups[g].0@ == k);
            }
        }
        proof {
            assert(groups@ =~= all_groups.take(groups@.len() as int));
        }
        while groups.len() > 0
            invariant
                self.wf(),
                self.partition_splitter == old_self.partition_splitter,
                self.schema == old_self.schema,
                self.inner_builder == old_self.inner_builder,
                old_self.inner_writers@.len() <= self.inner_writers@.len(),
                groups@.len() <= all_groups.len(),
                groups@ == all_groups.take(groups@.len() as int),
                batch.num_rows() == 0 ==> *self == old_self,
                forall|g: int|
                    0 <= g < all_groups.len() ==> (#[trigger] all_groups[g]).0@.len()
                        == self.partition_splitter.partition_spec.fields@.len(),
                forall|g: int| 0 <= g < all_groups.len() ==> bks.contains(
                    (#[trigger] all_groups[g]).0@),
                forall|k: Seq<i64>|
                    old_self.key_set().contains(k) ==> self.key_set().contains(k),
                forall|k: Seq<i64>|
                    self.key_set().contains(k) ==> old_self.key_set().contains(k)
                        || bks.contains(k),
                forall|k: Seq<i64>|
                    bks.contains(k) ==> self.key_set().contains(k) || exists|g: int|
                        0 <= g < groups@.len() && (#[trigger] groups@[g]).0@ == k,
            decreases groups@.len(),
        {
            let ghost pre_groups = groups@;
            let pair = groups.pop().unwrap();
            let key = pair.0;
            let sub = pair.1;
            proof {
                assert(pre_groups.len() > 0);
                assert(pre_groups == all_groups.take(pre_groups.len() as int));
                assert(pair == pre_groups[pre_groups.len() - 1]);
                assert(key == all_groups[pre_groups.len() - 1].0);
                assert(groups@ =~= all_groups.take(groups@.len() as int));
            }
            let mut idx: usize = 0;
            let mut found: bool = false;
            let n_writers: usize = self.inner_writers.len();
            while idx < n_writers && !found
                invariant
                    n_writers == self.inner_writers@.len(),
                    idx <= n_writers,
                    found ==> idx < n_writers && self.inner_writers@[idx as int].0@ == key@,
                    !found ==> forall|g2: int|
                        0 <= g2 < idx ==> self.inner_writers@[g2].0@ != key@,
                decreases n_writers - idx + (if found {
                    0int
                } else {
                    1int
                }),
            {
                if key_eq(&self.inner_writers[idx].0, &key) {
                    found = true;
                } else {
                    idx += 1;
                }
            }
            let ghost pre = *self;
            if found {
                let res = self.inner_writers[idx].1.write(sub);
                proof {
                    assert(self.inner_writers@[idx as int].0
                        == pre.inner_writers@[idx as int].0);
                    assert(self.key_seq() =~= pre.key_seq());
                    assert(self.key_set() =~= pre.key_set());
                    assert(self.key_seq()[idx as int] == key@);
                    assert(self.key_set().contains(key@));
                }
                match res {
                    Ok(_) => {},
                    Err(e) => {
                        return Err(e);
                    },
                }
            } else {
                let new_writer = match self.inner_builder.build(&self.schema) {
                    Ok(w) => w,
                    Err(e) => {
                        return Err(e);
                    },
                };
                self.inner_writers.push((key, new_writer));
                proof {
                    assert(self.key_seq() =~= pre.key_seq().push(
                        self.inner_writers@.last().0@,
                    ));
                    assert forall|k: Seq<i64>| self.key_set().contains(k) implies
                        pre.key_set().contains(k) || k
                        == self.inner_writers@.last().0@ by {
                        let g2 = choose|g2: int|
                            0 <= g2 < self.key_seq().len() && self.key_seq()[g2] == k;
                        if g2 < pre.key_seq().len() {
                            assert(pre.key_seq()[g2] == k);
                        }
                    }
                    assert(self.key_seq()[self.key_seq().len() - 1]
                        == self.inner_writers@.last().0@);
                    assert(self.key_set().contains(self.inner_writers@.last().0@));
                }
                let last: usize = self.inner_writers.len() - 1;
                let res = self.inner_writers[last].1.write(sub);
                proof {
                    assert(self.inner_writers@[last as int].0
                        == pre.inner_writers@.push((key, new_writer))[last as int].0);
                    assert(self.key_seq() =~= pre.key_seq().push(key@));
                    assert forall|k: Seq<i64>| pre.key_set().contains(k) implies
                        self.key_set().contains(k) by {
                        let g2 = choose|g2: int|
                            0 <= g2 < pre.key_seq().len() && pre.key_seq()[g2] == k;
                        assert(self.key_seq()[g2] == k);
                    }
                    assert forall|k: Seq<i64>| self.key_set().contains(k) implies
                        pre.key_set().contains(k) || k == key@ by {
                        let g2 = choose|g2: int|
                            0 <= g2 < self.key_seq().len() && self.key_seq()[g2] == k;
                        if g2 < pre.key_seq().len() {
                            assert(pre.key_seq()[g2] == k);
                        }
                    }
                    assert(self.key_set().contains(key@));
                }
                match res {
                    Ok(_) => {},
                    Err(e) => {
                        return Err(e);
                    },
                }
            }
            proof {
                assert forall|k: Seq<i64>|
                    bks.contains(k) implies self.key_set().contains(k) || exists|g2: int|
                    0 <= g2 < groups@.len() && (#[trigger] groups@[g2]).0@ == k by {
                    if pre.key_set().contains(k) {
                        assert(self.key_set().contains(k));
                    } else {
                        let g2 = choose|g2: int|
                            0 <= g2 < pre_groups.len() && (#[trigger] pre_groups[g2]).0@ == k;
                        if g2 < pre_groups.len() - 1 {
                            assert(groups@[g2] == pre_groups[g2]);
                        } else {
                            assert(k == key@);
                            assert(self.key_set().contains(key@));
                        }
                    }
                }
            }
        }
        proof {
            assert(self.key_set() =~= old_self.key_set().union(bks));
        }
        Ok(())
    }

    /// Take ownership of the entire writer map, finalize every extracted
    /// inner writer, stamp each yielded record with its partition's typed
    /// value, and return all stamped records in one combined sequence. The
    /// writer holds no partitions afterwards, whether or not a finalize
    /// failed; a failure aborts the drain and loses the remaining results.
    /// An empty writer map makes no inner call and yields an empty record
    /// list, so a second consecutive flush returns successfully with
    /// nothing.
    pub fn flush(&mut self) -> (r: Result<Vec<ResultRecord>, WriterError>)
        requires
            old(self).wf(),
        ensures
            final(self).wf(),
            final(self).partition_splitter == old(self).partition_splitter,
            final(self).schema == old(self).schema,
            final(self).inner_builder == old(self).inner_builder,
            final(self).inner_writers@.len() == 0,
            old(self).inner_writers@.len() == 0 ==> (r matches Ok(records) && records@
                == Seq::<ResultRecord>::empty()),
            match r {
                Ok(records) => {
                    &&& forall|p: int|
                        0 <= p < records@.len() ==> old(self).stamped_from(
                            #[trigger] records@[p],
                        )
                    &&& old(self).grouped_stamping(records@)
                },
                Err(_) => true,
            },
    {
        let ghost old_self = *self;
        let mut drained: Vec<(PartitionKey, B::R)> = Vec::new();
        core::mem::swap(&mut self.inner_writers, &mut drained);
        let mut out: Vec<ResultRecord> = Vec::new();
        let ghost mut blocks: Seq<Seq<ResultRecord>> = Seq::empty();
        let mut g: usize = 0;
        while g < drained.len()
            invariant
                self.wf(),
                self.partition_splitter == old_self.partition_splitter,
                self.schema == old_self.schema,
                self.inner_builder == old_self.inner_builder,
                self.inner_writers@.len() == 0,
                drained@.len() == old_self.inner_writers@.len(),
                forall|g2: int|
                    0 <= g2 < drained@.len() ==> (#[trigger] drained@[g2]).0
                        == old_self.inner_writers@[g2].0,
                forall|g2: int|
                    0 <= g2 < drained@.len() ==> (#[trigger] drained@[g2]).0@.len()
                        == self.partition_splitter.partition_spec.fields@.len(),
                g <= drained@.len(),
                g == 0 ==> out@ == Seq::<ResultRecord>::empty(),
                blocks.len() == g,
                out@ == flatten_blocks(blocks),
                forall|g2: int, p: int|
                    0 <= g2 < blocks.len() && 0 <= p < blocks[g2].len() ==> ((
                    #[trigger] blocks[g2][p]).partition matches Some(v) && v@
                        == old_self.partition_splitter.spec_key_to_value(
                        old_self.inner_writers@[g2].0@,
                    )),
                forall|p: int|
                    0 <= p < out@.len() ==> old_self.stamped_from(#[trigger] out@[p]),
            decreases drained@.len() - g,
        {
            let ghost pre_drained = drained@;
            let value = match self.partition_splitter.convert_key_to_value(&drained[g].0) {
                Ok(v) => v,
                Err(e) => {
                    return Err(e);
                },
            };
            let recs = match drained[g].1.flush() {
                Ok(rs) => rs,
                Err(e) => {
                    return Err(e);
                },
            };
            proof {
                assert forall|g2: int| 0 <= g2 < drained@.len() implies (
                #[trigger] drained@[g2]).0 == pre_drained[g2].0 by {
                }
            }
            let mut recs = stamp_records(recs, &value);
            proof {
                assert forall|p2: int| 0 <= p2 < out@.len() + recs@.len() implies
                    old_self.stamped_from((out@ + recs@)[p2]) by {
                    if p2 < out@.len() {
                        assert((out@ + recs@)[p2] == out@[p2]);
                        assert(old_self.stamped_from(out@[p2]));
                    } else {
                        assert((out@ + recs@)[p2] == recs@[p2 - out@.len()]);
                        assert(drained@[g as int].0 == old_self.inner_writers@[g as int].0);
                        assert(old_self.inner_writers@[g as int].0@ == drained@[g as int].0@);
                        assert(old_self.stamped_from(recs@[p2 - out@.len()]));
                    }
                }
            }
            proof {
                let pre_blocks = blocks;
                blocks = blocks.push(recs@);
                assert(blocks.drop_last() =~= pre_blocks);
                assert(flatten_blocks(blocks) == flatten_blocks(pre_blocks) + recs@);
            }
            out.append(&mut recs);
            g += 1;
        }
        proof {
            assert(flatten_blocks(blocks) == out@);
            assert(old_self.grouped_stamping(out@));
        }
        Ok(out)
    }

    /// The records fall into one block per open partition, in partition
    /// order: the blocks' concatenation is the whole record list, and every
    /// record of block `g` carries the typed value of partition `g`'s key.
    pub open spec fn grouped_stamping(self, records: Seq<ResultRecord>) -> bool {
        exists|blocks: Seq<Seq<ResultRecord>>|
            {
                &&& (#[trigger] flatten_blocks(blocks)) == records
                &&& blocks.len() == self.inner_writers@.len()
                &&& forall|g: int, p: int|
                    0 <= g < blocks.len() && 0 <= p < blocks[g].len() ==> ((
                    #[trigger] blocks[g][p]).partition matches Some(v) && v@
                        == self.partition_splitter.spec_key_to_value(
                        self.inner_writers@[g].0@,
                    ))
            }
    }

    /// The record's partition attribute holds the typed value of one of
    /// this writer's open partition keys: one value field per spec field,
    /// so the value is non-empty whenever the spec has a partition field.
    pub open spec fn stamped_from(self, rec: ResultRecord) -> bool {
        exists|g: int|
            0 <= g < self.inner_writers@.len() && (rec.partition matches Some(v) && v@
                == self.partition_splitter.spec_key_to_value(
                (#[trigger] self.inner_writers@[g]).0@,
            ) && v@.len() == self.partition_splitter.partition_spec.fields@.len())
    }

    /// A snapshot of the number of open, not-yet-flushed partitions.
    pub fn metrics(&self) -> (m: FanoutPartitionedWriterMetrics)
        ensures
            m.partition_num == self.inner_writers@.len(),
    {
        FanoutPartitionedWriterMetrics { partition_num: self.inner_writers.len() }
    }

    /// The reported partition count equals the number of distinct partition
    /// keys held open. With `write`'s guarantee that the open keys after a
    /// sequence of writes are the union of the routed batches' key sets,
    /// the count depends only on how many distinct keys were touched, not
    /// on how often each was written.
    pub proof fn lemma_metrics_count_is_distinct_keys(self)
        requires
            self.wf(),
        ensures
            self.key_set().finite(),
            self.key_set().len() == self.inner_writers@.len(),
    {
        lemma_distinct_key_seq_card(self.key_seq());
        assert(Set::new(|k: Seq<i64>| self.key_seq().contains(k)) =~= self.key_set());
    }
}

/// The concatenation of a sequence of record blocks, in block order.
pub open spec fn flatten_blocks(blocks: Seq<Seq<ResultRecord>>) -> Seq<ResultRecord>
    decreases blocks.len(),
{
    if blocks.len() == 0 {
        Seq::empty()
    } else {
        flatten_blocks(blocks.drop_last()) + blocks.last()
    }
}

/// A sequence of pairwise distinct keys holds exactly its length's worth of
/// distinct elements.
proof fn lemma_distinct_key_seq_card(s: Seq<Seq<i64>>)
    requires
        forall|i: int, j: int| 0 <= i < j < s.len() ==> s[i] != s[j],
    ensures
        Set::new(|k: Seq<i64>| s.contains(k)).finite(),
        Set::new(|k: Seq<i64>| s.contains(k)).len() == s.len(),
    decreases s.len(),
{
    let set_of = Set::new(|k: Seq<i64>| s.contains(k));
    if s.len() == 0 {
        assert(set_of =~= Set::<Seq<i64>>::empty());
    } else {
        let prefix = s.drop_last();
        lemma_distinct_key_seq_card(prefix);
        let pset = Set::new(|k: Seq<i64>| prefix.contains(k));
        assert forall|k: Seq<i64>| set_of.contains(k) implies pset.insert(s.last()).contains(
            k,
        ) by {
            let i = choose|i: int| 0 <= i < s.len() && s[i] == k;
            if i < s.len() - 1 {
                assert(prefix[i] == k);
            }
        }
        assert forall|k: Seq<i64>| pset.insert(s.last()).contains(k) implies set_of.contains(
            k,
        ) by {
            if pset.contains(k) {
                let i = choose|i: int| 0 <= i < prefix.len() && prefix[i] == k;
                assert(s[i] == k);
            } else {
                assert(s[s.len() - 1] == k);
            }
        }
        assert(set_of =~= pset.insert(s.last()));
        if pset.contains(s.last()) {
            let i = choose|i: int| 0 <= i < prefix.len() && prefix[i] == s.last();
            assert(s[i] == s[s.len() - 1]);
            assert(false);
        }
    }
}

/// Routing the keys of a batch a second time opens no new partitions: the
/// union of open keys with the same batch key set is unchanged, however
/// often it is repeated.
pub proof fn lemma_rewrite_same_keys(base: Set<Seq<i64>>, batch_keys: Set<Seq<i64>>)
    ensures
        base.union(batch_keys).union(batch_keys) == base.union(batch_keys),
{
    assert(base.union(batch_keys).union(batch_keys) =~= base.union(batch_keys));
}

} // verus!
