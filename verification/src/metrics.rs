#![verifier::loop_isolation(false)]

use vstd::prelude::*;

use crate::batch::{Batch, Schema};
use crate::error::WriterError;
use crate::gauge::SharedGauge;
use crate::writer::{
    batch_key_set, FanoutPartitionedWriter, FanoutPartitionedWriterBuilder,
    FanoutPartitionedWriterMetrics, IcebergWriterBuilder, ResultRecord,
};

verus! {

/// One movement of the external gauge: an increment or a decrement by an
/// absolute amount.
#[derive(Clone, Copy, Debug, PartialEq, Eq, Structural)]
pub enum GaugeMove {
    Add(u64),
    Sub(u64),
}

/// The movement that carries a recorded open-partition count to a newly
/// observed one: the signed difference, as an increment on growth and a
/// decrement on shrink.
pub fn gauge_move(old_count: usize, new_count: usize) -> (m: GaugeMove)
    ensures
        new_count >= old_count ==> m == GaugeMove::Add((new_count - old_count) as u64),
        new_count < old_count ==> m == GaugeMove::Sub((old_count - new_count) as u64),
{
    if new_count >= old_count {
        GaugeMove::Add((new_count - old_count) as u64)
    } else {
        GaugeMove::Sub((old_count - new_count) as u64)
    }
}

/// Configuration for a metrics-decorated fanout writer: the wrapped
/// builder plus the shared gauge that tracks open partitions.
#[derive(Clone)]
pub struct FanoutPartitionedWriterWithMetricsBuilder<B: IcebergWriterBuilder> {
    pub inner: FanoutPartitionedWriterBuilder<B>,
    pub partition_num: SharedGauge,
}

impl<B: IcebergWriterBuilder> FanoutPartitionedWriterWithMetricsBuilder<B> {
    pub fn new(inner: FanoutPartitionedWriterBuilder<B>, partition_num: SharedGauge) -> (r:
        Self)
        ensures
            r.inner == inner,
            r.partition_num == partition_num,
    {
        Self { inner, partition_num }
    }

    /// Build the wrapped fanout writer — keeping the inner writer template,
    /// the partition spec and the declared partition type of the wrapped
    /// builder — and start observing with a recorded count of zero open
    /// partitions; fails exactly as the wrapped builder does.
    pub fn build(self, schema: Schema) -> (r: Result<
        FanoutPartitionedWriterWithMetrics<B>,
        WriterError,
    >)
        ensures
            match r {
                Ok(w) => {
                    &&& w.inner.wf()
                    &&& w.inner.inner_writers@.len() == 0
                    &&& w.inner.partition_splitter.partition_spec == self.inner.partition_spec
                    &&& w.inner.partition_splitter.partition_type == self.inner.partition_type
                    &&& w.inner.inner_builder == self.inner.inner
                    &&& w.inner.schema == schema
                    &&& w.partition_num == self.partition_num
                    &&& w.current_metrics.partition_num == 0
                    &&& forall|k: int|
                        0 <= k < self.inner.partition_spec.fields@.len() ==> schema.has_column(
                            (#[trigger] self.inner.partition_spec.fields@[k]).source_column_id,
                        )
                },
                Err(e) => {
                    &&& e == WriterError::SchemaMismatch
                    &&& exists|k: int|
                        0 <= k < self.inner.partition_spec.fields@.len() && !schema.has_column(
                            (#[trigger] self.inner.partition_spec.fields@[k]).source_column_id,
                        )
                },
            },
    {
        let writer = match self.inner.build(schema) {
            Ok(w) => w,
            Err(e) => {
                return Err(e);
            },
        };
        Ok(
            FanoutPartitionedWriterWithMetrics {
                inner: writer,
                partition_num: self.partition_num,
                current_metrics: FanoutPartitionedWriterMetrics { partition_num: 0 },
            },
        )
    }
}

/// Wraps a fanout writer behind the identical write/flush contract and,
/// after every forwarded call, mirrors the change of the open-partition
/// count into a shared external gauge.
pub struct FanoutPartitionedWriterWithMetrics<B: IcebergWriterBuilder> {
    pub inner: FanoutPartitionedWriter<B>,
    pub partition_num: SharedGauge,
    pub current_metrics: FanoutPartitionedWriterMetrics,
}

impl<B: IcebergWriterBuilder> FanoutPartitionedWriterWithMetrics<B> {
    /// Recompute the open-partition count, record it, and apply the signed
    /// difference from the previous record to the shared gauge: the gauge
    /// moves by exactly the change in the wrapped writer's `metrics()`.
    pub fn update_metrics(&mut self) -> (r: Result<(), WriterError>)
        ensures
            r == Ok::<(), WriterError>(()),
            final(self).inner == old(self).inner,
            final(self).partition_num == old(self).partition_num,
            final(self).current_metrics.partition_num
                == old(self).inner.inner_writers@.len(),
    {
        let new_metrics = self.inner.metrics();
        let old_count = self.current_metrics.partition_num;
        let new_count = new_metrics.partition_num;
        self.current_metrics = new_metrics;
        match gauge_move(old_count, new_count) {
            GaugeMove::Add(delta) => self.partition_num.add(delta),
            GaugeMove::Sub(delta) => self.partition_num.sub(delta),
        }
        Ok(())
    }

    /// Forward to the wrapped writer, then mirror the partition-count
    /// change into the gauge. After a successful call the recorded count
    /// equals the wrapped writer's open-partition count, and the open keys
    /// are exactly the old ones plus the batch's keys. On a forwarded
    /// failure the gauge update is skipped and the recorded count is left
    /// unchanged; a split failure also leaves the wrapped writer untouched.
    pub fn write(&mut self, batch: Batch) -> (r: Result<(), WriterError>)
        requires
            old(self).inner.wf(),
            old(self).inner.accepts(batch),
        ensures
            final(self).inner.wf(),
            final(self).partition_num == old(self).partition_num,
            final(self).inner.partition_splitter == old(self).inner.partition_splitter,
            final(self).inner.schema == old(self).inner.schema,
            final(self).inner.inner_builder == old(self).inner.inner_builder,
            old(self).inner.inner_writers@.len() <= final(self).inner.inner_writers@.len(),
            forall|k: Seq<i64>|
                old(self).inner.key_set().contains(k) ==> final(self).inner.key_set().contains(
                    k,
                ),
            forall|k: Seq<i64>|
                final(self).inner.key_set().contains(k)
                    ==> old(self).inner.key_set().contains(k) || batch_key_set(
                    old(self).inner.partition_splitter,
                    batch,
                ).contains(k),
            r is Ok ==> old(self).inner.partition_splitter.batch_ok(batch),
            r is Ok ==> final(self).inner.key_set() == old(self).inner.key_set().union(
                batch_key_set(old(self).inner.partition_splitter, batch),
            ),
            r is Ok ==> final(self).current_metrics.partition_num
                == final(self).inner.inner_writers@.len(),
            r is Err ==> final(self).current_metrics == old(self).current_metrics,
            batch.num_rows() == 0 ==> r is Ok,
            !old(self).inner.partition_splitter.batch_ok(batch) ==> r == Err::<
                (),
                WriterError,
            >(WriterError::TransformError) && final(self).inner == old(self).inner
                && final(self).current_metrics == old(self).current_metrics,
    {
        match self.inner.write(batch) {
            Ok(_) => {},
            Err(e) => {
                return Err(e);
            },
        }
        match self.update_metrics() {
            Ok(_) => {},
            Err(e) => {
                return Err(e);
            },
        }
        Ok(())
    }

    /// Forward the drain to the wrapped writer, then mirror the count drop
    /// into the gauge. The wrapped writer holds no partitions afterwards;
    /// after a successful call the recorded count is zero and every
    /// returned record is stamped with the typed value of one of the
    /// previously open partition keys. On a forwarded failure the recorded
    /// count is left unchanged; an already-empty writer yields an empty
    /// record list.
    pub fn flush(&mut self) -> (r: Result<Vec<ResultRecord>, WriterError>)
        requires
            old(self).inner.wf(),
        ensures
            final(self).inner.wf(),
            final(self).partition_num == old(self).partition_num,
            final(self).inner.partition_splitter == old(self).inner.partition_splitter,
            final(self).inner.schema == old(self).inner.schema,
            final(self).inner.inner_writers@.len() == 0,
            r is Ok ==> final(self).current_metrics.partition_num == 0,
            r is Err ==> final(self).current_metrics == old(self).current_metrics,
            old(self).inner.inner_writers@.len() == 0 ==> (r matches Ok(records) && records@
                == Seq::<ResultRecord>::empty()),
            match r {
                Ok(records) => {
                    &&& forall|p: int|
                        0 <= p < records@.len() ==> old(self).inner.stamped_from(
                            #[trigger] records@[p],
                        )
                    &&& old(self).inner.grouped_stamping(records@)
                },
                Err(_) => true,
            },
    {
        let records = match self.inner.flush() {
            Ok(rs) => rs,
            Err(e) => {
                return Err(e);
            },
        };
        match self.update_metrics() {
            Ok(_) => {},
            Err(e) => {
                return Err(e);
            },
        }
        Ok(records)
    }
}

} // verus!
