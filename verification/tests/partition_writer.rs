use icelake::batch::{Batch, Column, Schema};
use icelake::error::WriterError;
use icelake::gauge::SharedGauge;
use icelake::metrics::{gauge_move, FanoutPartitionedWriterWithMetricsBuilder, GaugeMove};
use icelake::partition::{PartitionField, PartitionSpec, PartitionType, Transform};
use icelake::writer::{
    FanoutPartitionedWriterBuilder, IcebergWriter, IcebergWriterBuilder, ResultRecord,
};

#[derive(Clone)]
struct TestWriterBuilder;

struct TestWriter {
    res: Batch,
}

impl IcebergWriterBuilder for TestWriterBuilder {
    type R = TestWriter;

    fn build(&self, schema: &Schema) -> Result<TestWriter, WriterError> {
        let mut columns = Vec::new();
        for _ in 0..schema.columns.len() {
            columns.push(Vec::new());
        }
        Ok(TestWriter { res: Batch { columns } })
    }
}

impl IcebergWriter for TestWriter {
    fn write(&mut self, batch: Batch) -> Result<(), WriterError> {
        while self.res.columns.len() < batch.columns.len() {
            self.res.columns.push(Vec::new());
        }
        for (j, col) in batch.columns.into_iter().enumerate() {
            self.res.columns[j].extend(col);
        }
        Ok(())
    }

    fn flush(&mut self) -> Result<Vec<ResultRecord>, WriterError> {
        let n = if self.res.columns.is_empty() {
            0
        } else {
            self.res.columns[0].len()
        };
        Ok(vec![ResultRecord { partition: None, row_count: n }])
    }
}

/// An inner writer that yields two result records per finalize.
#[derive(Clone)]
struct TwoRecordWriterBuilder;

struct TwoRecordWriter;

impl IcebergWriterBuilder for TwoRecordWriterBuilder {
    type R = TwoRecordWriter;

    fn build(&self, _schema: &Schema) -> Result<TwoRecordWriter, WriterError> {
        Ok(TwoRecordWriter)
    }
}

impl IcebergWriter for TwoRecordWriter {
    fn write(&mut self, _batch: Batch) -> Result<(), WriterError> {
        Ok(())
    }

    fn flush(&mut self) -> Result<Vec<ResultRecord>, WriterError> {
        Ok(vec![
            ResultRecord { partition: None, row_count: 0 },
            ResultRecord { partition: None, row_count: 0 },
        ])
    }
}

/// An inner writer whose write always fails.
#[derive(Clone)]
struct FailingWriterBuilder;

struct FailingWriter;

impl IcebergWriterBuilder for FailingWriterBuilder {
    type R = FailingWriter;

    fn build(&self, _schema: &Schema) -> Result<FailingWriter, WriterError> {
        Ok(FailingWriter)
    }
}

impl IcebergWriter for FailingWriter {
    fn write(&mut self, _batch: Batch) -> Result<(), WriterError> {
        Err(WriterError::InnerWriterError)
    }

    fn flush(&mut self) -> Result<Vec<ResultRecord>, WriterError> {
        Err(WriterError::InnerWriterError)
    }
}

fn create_schema(n: usize) -> Schema {
    let mut columns = Vec::new();
    for i in 1..=n {
        columns.push(Column { id: i as i64, name: format!("col{}", i) });
    }
    Schema { columns }
}

fn create_batch(cols: Vec<Vec<i64>>) -> Batch {
    Batch { columns: cols }
}

fn create_partition() -> PartitionSpec {
    PartitionSpec {
        spec_id: 1,
        fields: vec![PartitionField {
            source_column_id: 1,
            partition_field_id: 1,
            transform: Transform::Identity,
            name: "col1".to_string(),
        }],
    }
}

fn create_partition_type() -> PartitionType {
    PartitionType { field_ids: vec![1] }
}

#[test]
fn test_partition_writer() {
    let schema = create_schema(2);
    let partition_spec = create_partition();
    let partition_type = create_partition_type();

    let to_write = create_batch(vec![
        vec![1, 2, 3, 1, 2, 3, 1, 2, 3],
        vec![1, 1, 1, 2, 2, 2, 3, 3, 3],
    ]);

    let builder =
        FanoutPartitionedWriterBuilder::new(TestWriterBuilder, partition_type, partition_spec);
    let mut writer = builder.build(schema).unwrap();
    writer.write(to_write).unwrap();

    assert_eq!(writer.inner_writers.len(), 3);

    let expect1 = create_batch(vec![vec![1, 1, 1], vec![1, 2, 3]]);
    let expect2 = create_batch(vec![vec![2, 2, 2], vec![1, 2, 3]]);
    let expect3 = create_batch(vec![vec![3, 3, 3], vec![1, 2, 3]]);
    let actual_res: Vec<Batch> =
        writer.inner_writers.iter().map(|(_, w)| w.res.clone()).collect();
    assert!(actual_res.contains(&expect1));
    assert!(actual_res.contains(&expect2));
    assert!(actual_res.contains(&expect3));
}

// The delta writer puts an operation-marker vector in the last column; the
// partitioning must ignore the trailing column and carry it through.
#[test]
fn test_partition_delta_writer() {
    let schema = create_schema(3);
    let partition_spec = create_partition();
    let partition_type = create_partition_type();

    let builder =
        FanoutPartitionedWriterBuilder::new(TestWriterBuilder, partition_type, partition_spec);
    let mut writer = builder.build(schema).unwrap();

    let to_write = create_batch(vec![
        vec![1, 2, 3, 1, 2, 3, 1, 2, 3],
        vec![1, 1, 1, 2, 2, 2, 3, 3, 3],
        vec![3, 2, 1, 1, 3, 2, 2, 1, 3],
    ]);
    writer.write(to_write).unwrap();
    assert_eq!(writer.inner_writers.len(), 3);

    let expect1 = create_batch(vec![vec![1, 1, 1], vec![1, 2, 3], vec![3, 1, 2]]);
    let expect2 = create_batch(vec![vec![2, 2, 2], vec![1, 2, 3], vec![2, 3, 1]]);
    let expect3 = create_batch(vec![vec![3, 3, 3], vec![1, 2, 3], vec![1, 2, 3]]);
    let actual_res: Vec<Batch> =
        writer.inner_writers.iter().map(|(_, w)| w.res.clone()).collect();
    assert!(actual_res.contains(&expect1));
    assert!(actual_res.contains(&expect2));
    assert!(actual_res.contains(&expect3));
}

#[test]
fn test_metrics_writer() {
    let partition_spec = create_partition();
    let partition_type = create_partition_type();
    let builder =
        FanoutPartitionedWriterBuilder::new(TestWriterBuilder, partition_type, partition_spec);
    let metrics = SharedGauge::new("test", "test").unwrap();
    let metric_builder =
        FanoutPartitionedWriterWithMetricsBuilder::new(builder, metrics.clone());

    let to_write = create_batch(vec![vec![1, 2], vec![1, 2]]);

    let mut writer_1 = metric_builder.clone().build(create_schema(2)).unwrap();
    writer_1.write(to_write.clone()).unwrap();

    assert_eq!(metrics.get(), 2);

    let mut writer_2 = metric_builder.clone().build(create_schema(2)).unwrap();
    writer_2.write(to_write).unwrap();

    assert_eq!(metrics.get(), 4);

    writer_1.flush().unwrap();

    assert_eq!(metrics.get(), 2);
}

// Writing the same keys again must not open new partitions: the count
// depends on the number of distinct keys touched, not on repetition.
#[test]
fn test_repeated_writes_count_distinct_keys() {
    let builder = FanoutPartitionedWriterBuilder::new(
        TestWriterBuilder,
        create_partition_type(),
        create_partition(),
    );
    let mut writer = builder.build(create_schema(2)).unwrap();

    writer.write(create_batch(vec![vec![1, 2], vec![10, 20]])).unwrap();
    assert_eq!(writer.metrics().partition_num, 2);
    writer.write(create_batch(vec![vec![1, 2], vec![30, 40]])).unwrap();
    assert_eq!(writer.metrics().partition_num, 2);
    writer.write(create_batch(vec![vec![3, 1], vec![50, 60]])).unwrap();
    assert_eq!(writer.metrics().partition_num, 3);
}

// After flush the writer holds no partitions and the record count is the
// sum of the per-partition finalize results.
#[test]
fn test_flush_drains_and_sums_records() {
    let builder = FanoutPartitionedWriterBuilder::new(
        TwoRecordWriterBuilder,
        create_partition_type(),
        create_partition(),
    );
    let mut writer = builder.build(create_schema(2)).unwrap();
    writer.write(create_batch(vec![vec![1, 2, 3], vec![7, 8, 9]])).unwrap();
    assert_eq!(writer.metrics().partition_num, 3);

    let records = writer.flush().unwrap();
    assert_eq!(writer.metrics().partition_num, 0);
    // three partitions, two records each
    assert_eq!(records.len(), 6);
}

// Every flushed record carries a non-empty partition value matching the
// key that produced it.
#[test]
fn test_flush_stamps_partition_values() {
    let builder = FanoutPartitionedWriterBuilder::new(
        TestWriterBuilder,
        create_partition_type(),
        create_partition(),
    );
    let mut writer = builder.build(create_schema(2)).unwrap();
    writer.write(create_batch(vec![vec![4, 5, 4], vec![1, 2, 3]])).unwrap();

    let records = writer.flush().unwrap();
    assert_eq!(records.len(), 2);
    let mut stamped: Vec<i64> = Vec::new();
    for rec in &records {
        let value = rec.partition.as_ref().expect("partition value missing");
        assert_eq!(value.fields.len(), 1);
        assert_eq!(value.fields[0].field_id, 1);
        stamped.push(value.fields[0].value);
    }
    stamped.sort();
    assert_eq!(stamped, vec![4, 5]);
}

// An inner writer failure propagates out of write unchanged.
#[test]
fn test_inner_writer_error_propagates() {
    let builder = FanoutPartitionedWriterBuilder::new(
        FailingWriterBuilder,
        create_partition_type(),
        create_partition(),
    );
    let mut writer = builder.build(create_schema(2)).unwrap();
    let err = writer.write(create_batch(vec![vec![1], vec![2]])).unwrap_err();
    assert_eq!(err, WriterError::InnerWriterError);
}

// A spec naming a column absent from the schema is rejected at build time.
#[test]
fn test_build_schema_mismatch() {
    let spec = PartitionSpec {
        spec_id: 1,
        fields: vec![PartitionField {
            source_column_id: 99,
            partition_field_id: 1,
            transform: Transform::Identity,
            name: "missing".to_string(),
        }],
    };
    let builder = FanoutPartitionedWriterBuilder::new(
        TestWriterBuilder,
        PartitionType { field_ids: vec![1] },
        spec,
    );
    let err = match builder.build(create_schema(2)) {
        Ok(_) => panic!("expected a schema mismatch"),
        Err(e) => e,
    };
    assert_eq!(err, WriterError::SchemaMismatch);
}

// A transform that cannot be evaluated fails the whole write call with a
// transform error and routes nothing.
#[test]
fn test_write_transform_error() {
    let spec = PartitionSpec {
        spec_id: 1,
        fields: vec![PartitionField {
            source_column_id: 1,
            partition_field_id: 1,
            transform: Transform::Bucket(0),
            name: "col1".to_string(),
        }],
    };
    let builder = FanoutPartitionedWriterBuilder::new(
        TestWriterBuilder,
        PartitionType { field_ids: vec![1] },
        spec,
    );
    let mut writer = builder.build(create_schema(2)).unwrap();
    let err = writer.write(create_batch(vec![vec![1], vec![2]])).unwrap_err();
    assert_eq!(err, WriterError::TransformError);
    assert_eq!(writer.metrics().partition_num, 0);
}

// A writer with no open partitions flushes to an empty record list without
// touching any inner writer; a second consecutive flush is a no-op.
#[test]
fn test_flush_empty_writer() {
    let builder = FanoutPartitionedWriterBuilder::new(
        TestWriterBuilder,
        create_partition_type(),
        create_partition(),
    );
    let mut writer = builder.build(create_schema(2)).unwrap();
    let records = writer.flush().unwrap();
    assert!(records.is_empty());
    assert_eq!(writer.metrics().partition_num, 0);

    writer.write(create_batch(vec![vec![1], vec![2]])).unwrap();
    let first = writer.flush().unwrap();
    assert_eq!(first.len(), 1);
    let second = writer.flush().unwrap();
    assert!(second.is_empty());
    assert_eq!(writer.metrics().partition_num, 0);
}

// A zero-row batch routes nothing and succeeds.
#[test]
fn test_write_empty_batch() {
    let builder = FanoutPartitionedWriterBuilder::new(
        TestWriterBuilder,
        create_partition_type(),
        create_partition(),
    );
    let mut writer = builder.build(create_schema(2)).unwrap();
    writer.write(create_batch(vec![vec![], vec![]])).unwrap();
    assert_eq!(writer.metrics().partition_num, 0);
}

// When a forwarded write fails, the decorator skips the gauge update: the
// gauge and the recorded count keep their previous values.
#[test]
fn test_metrics_writer_error_keeps_count() {
    let builder = FanoutPartitionedWriterBuilder::new(
        FailingWriterBuilder,
        create_partition_type(),
        create_partition(),
    );
    let gauge = SharedGauge::new("test_err", "test_err").unwrap();
    let metric_builder = FanoutPartitionedWriterWithMetricsBuilder::new(builder, gauge.clone());
    let mut writer = metric_builder.build(create_schema(2)).unwrap();

    let err = writer.write(create_batch(vec![vec![1], vec![2]])).unwrap_err();
    assert_eq!(err, WriterError::InnerWriterError);
    assert_eq!(gauge.get(), 0);
    assert_eq!(writer.current_metrics.partition_num, 0);
}

// The gauge movement is the exact signed difference of the counts.
#[test]
fn test_gauge_move_exact() {
    assert_eq!(gauge_move(2, 5), GaugeMove::Add(3));
    assert_eq!(gauge_move(5, 2), GaugeMove::Sub(3));
    assert_eq!(gauge_move(4, 4), GaugeMove::Add(0));
}

// The declared partition type is stored configuration only: a width that
// differs from the spec's field list does not stop the build, which fails
// solely on a source column missing from the schema.
#[test]
fn test_build_ignores_partition_type_width() {
    let builder = FanoutPartitionedWriterBuilder::new(
        TestWriterBuilder,
        PartitionType { field_ids: vec![] },
        create_partition(),
    );
    let mut writer = builder.build(create_schema(2)).unwrap();
    writer.write(create_batch(vec![vec![1, 2], vec![3, 4]])).unwrap();
    assert_eq!(writer.metrics().partition_num, 2);
}
