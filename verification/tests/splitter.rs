use icelake::batch::{Batch, Column, Schema};
use icelake::error::WriterError;
use icelake::partition::{
    PartitionField, PartitionKey, PartitionSpec, PartitionType, Transform,
};
use icelake::splitter::{FieldProjector, PartitionSplitter};

fn schema_of(n: usize) -> Schema {
    let mut columns = Vec::new();
    for i in 1..=n {
        columns.push(Column { id: i as i64, name: format!("col{}", i) });
    }
    Schema { columns }
}

fn splitter_on_col1() -> PartitionSplitter {
    let schema = schema_of(2);
    let projector = FieldProjector::new(&schema, &vec![1]).unwrap();
    let spec = PartitionSpec {
        spec_id: 1,
        fields: vec![PartitionField {
            source_column_id: 1,
            partition_field_id: 7,
            transform: Transform::Identity,
            name: "col1".to_string(),
        }],
    };
    PartitionSplitter::try_new(projector, spec, PartitionType { field_ids: vec![7] }).unwrap()
}

// Splitting and then re-uniting the sub-batches' rows recovers exactly the
// input rows, with unchanged values in every column.
#[test]
fn test_split_recovers_rows() {
    let splitter = splitter_on_col1();
    let batch = Batch { columns: vec![vec![5, 6, 5, 7], vec![10, 20, 30, 40]] };
    let groups = splitter.split_by_partition(&batch).unwrap();
    assert_eq!(groups.len(), 3);

    let mut recovered: Vec<(i64, i64)> = Vec::new();
    for (_, sub) in &groups {
        assert_eq!(sub.columns.len(), 2);
        for p in 0..sub.columns[0].len() {
            recovered.push((sub.columns[0][p], sub.columns[1][p]));
        }
    }
    recovered.sort();
    assert_eq!(recovered, vec![(5, 10), (5, 30), (6, 20), (7, 40)]);
}

// Rows with identical transformed values land in the same sub-batch, in
// input order.
#[test]
fn test_same_key_rows_grouped() {
    let splitter = splitter_on_col1();
    let batch = Batch { columns: vec![vec![9, 2, 9, 2, 9], vec![1, 2, 3, 4, 5]] };
    let groups = splitter.split_by_partition(&batch).unwrap();
    assert_eq!(groups.len(), 2);
    for (key, sub) in &groups {
        if key.values == vec![9] {
            assert_eq!(sub.columns[1], vec![1, 3, 5]);
        } else {
            assert_eq!(key.values, vec![2]);
            assert_eq!(sub.columns[1], vec![2, 4]);
        }
    }
}

// Converting a key to its typed value is deterministic and stable across
// repeated calls.
#[test]
fn test_key_to_value_stable() {
    let splitter = splitter_on_col1();
    let key = PartitionKey { values: vec![42] };
    let v1 = splitter.convert_key_to_value(&key).unwrap();
    let v2 = splitter.convert_key_to_value(&key).unwrap();
    assert_eq!(v1, v2);
    assert_eq!(v1.fields.len(), 1);
    assert_eq!(v1.fields[0].field_id, 7);
    assert_eq!(v1.fields[0].value, 42);
}

// A key of the wrong width is an internal consistency error.
#[test]
fn test_key_to_value_wrong_width() {
    let splitter = splitter_on_col1();
    let key = PartitionKey { values: vec![1, 2] };
    let err = splitter.convert_key_to_value(&key).unwrap_err();
    assert_eq!(err, WriterError::InternalError);
}

// The bucket transform is the non-negative remainder; the truncate
// transform rounds down to a multiple of the width.
#[test]
fn test_transforms_exact_values() {
    assert_eq!(Transform::Identity.apply(-3).unwrap(), -3);
    assert_eq!(Transform::Bucket(3).apply(7).unwrap(), 1);
    assert_eq!(Transform::Bucket(3).apply(-7).unwrap(), 2);
    assert_eq!(Transform::Truncate(10).apply(37).unwrap(), 30);
    assert_eq!(Transform::Truncate(10).apply(-7).unwrap(), -10);
    assert_eq!(Transform::Bucket(0).apply(1).unwrap_err(), WriterError::TransformError);
    assert_eq!(Transform::Truncate(0).apply(1).unwrap_err(), WriterError::TransformError);
}

// A projector is refused when a referenced column id is absent.
#[test]
fn test_projector_missing_column() {
    let schema = schema_of(2);
    let err = FieldProjector::new(&schema, &vec![1, 9]).unwrap_err();
    assert_eq!(err, WriterError::SchemaMismatch);
}

// Grouping on a bucket transform: values congruent modulo the bucket count
// share one partition.
#[test]
fn test_split_bucket_transform() {
    let schema = schema_of(2);
    let projector = FieldProjector::new(&schema, &vec![1]).unwrap();
    let spec = PartitionSpec {
        spec_id: 1,
        fields: vec![PartitionField {
            source_column_id: 1,
            partition_field_id: 1,
            transform: Transform::Bucket(2),
            name: "col1_bucket".to_string(),
        }],
    };
    let splitter =
        PartitionSplitter::try_new(projector, spec, PartitionType { field_ids: vec![1] })
            .unwrap();
    let batch = Batch { columns: vec![vec![1, 2, 3, 4], vec![5, 6, 7, 8]] };
    let groups = splitter.split_by_partition(&batch).unwrap();
    assert_eq!(groups.len(), 2);
    for (key, sub) in &groups {
        if key.values == vec![1] {
            assert_eq!(sub.columns[0], vec![1, 3]);
        } else {
            assert_eq!(key.values, vec![0]);
            assert_eq!(sub.columns[0], vec![2, 4]);
        }
    }
}

// An empty batch splits into no groups at all.
#[test]
fn test_split_empty_batch() {
    let splitter = splitter_on_col1();
    let batch = Batch { columns: vec![vec![], vec![]] };
    let groups = splitter.split_by_partition(&batch).unwrap();
    assert_eq!(groups.len(), 0);
}
