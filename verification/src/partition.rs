use vstd::prelude::*;

use crate::error::WriterError;

verus! {

/// A pure function from a source column value to a partition value.
#[derive(Clone, Copy, Debug, PartialEq, Eq, Structural)]
pub enum Transform {
    /// The source value itself.
    Identity,
    /// The source value's non-negative remainder modulo the bucket count.
    Bucket(u32),
    /// The source value rounded down to a multiple of the width.
    Truncate(u32),
}

impl Transform {
    /// Whether the transform is defined on the value: bucket and truncate
    /// need a non-zero modulus, and truncating near the lower end of the
    /// value range would overflow.
    pub open spec fn applies(self, v: i64) -> bool {
        match self {
            Transform::Identity => true,
            Transform::Bucket(n) => n != 0,
            Transform::Truncate(w) => w != 0 && v - (v as int) % (w as int) >= i64::MIN,
        }
    }

    /// The transformed value, meaningful where `applies` holds.
    pub open spec fn value_of(self, v: i64) -> int {
        match self {
            Transform::Identity => v as int,
            Transform::Bucket(n) => (v as int) % (n as int),
            Transform::Truncate(w) => v - (v as int) % (w as int),
        }
    }

    /// Evaluate the transform on one source value; fails exactly where the
    /// transform is undefined on it.
    pub fn apply(&self, v: i64) -> (r: Result<i64, WriterError>)
        ensures
            self.applies(v) ==> r == Ok::<i64, WriterError>((self.value_of(v)) as i64),
            self.applies(v) ==> self.value_of(v) == (self.value_of(v) as i64) as int,
            !self.applies(v) ==> r == Err::<i64, WriterError>(WriterError::TransformError),
    {
        match self {
            Transform::Identity => Ok(v),
            Transform::Bucket(n) => {
                if *n == 0 {
                    Err(WriterError::TransformError)
                } else {
                    let m: i64 = *n as i64;
                    let r: i64 = v.checked_rem_euclid(m).unwrap();
                    Ok(r)
                }
            },
            Transform::Truncate(w) => {
                if *w == 0 {
                    Err(WriterError::TransformError)
                } else {
                    let m: i64 = *w as i64;
                    let r: i64 = v.checked_rem_euclid(m).unwrap();
                    if v >= i64::MIN + r {
                        Ok(v - r)
                    } else {
                        Err(WriterError::TransformError)
                    }
                }
            },
        }
    }
}

/// One field of a partition spec: a source column, a partition field
/// identifier, a transform, and a human-readable name.
#[derive(Clone, Debug, PartialEq)]
pub struct PartitionField {
    pub source_column_id: i64,
    pub partition_field_id: i64,
    pub transform: Transform,
    pub name: String,
}

/// An identifier plus an ordered sequence of partition fields; field order
/// fixes both key composition order and value field order.
#[derive(Clone, Debug, PartialEq)]
pub struct PartitionSpec {
    pub spec_id: i64,
    pub fields: Vec<PartitionField>,
}

impl PartitionSpec {
    /// The source column ids of the partition fields, in field order.
    pub fn column_ids(&self) -> (r: Vec<i64>)
        ensures
            r@.len() == self.fields@.len(),
            forall|k: int| 0 <= k < r@.len() ==> r@[k] == self.fields@[k].source_column_id,
    {
        let mut r: Vec<i64> = Vec::new();
        let mut k: usize = 0;
        while k < self.fields.len()
            invariant
                k <= self.fields@.len(),
                r@.len() == k,
                forall|k2: int| 0 <= k2 < k ==> r@[k2] == self.fields@[k2].source_column_id,
            decreases self.fields@.len() - k,
        {
            r.push(self.fields[k].source_column_id);
            k += 1;
        }
        r
    }
}

/// The declared struct type of the partition values: one field identifier
/// per partition field, in field order.
#[derive(Clone, Debug, PartialEq)]
pub struct PartitionType {
    pub field_ids: Vec<i64>,
}

/// A structural, order-sensitive composite of the transformed values of all
/// partition fields for one row; used only as a routing and grouping token.
#[derive(Debug, PartialEq, Eq, Hash)]
pub struct PartitionKey {
    pub values: Vec<i64>,
}

impl View for PartitionKey {
    type V = Seq<i64>;

    open spec fn view(&self) -> Seq<i64> {
        self.values@
    }
}

impl Clone for PartitionKey {
    fn clone(&self) -> (r: Self)
        ensures
            r@ == self@,
    {
        let mut values: Vec<i64> = Vec::new();
        let mut k: usize = 0;
        while k < self.values.len()
            invariant
                k <= self.values@.len(),
                values@.len() == k,
                forall|k2: int| 0 <= k2 < k ==> values@[k2] == self.values@[k2],
            decreases self.values@.len() - k,
        {
            values.push(self.values[k]);
            k += 1;
        }
        proof {
            assert(values@ =~= self.values@);
        }
        PartitionKey { values }
    }
}

/// Whether two keys carry the same transformed values in the same order.
pub fn key_eq(a: &PartitionKey, b: &PartitionKey) -> (r: bool)
    ensures
        r == (a@ == b@),
{
    if a.values.len() != b.values.len() {
        assert(a@.len() != b@.len());
        return false;
    }
    let mut k: usize = 0;
    while k < a.values.len()
        invariant
            k <= a@.len(),
            a@.len() == b@.len(),
            forall|k2: int| 0 <= k2 < k ==> a@[k2] == b@[k2],
        decreases a@.len() - k,
    {
        if a.values[k] != b.values[k] {
            return false;
        }
        k += 1;
    }
    assert(a@ =~= b@);
    true
}

/// One field of a partition value: the partition field identifier and the
/// transformed value.
#[derive(Clone, Copy, Debug, PartialEq, Eq, Structural)]
pub struct PartitionValueField {
    pub field_id: i64,
    pub value: i64,
}

/// The typed record representation of a partition key, suitable for
/// attachment to a finalized output descriptor; fields in spec field order.
#[derive(Debug, PartialEq)]
pub struct PartitionValue {
    pub fields: Vec<PartitionValueField>,
}

impl Clone for PartitionValue {
    fn clone(&self) -> (r: Self)
        ensures
            r@ == self@,
    {
        let mut fields: Vec<PartitionValueField> = Vec::new();
        let mut k: usize = 0;
        while k < self.fields.len()
            invariant
                k <= self.fields@.len(),
                fields@.len() == k,
                forall|k2: int| 0 <= k2 < k ==> fields@[k2] == self.fields@[k2],
            decreases self.fields@.len() - k,
        {
            fields.push(self.fields[k]);
            k += 1;
        }
        proof {
            assert(fields@ =~= self.fields@);
        }
        PartitionValue { fields }
    }
}

impl View for PartitionValue {
    type V = Seq<PartitionValueField>;

    open spec fn view(&self) -> Seq<PartitionValueField> {
        self.fields@
    }
}

} // verus!
