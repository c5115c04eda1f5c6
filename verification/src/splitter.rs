use vstd::prelude::*;

use crate::batch::{Batch, Schema};
use crate::error::WriterError;
use crate::partition::{
    key_eq, PartitionKey, PartitionSpec, PartitionType, PartitionValue, PartitionValueField,
};

verus! {

/// A projection from partition fields to the positions of their source
/// columns inside a schema.
#[derive(Clone, Debug)]
pub struct FieldProjector {
    pub indices: Vec<usize>,
}

impl FieldProjector {
    /// Every projected position falls inside a batch of `num_columns`
    /// columns.
    pub open spec fn wf_for(self, num_columns: int) -> bool {
        forall|k: int|
            0 <= k < self.indices@.len() ==> (#[trigger] self.indices@[k]) < num_columns
    }

    /// Resolve each source column identifier to the position of its first
    /// occurrence in the schema; fails exactly when some identifier is
    /// absent.
    pub fn new(schema: &Schema, column_ids: &Vec<i64>) -> (r: Result<
        FieldProjector,
        WriterError,
    >)
        ensures
            match r {
                Ok(p) => {
                    &&& p.indices@.len() == column_ids@.len()
                    &&& forall|k: int|
                        0 <= k < column_ids@.len() ==> schema.has_column(
                            #[trigger] column_ids@[k],
                        )
                    &&& forall|k: int|
                        0 <= k < column_ids@.len() ==> {
                            let j = (#[trigger] p.indices@[k]) as int;
                            &&& 0 <= j < schema.columns@.len()
                            &&& schema.columns@[j].id == column_ids@[k]
                            &&& forall|j2: int|
                                0 <= j2 < j ==> schema.columns@[j2].id != column_ids@[k]
                        }
                },
                Err(e) => {
                    &&& e == WriterError::SchemaMismatch
                    &&& exists|k: int|
                        0 <= k < column_ids@.len() && !schema.has_column(
                            #[trigger] column_ids@[k],
                        )
                },
            },
    {
        let mut indices: Vec<usize> = Vec::new();
        let mut k: usize = 0;
        while k < column_ids.len()
            invariant
                k <= column_ids@.len(),
                indices@.len() == k,
                forall|k2: int|
                    0 <= k2 < k ==> schema.has_column(#[trigger] column_ids@[k2]),
                forall|k2: int|
                    0 <= k2 < k ==> {
                        let j = (#[trigger] indices@[k2]) as int;
                        &&& 0 <= j < schema.columns@.len()
                        &&& schema.columns@[j].id == column_ids@[k2]
                        &&& forall|j2: int|
                            0 <= j2 < j ==> schema.columns@[j2].id != column_ids@[k2]
                    },
            decreases column_ids@.len() - k,
        {
            let id: i64 = column_ids[k];
            let mut j: usize = 0;
            let mut pos: usize = 0;
            let mut found: bool = false;
            while j < schema.columns.len() && !found
                invariant
                    j <= schema.columns@.len(),
                    found ==> pos < schema.columns@.len() && schema.columns@[pos as int].id
                        == id && forall|j2: int|
                        0 <= j2 < pos ==> schema.columns@[j2].id != id,
                    !found ==> forall|j2: int| 0 <= j2 < j ==> schema.columns@[j2].id != id,
                decreases schema.columns@.len() - j + (if found {
                    0int
                } else {
                    1int
                }),
            {
                if schema.columns[j].id == id {
                    pos = j;
                    found = true;
                } else {
                    j += 1;
                }
            }
            if !found {
                assert(!schema.has_column(id));
                return Err(WriterError::SchemaMismatch);
            }
            indices.push(pos);
            k += 1;
        }
        Ok(FieldProjector { indices })
    }
}

/// Groups an input batch's rows by derived partition key and can invert a
/// key back to its typed partition value.
#[derive(Clone, Debug)]
pub struct PartitionSplitter {
    pub projector: FieldProjector,
    pub partition_spec: PartitionSpec,
    pub partition_type: PartitionType,
}

impl PartitionSplitter {
    /// One projected position per spec field.
    pub open spec fn wf(self) -> bool {
        self.projector.indices@.len() == self.partition_spec.fields@.len()
    }

    /// The batch has equally long columns and carries every projected
    /// column; trailing columns beyond those are allowed.
    pub open spec fn compat(self, b: Batch) -> bool {
        &&& b.wf()
        &&& self.projector.wf_for(b.num_columns())
    }

    /// Whether every partition transform is defined on row `i`.
    pub open spec fn row_ok(self, b: Batch, i: int) -> bool {
        forall|k: int|
            0 <= k < self.partition_spec.fields@.len()
                ==> (#[trigger] self.partition_spec.fields@[k]).transform.applies(
                b.columns@[self.projector.indices@[k] as int]@[i],
            )
    }

    /// Whether every partition transform is defined on every row.
    pub open spec fn batch_ok(self, b: Batch) -> bool {
        forall|i: int| 0 <= i < b.num_rows() ==> #[trigger] self.row_ok(b, i)
    }

    /// The partition key derived from row `i`: the transformed values of
    /// all partition fields, in spec field order.
    pub open spec fn row_key(self, b: Batch, i: int) -> Seq<i64> {
        Seq::new(
            self.partition_spec.fields@.len(),
            |k: int|
                (self.partition_spec.fields@[k].transform.value_of(
                    b.columns@[self.projector.indices@[k] as int]@[i],
                )) as i64,
        )
    }

    /// The indices of the rows among the first `n` whose key is `key`, in
    /// input order.
    pub open spec fn rows_with_key_upto(self, b: Batch, key: Seq<i64>, n: int) -> Seq<usize>
        decreases n,
    {
        if n <= 0 {
            Seq::empty()
        } else if self.row_key(b, n - 1) == key {
            self.rows_with_key_upto(b, key, n - 1).push((n - 1) as usize)
        } else {
            self.rows_with_key_upto(b, key, n - 1)
        }
    }

    /// The indices of all rows whose key is `key`, in input order.
    pub open spec fn rows_with_key(self, b: Batch, key: Seq<i64>) -> Seq<usize> {
        self.rows_with_key_upto(b, key, b.num_rows())
    }

    /// A sub-batch holds, for every column of the input, exactly the values
    /// of the rows in this key's bucket, in input order.
    pub open spec fn group_matches(self, b: Batch, key: Seq<i64>, sub: Batch) -> bool {
        let idxs = self.rows_with_key(b, key);
        &&& sub.columns@.len() == b.columns@.len()
        &&& forall|j: int|
            0 <= j < sub.columns@.len() ==> (#[trigger] sub.columns@[j])@.len() == idxs.len()
        &&& forall|j: int, p: int|
            0 <= j < sub.columns@.len() && 0 <= p < idxs.len() ==> (#[trigger] sub.columns@[j]@[p])
                == b.columns@[j]@[idxs[p] as int]
    }

    /// The typed partition value of a key: one field per spec field, pairing
    /// the partition field identifier with the transformed value.
    pub open spec fn spec_key_to_value(self, key: Seq<i64>) -> Seq<PartitionValueField> {
        Seq::new(
            self.partition_spec.fields@.len(),
            |k: int|
                PartitionValueField {
                    field_id: self.partition_spec.fields@[k].partition_field_id,
                    value: key[k],
                },
        )
    }

    /// Check that the projection covers exactly the spec's field list, and
    /// store the projection, the spec and the declared partition type for
    /// later evaluation. Fails exactly when the projection's width differs
    /// from the spec's.
    pub fn try_new(
        projector: FieldProjector,
        partition_spec: PartitionSpec,
        partition_type: PartitionType,
    ) -> (r: Result<PartitionSplitter, WriterError>)
        ensures
            match r {
                Ok(s) => {
                    &&& s.wf()
                    &&& s.projector == projector
                    &&& s.partition_spec == partition_spec
                    &&& s.partition_type == partition_type
                },
                Err(e) => {
                    &&& e == WriterError::SchemaMismatch
                    &&& projector.indices@.len() != partition_spec.fields@.len()
                },
            },
    {
        if projector.indices.len() != partition_spec.fields.len() {
            return Err(WriterError::SchemaMismatch);
        }
        Ok(PartitionSplitter { projector, partition_spec, partition_type })
    }

    /// Convert a previously produced key to its typed partition value, in
    /// spec field order; fails exactly on keys whose width this splitter
    /// cannot have produced.
    pub fn convert_key_to_value(&self, key: &PartitionKey) -> (r: Result<
        PartitionValue,
        WriterError,
    >)
        ensures
            key@.len() == self.partition_spec.fields@.len() ==> match r {
                Ok(v) => v@ == self.spec_key_to_value(key@),
                Err(_) => false,
            },
            key@.len() != self.partition_spec.fields@.len() ==> r == Err::<
                PartitionValue,
                WriterError,
            >(WriterError::InternalError),
    {
        if key.values.len() != self.partition_spec.fields.len() {
            return Err(WriterError::InternalError);
        }
        let mut fields: Vec<PartitionValueField> = Vec::new();
        let mut k: usize = 0;
        while k < self.partition_spec.fields.len()
            invariant
                k <= self.partition_spec.fields@.len(),
                key@.len() == self.partition_spec.fields@.len(),
                fields@.len() == k,
                forall|k2: int|
                    0 <= k2 < k ==> fields@[k2] == self.spec_key_to_value(key@)[k2],
            decreases self.partition_spec.fields@.len() - k,
        {
            fields.push(
                PartitionValueField {
                    field_id: self.partition_spec.fields[k].partition_field_id,
                    value: key.values[k],
                },
            );
            k += 1;
        }
        proof {
            assert(fields@ =~= self.spec_key_to_value(key@));
        }
        Ok(PartitionValue { fields })
    }

    /// The keys of a group list, in group order.
    pub open spec fn group_keys(groups: Seq<(PartitionKey, Batch)>) -> Seq<Seq<i64>> {
        Seq::new(groups.len(), |g: int| groups[g].0@)
    }

    /// Extending the scanned prefix by one row appends that row to its own
    /// key's bucket and leaves every other bucket unchanged.
    proof fn lemma_rows_upto_step(self, b: Batch, key: Seq<i64>, n: int)
        requires
            0 <= n <= usize::MAX,
        ensures
            self.row_key(b, n) == key ==> self.rows_with_key_upto(b, key, n + 1)
                == self.rows_with_key_upto(b, key, n).push(n as usize),
            self.row_key(b, n) != key ==> self.rows_with_key_upto(b, key, n + 1)
                == self.rows_with_key_upto(b, key, n),
    {
    }

    /// Group the batch's rows by derived partition key. Each returned pair
    /// carries a distinct key and the sub-batch of exactly the rows deriving
    /// that key, with the full original column set and input row order; the
    /// groups' keys cover every row. Fails exactly when some transform is
    /// undefined on some row, leaving no effect.
    pub fn split_by_partition(&self, batch: &Batch) -> (r: Result<
        Vec<(PartitionKey, Batch)>,
        WriterError,
    >)
        requires
            self.wf(),
            self.compat(*batch),
        ensures
            match r {
                Ok(groups) => {
                    &&& self.batch_ok(*batch)
                    &&& forall|g1: int, g2: int|
                        0 <= g1 < g2 < groups@.len() ==> groups@[g1].0@ != groups@[g2].0@
                    &&& forall|g: int|
                        0 <= g < groups@.len() ==> (#[trigger] groups@[g].0)@.len()
                            == self.partition_spec.fields@.len()
                    &&& forall|g: int|
                        0 <= g < groups@.len() ==> self.rows_with_key(
                            *batch,
                            (#[trigger] groups@[g].0)@,
                        ).len() > 0
                    &&& forall|g: int|
                        0 <= g < groups@.len() ==> self.group_matches(
                            *batch,
                            (#[trigger] groups@[g].0)@,
                            groups@[g].1,
                        )
                    &&& forall|i: int|
                        0 <= i < batch.num_rows() ==> Self::group_keys(groups@).contains(
                            #[trigger] self.row_key(*batch, i),
                        )
                },
                Err(e) => {
                    &&& e == WriterError::TransformError
                    &&& !self.batch_ok(*batch)
                },
            },
    {
        let n_rows: usize = if batch.columns.len() == 0 {
            0
        } else {
            batch.columns[0].len()
        };
        let mut keys: Vec<PartitionKey> = Vec::new();
        let mut row_lists: Vec<Vec<usize>> = Vec::new();
        let mut i: usize = 0;
        while i < n_rows
            invariant
                self.wf(),
                self.compat(*batch),
                n_rows as int == batch.num_rows(),
                i <= n_rows,
                keys@.len() == row_lists@.len(),
                forall|g1: int, g2: int| 0 <= g1 < g2 < keys@.len() ==> keys@[g1]@ != keys@[g2]@,
                forall|g: int|
                    0 <= g < keys@.len() ==> (#[trigger] keys@[g])@.len()
                        == self.partition_spec.fields@.len(),
                forall|g: int|
                    0 <= g < keys@.len() ==> (#[trigger] row_lists@[g])@
                        == self.rows_with_key_upto(*batch, keys@[g]@, i as int),
                forall|g: int| 0 <= g < keys@.len() ==> (#[trigger] row_lists@[g])@.len() > 0,
                forall|i2: int| 0 <= i2 < i ==> #[trigger] self.row_ok(*batch, i2),
                forall|i2: int|
                    0 <= i2 < i ==> exists|g: int|
                        0 <= g < keys@.len() && keys@[g]@ == #[trigger] self.row_key(*batch, i2),
            decreases n_rows - i,
        {
            let mut kv: Vec<i64> = Vec::new();
            let nf: usize = self.partition_spec.fields.len();
            let mut k: usize = 0;
            while k < nf
                invariant
                    self.wf(),
                    self.compat(*batch),
                    n_rows as int == batch.num_rows(),
                    i < n_rows,
                    nf == self.partition_spec.fields@.len(),
                    k <= nf,
                    kv@.len() == k,
                    forall|k2: int|
                        0 <= k2 < k ==> (
                        #[trigger] self.partition_spec.fields@[k2]).transform.applies(
                            batch.columns@[self.projector.indices@[k2] as int]@[i as int],
                        ),
                    forall|k2: int|
                        0 <= k2 < k ==> kv@[k2] == self.row_key(*batch, i as int)[k2],
                decreases nf - k,
            {
                let col: usize = self.projector.indices[k];
                let v: i64 = batch.columns[col][i];
                match self.partition_spec.fields[k].transform.apply(v) {
                    Ok(t) => {
                        kv.push(t);
                    },
                    Err(e) => {
                        proof {
                            assert(!self.row_ok(*batch, i as int));
                            assert(!self.batch_ok(*batch));
                        }
                        return Err(e);
                    },
                }
                k += 1;
            }
            let key = PartitionKey { values: kv };
            proof {
                assert(key@ =~= self.row_key(*batch, i as int));
                assert(self.row_ok(*batch, i as int));
            }
            let mut g: usize = 0;
            let mut found: bool = false;
            while g < keys.len() && !found
                invariant
                    g <= keys@.len(),
                    found ==> g < keys@.len() && keys@[g as int]@ == key@,
                    !found ==> forall|g2: int| 0 <= g2 < g ==> keys@[g2]@ != key@,
                decreases keys@.len() - g + (if found {
                    0int
                } else {
                    1int
                }),
            {
                if key_eq(&keys[g], &key) {
                    found = true;
                } else {
                    g += 1;
                }
            }
            let ghost keys0 = keys@;
            if found {
                row_lists[g].push(i);
            } else {
                let mut rl: Vec<usize> = Vec::new();
                rl.push(i);
                proof {
                    assert forall|i2: int| 0 <= i2 < i implies #[trigger] self.row_key(
                        *batch,
                        i2,
                    ) != key@ by {
                        let g2 = choose|g2: int|
                            0 <= g2 < keys@.len() && keys@[g2]@ == self.row_key(*batch, i2);
                        assert(keys@[g2]@ != key@);
                    }
                    self.lemma_rows_upto_empty(*batch, key@, i as int);
                }
                keys.push(key);
                row_lists.push(rl);
            }
            proof {
                assert forall|g2: int| 0 <= g2 < keys@.len() implies (#[trigger] row_lists@[g2])@
                    == self.rows_with_key_upto(*batch, keys@[g2]@, i + 1) by {
                    self.lemma_rows_upto_step(*batch, keys@[g2]@, i as int);
                }
                assert forall|i2: int| 0 <= i2 < i + 1 implies exists|g2: int|
                    0 <= g2 < keys@.len() && keys@[g2]@ == #[trigger] self.row_key(
                    *batch,
                    i2,
                ) by {
                    if i2 == i {
                        if found {
                            assert(keys@[g as int]@ == self.row_key(*batch, i2));
                        } else {
                            assert(keys@[keys@.len() - 1]@ == self.row_key(*batch, i2));
                        }
                    } else {
                        let g2 = choose|g2: int|
                            0 <= g2 < keys0.len() && keys0[g2]@ == self.row_key(*batch, i2);
                        assert(keys@[g2]@ == self.row_key(*batch, i2));
                    }
                }
            }
            i += 1;
        }
        // build one sub-batch per bucket
        let mut groups: Vec<(PartitionKey, Batch)> = Vec::new();
        let n_cols: usize = batch.columns.len();
        let mut g: usize = 0;
        while g < keys.len()
            invariant
                self.wf(),
                self.compat(*batch),
                n_rows as int == batch.num_rows(),
                n_cols == batch.columns@.len(),
                keys@.len() == row_lists@.len(),
                forall|g1: int, g2: int| 0 <= g1 < g2 < keys@.len() ==> keys@[g1]@ != keys@[g2]@,
                forall|g2: int|
                    0 <= g2 < keys@.len() ==> (#[trigger] keys@[g2])@.len()
                        == self.partition_spec.fields@.len(),
                forall|g2: int|
                    0 <= g2 < keys@.len() ==> (#[trigger] row_lists@[g2])@ == self.rows_with_key(
                        *batch,
                        keys@[g2]@,
                    ),
                forall|g2: int| 0 <= g2 < keys@.len() ==> (#[trigger] row_lists@[g2])@.len() > 0,
                g <= keys@.len(),
                groups@.len() == g,
                forall|g2: int| 0 <= g2 < g ==> (#[trigger] groups@[g2]).0@ == keys@[g2]@,
                forall|g2: int|
                    0 <= g2 < g ==> self.group_matches(
                        *batch,
                        (#[trigger] groups@[g2]).0@,
                        groups@[g2].1,
                    ),
            decreases keys@.len() - g,
        {
            proof {
                self.lemma_rows_upto_props(*batch, keys@[g as int]@, n_rows as int);
            }
            let rl_len: usize = row_lists[g].len();
            let mut cols: Vec<Vec<i64>> = Vec::new();
            let mut j: usize = 0;
            while j < n_cols
                invariant
                    self.compat(*batch),
                    n_rows as int == batch.num_rows(),
                    n_cols == batch.columns@.len(),
                    g < keys@.len(),
                    keys@.len() == row_lists@.len(),
                    rl_len == row_lists@[g as int]@.len(),
                    forall|q: int|
                        0 <= q < rl_len ==> (#[trigger] row_lists@[g as int]@[q]) < n_rows,
                    j <= n_cols,
                    cols@.len() == j,
                    forall|j2: int| 0 <= j2 < j ==> (#[trigger] cols@[j2])@.len() == rl_len,
                    forall|j2: int, p: int|
                        0 <= j2 < j && 0 <= p < rl_len ==> (#[trigger] cols@[j2]@[p])
                            == batch.columns@[j2]@[row_lists@[g as int]@[p] as int],
                decreases n_cols - j,
            {
                let mut col: Vec<i64> = Vec::new();
                let mut p: usize = 0;
                while p < rl_len
                    invariant
                        self.compat(*batch),
                        n_rows as int == batch.num_rows(),
                        n_cols == batch.columns@.len(),
                        g < keys@.len(),
                        keys@.len() == row_lists@.len(),
                        j < n_cols,
                        rl_len == row_lists@[g as int]@.len(),
                        forall|q: int|
                            0 <= q < rl_len ==> (#[trigger] row_lists@[g as int]@[q]) < n_rows,
                        p <= rl_len,
                        col@.len() == p,
                        forall|q: int|
                            0 <= q < p ==> (#[trigger] col@[q])
                                == batch.columns@[j as int]@[row_lists@[g as int]@[q] as int],
                    decreases rl_len - p,
                {
                    let idx: usize = row_lists[g][p];
                    col.push(batch.columns[j][idx]);
                    p += 1;
                }
                cols.push(col);
                j += 1;
            }
            let sub = Batch { columns: cols };
            let key_copy = keys[g].clone();
            groups.push((key_copy, sub));
            g += 1;
        }
        proof {
            assert forall|g2: int|
                0 <= g2 < groups@.len() implies self.rows_with_key(
                *batch,
                (#[trigger] groups@[g2]).0@,
            ).len() > 0 by {
                assert(row_lists@[g2]@ == self.rows_with_key(*batch, keys@[g2]@));
                assert(row_lists@[g2]@.len() > 0);
                assert(groups@[g2].0@ == keys@[g2]@);
            }
            assert forall|i2: int|
                0 <= i2 < batch.num_rows() implies Self::group_keys(groups@).contains(
                #[trigger] self.row_key(*batch, i2),
            ) by {
                let g2 = choose|g2: int|
                    0 <= g2 < keys@.len() && keys@[g2]@ == self.row_key(*batch, i2);
                assert((#[trigger] groups@[g2]).0@ == self.row_key(*batch, i2));
                assert(Self::group_keys(groups@)[g2] == self.row_key(*batch, i2));
            }
        }
        Ok(groups)
    }

    /// Every index in a bucket is a row index below `n` whose derived key is
    /// the bucket's key, and bucket entries strictly increase.
    pub proof fn lemma_rows_upto_props(self, b: Batch, key: Seq<i64>, n: int)
        requires
            n <= usize::MAX,
        ensures
            forall|q: int|
                0 <= q < self.rows_with_key_upto(b, key, n).len() ==> {
                    let idx = #[trigger] self.rows_with_key_upto(b, key, n)[q];
                    &&& 0 <= idx < n
                    &&& self.row_key(b, idx as int) == key
                },
            forall|q1: int, q2: int|
                0 <= q1 < q2 < self.rows_with_key_upto(b, key, n).len()
                    ==> self.rows_with_key_upto(b, key, n)[q1] < self.rows_with_key_upto(
                    b,
                    key,
                    n,
                )[q2],
        decreases n,
    {
        if n > 0 {
            self.lemma_rows_upto_props(b, key, n - 1);
            let prev = self.rows_with_key_upto(b, key, n - 1);
            let cur = self.rows_with_key_upto(b, key, n);
            if self.row_key(b, n - 1) == key {
                assert(cur == prev.push((n - 1) as usize));
                assert forall|q: int| 0 <= q < cur.len() implies {
                    let idx = #[trigger] cur[q];
                    &&& 0 <= idx < n
                    &&& self.row_key(b, idx as int) == key
                } by {
                    if q < prev.len() {
                        assert(cur[q] == prev[q]);
                    } else {
                        assert(cur[q] == (n - 1) as usize);
                    }
                }
                assert forall|q1: int, q2: int| 0 <= q1 < q2 < cur.len() implies (
                #[trigger] cur[q1]) < (#[trigger] cur[q2]) by {
                    assert(cur[q1] == prev[q1]);
                    if q2 < prev.len() {
                        assert(cur[q2] == prev[q2]);
                    } else {
                        assert(cur[q2] == (n - 1) as usize);
                        assert(prev[q1] < n - 1);
                    }
                }
            } else {
                assert(cur == prev);
            }
        }
    }

    /// A row below `n` whose derived key is `key` lies in the bucket of
    /// `key`.
    pub proof fn lemma_rows_upto_contains(self, b: Batch, key: Seq<i64>, n: int, i: int)
        requires
            0 <= i < n <= usize::MAX,
            self.row_key(b, i) == key,
        ensures
            self.rows_with_key_upto(b, key, n).contains(i as usize),
        decreases n,
    {
        if i == n - 1 {
            let prev = self.rows_with_key_upto(b, key, n - 1);
            assert(self.rows_with_key_upto(b, key, n) == prev.push(i as usize));
            assert(prev.push(i as usize)[prev.len() as int] == i as usize);
        } else {
            self.lemma_rows_upto_contains(b, key, n - 1, i);
            let prev = self.rows_with_key_upto(b, key, n - 1);
            let q = choose|q: int| 0 <= q < prev.len() && prev[q] == i as usize;
            assert(self.rows_with_key_upto(b, key, n)[q] == i as usize);
        }
    }

    /// If no row below `n` derives the key, its bucket is empty.
    pub proof fn lemma_rows_upto_empty(self, b: Batch, key: Seq<i64>, n: int)
        requires
            forall|i: int| 0 <= i < n ==> #[trigger] self.row_key(b, i) != key,
        ensures
            self.rows_with_key_upto(b, key, n).len() == 0,
        decreases n,
    {
        if n > 0 {
            self.lemma_rows_upto_empty(b, key, n - 1);
        }
    }

    /// Row `i` lies in the bucket of its own derived key.
    pub open spec fn in_own_bucket(self, b: Batch, keys: Seq<Seq<i64>>, i: int) -> bool {
        exists|g: int|
            0 <= g < keys.len() && keys[g] == self.row_key(b, i) && (#[trigger] self.rows_with_key(
                b,
                keys[g],
            )).contains(i as usize)
    }

    /// Splitting recovers exactly the input rows. Under the guarantees of
    /// `split_by_partition` — pairwise distinct bucket keys that cover every
    /// row's derived key — every row index lands in a bucket, no row index
    /// lands in two buckets, each bucket lists its row indices strictly in
    /// input order (so none twice), and buckets hold nothing but input row
    /// indices carrying the bucket's key.
    pub proof fn lemma_split_partitions_rows(self, b: Batch, keys: Seq<Seq<i64>>)
        requires
            b.num_rows() <= usize::MAX,
            forall|g1: int, g2: int| 0 <= g1 < g2 < keys.len() ==> keys[g1] != keys[g2],
            forall|i: int|
                0 <= i < b.num_rows() ==> exists|g: int|
                    0 <= g < keys.len() && keys[g] == #[trigger] self.row_key(b, i),
        ensures
            forall|i: int|
                0 <= i < b.num_rows() ==> #[trigger] self.in_own_bucket(b, keys, i),
            forall|g1: int, g2: int, idx: usize|
                0 <= g1 < keys.len() && 0 <= g2 < keys.len() && (#[trigger] self.rows_with_key(
                    b,
                    keys[g1],
                ).contains(idx)) && (#[trigger] self.rows_with_key(b, keys[g2]).contains(idx))
                    ==> g1 == g2,
            forall|g: int, q1: int, q2: int|
                0 <= g < keys.len() && 0 <= q1 < q2 < self.rows_with_key(b, keys[g]).len()
                    ==> (#[trigger] self.rows_with_key(b, keys[g])[q1])
                        < (#[trigger] self.rows_with_key(b, keys[g])[q2]),
            forall|g: int, q: int|
                0 <= g < keys.len() && 0 <= q < self.rows_with_key(b, keys[g]).len() ==> {
                    let idx = #[trigger] self.rows_with_key(b, keys[g])[q];
                    &&& 0 <= idx < b.num_rows()
                    &&& self.row_key(b, idx as int) == keys[g]
                },
    {
        let n = b.num_rows();
        assert forall|g: int, q: int|
            0 <= g < keys.len() && 0 <= q < self.rows_with_key(b, keys[g]).len() implies {
            let idx = #[trigger] self.rows_with_key(b, keys[g])[q];
            &&& 0 <= idx < n
            &&& self.row_key(b, idx as int) == keys[g]
        } by {
            self.lemma_rows_upto_props(b, keys[g], n);
        }
        assert forall|g: int, q1: int, q2: int|
            0 <= g < keys.len() && 0 <= q1 < q2 < self.rows_with_key(b, keys[g]).len() implies (
        #[trigger] self.rows_with_key(b, keys[g])[q1]) < (#[trigger] self.rows_with_key(
            b,
            keys[g],
        )[q2]) by {
            self.lemma_rows_upto_props(b, keys[g], n);
        }
        assert forall|i: int| 0 <= i < b.num_rows() implies #[trigger] self.in_own_bucket(
            b,
            keys,
            i,
        ) by {
            let g = choose|g: int| 0 <= g < keys.len() && keys[g] == self.row_key(b, i);
            self.lemma_rows_upto_contains(b, keys[g], n, i);
            assert(0 <= g < keys.len() && keys[g] == self.row_key(b, i)
                && self.rows_with_key(b, keys[g]).contains(i as usize));
        }
        assert forall|g1: int, g2: int, idx: usize|
            0 <= g1 < keys.len() && 0 <= g2 < keys.len() && (#[trigger] self.rows_with_key(
                b,
                keys[g1],
            ).contains(idx)) && (#[trigger] self.rows_with_key(b, keys[g2]).contains(idx))
            implies g1 == g2 by {
            self.lemma_rows_upto_props(b, keys[g1], n);
            self.lemma_rows_upto_props(b, keys[g2], n);
            let q1 = choose|q: int|
                0 <= q < self.rows_with_key(b, keys[g1]).len() && self.rows_with_key(
                    b,
                    keys[g1],
                )[q] == idx;
            let q2 = choose|q: int|
                0 <= q < self.rows_with_key(b, keys[g2]).len() && self.rows_with_key(
                    b,
                    keys[g2],
                )[q] == idx;
            assert(self.row_key(b, idx as int) == keys[g1]);
            assert(self.row_key(b, idx as int) == keys[g2]);
            if g1 < g2 || g2 < g1 {
                assert(keys[g1] != keys[g2]);
            }
        }
    }

    /// Rows with identical transformed values for every partition field
    /// land in the same bucket: the bucket of their shared key.
    pub proof fn lemma_same_key_same_bucket(self, b: Batch, i1: int, i2: int)
        requires
            0 <= i1 < b.num_rows(),
            0 <= i2 < b.num_rows(),
            b.num_rows() <= usize::MAX,
            self.row_key(b, i1) == self.row_key(b, i2),
        ensures
            self.rows_with_key(b, self.row_key(b, i1)).contains(i1 as usize),
            self.rows_with_key(b, self.row_key(b, i1)).contains(i2 as usize),
    {
        self.lemma_rows_upto_contains(b, self.row_key(b, i1), b.num_rows(), i1);
        self.lemma_rows_upto_contains(b, self.row_key(b, i1), b.num_rows(), i2);
    }

    /// Converting a key to its typed value is deterministic and stable: any
    /// two conversions of the same key by the same splitter agree.
    pub proof fn lemma_key_to_value_stable(
        self,
        key: Seq<i64>,
        v1: Seq<PartitionValueField>,
        v2: Seq<PartitionValueField>,
    )
        requires
            v1 == self.spec_key_to_value(key),
            v2 == self.spec_key_to_value(key),
        ensures
            v1 == v2,
    {
    }
}

} // verus!
