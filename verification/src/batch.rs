use vstd::prelude::*;

verus! {

/// One column of a schema: a stable column identifier and a display name.
#[derive(Clone, Debug, PartialEq)]
pub struct Column {
    pub id: i64,
    pub name: String,
}

/// An ordered, named column list, shared between the fanout writer and the
/// inner writers it spawns.
#[derive(Clone, Debug, PartialEq)]
pub struct Schema {
    pub columns: Vec<Column>,
}

impl Schema {
    /// Whether some column carries the given identifier.
    pub open spec fn has_column(self, id: i64) -> bool {
        exists|j: int| 0 <= j < self.columns@.len() && self.columns@[j].id == id
    }
}

/// An immutable columnar chunk of rows: one integer column per schema
/// column, all columns of equal length.
#[derive(Clone, Debug, PartialEq)]
pub struct Batch {
    pub columns: Vec<Vec<i64>>,
}

impl Batch {
    /// Every column holds exactly one value per row.
    pub open spec fn wf(self) -> bool {
        forall|j: int|
            0 <= j < self.columns@.len() ==> (#[trigger] self.columns@[j])@.len()
                == self.num_rows()
    }

    /// The number of rows: the length of the first column, or zero for a
    /// batch without columns.
    pub open spec fn num_rows(self) -> int {
        if self.columns@.len() == 0 {
            0
        } else {
            self.columns@[0]@.len() as int
        }
    }

    /// The number of columns.
    pub open spec fn num_columns(self) -> int {
        self.columns@.len() as int
    }

    /// The values of one row across all columns, in column order.
    pub open spec fn row(self, i: int) -> Seq<i64> {
        Seq::new(self.columns@.len(), |j: int| self.columns@[j]@[i])
    }
}

} // verus!
