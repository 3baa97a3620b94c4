//! Columns and chunks: the in-memory values the writer serializes.

use vstd::prelude::*;

use crate::datatypes::DataType;
use crate::error::Error;

verus! {

/// One column of values, tagged with its physical kind. The set is closed:
/// per-kind encode logic dispatches on the tag, and kinds the encoder does
/// not support are rejected explicitly rather than by a silent default.
pub enum Array {
    Int32(Vec<i32>),
    Utf8(Vec<String>),
    LargeUtf8(Vec<String>),
    /// Dictionary-encoded text column: `keys` are indices into `values`,
    /// the separately transmitted dictionary.
    Dictionary { keys: Vec<i32>, values: Vec<String> },
    /// A column of the given length carrying no values; unsupported by the
    /// encoder.
    Null(usize),
}

impl Array {
    /// Number of rows in the column.
    pub open spec fn spec_len(&self) -> nat {
        match self {
            Array::Int32(v) => v@.len(),
            Array::Utf8(v) => v@.len(),
            Array::LargeUtf8(v) => v@.len(),
            Array::Dictionary { keys, .. } => keys@.len(),
            Array::Null(n) => *n as nat,
        }
    }

    pub fn len(&self) -> (n: usize)
        ensures
            n == self.spec_len(),
    {
        match self {
            Array::Int32(v) => v.len(),
            Array::Utf8(v) => v.len(),
            Array::LargeUtf8(v) => v.len(),
            Array::Dictionary { keys, .. } => keys.len(),
            Array::Null(n) => *n,
        }
    }

    /// The logical type this column carries.
    pub open spec fn spec_data_type(&self) -> DataType {
        match self {
            Array::Int32(_) => DataType::Int32,
            Array::Utf8(_) => DataType::Utf8,
            Array::LargeUtf8(_) => DataType::LargeUtf8,
            Array::Dictionary { .. } => DataType::Dictionary,
            Array::Null(_) => DataType::Null,
        }
    }

    pub fn data_type(&self) -> (dt: DataType)
        ensures
            dt == self.spec_data_type(),
    {
        match self {
            Array::Int32(_) => DataType::Int32,
            Array::Utf8(_) => DataType::Utf8,
            Array::LargeUtf8(_) => DataType::LargeUtf8,
            Array::Dictionary { .. } => DataType::Dictionary,
            Array::Null(_) => DataType::Null,
        }
    }

    /// The text values of a `Utf8` or `LargeUtf8` column.
    pub open spec fn spec_strings(&self) -> Seq<Seq<char>> {
        match self {
            Array::Utf8(v) => v.deep_view(),
            Array::LargeUtf8(v) => v.deep_view(),
            _ => Seq::empty(),
        }
    }
}

/// One record batch: an ordered set of columns that all share the same row
/// count.
pub struct Chunk {
    pub arrays: Vec<Array>,
}

impl Chunk {
    /// All columns share one row count.
    pub open spec fn wf(&self) -> bool {
        forall|i: int|
            0 <= i < self.arrays@.len() ==> (#[trigger] self.arrays@[i]).spec_len()
                == self.arrays@[0].spec_len()
    }

    /// Shared row count of the columns (0 for a chunk without columns).
    pub open spec fn spec_rows(&self) -> nat {
        if self.arrays@.len() == 0 {
            0
        } else {
            self.arrays@[0].spec_len()
        }
    }

    /// Builds a chunk, rejecting column sets with unequal row counts.
    pub fn try_new(arrays: Vec<Array>) -> (r: Result<Chunk, Error>)
        ensures
            match r {
                Ok(c) => c.wf() && c.arrays == arrays,
                Err(e) => {
                    &&& e == Error::InvalidArgument
                    &&& exists|i: int|
                        0 <= i < arrays@.len() && (#[trigger] arrays@[i]).spec_len()
                            != arrays@[0].spec_len()
                },
            },
    {
        let n = arrays.len();
        if n > 0 {
            let rows = arrays[0].len();
            for i in 0..n
                invariant
                    n == arrays@.len(),
                    rows == arrays@[0].spec_len(),
                    forall|k: int| 0 <= k < i ==> (#[trigger] arrays@[k]).spec_len() == rows,
            {
                if arrays[i].len() != rows {
                    return Err(Error::InvalidArgument);
                }
            }
        }
        Ok(Chunk { arrays })
    }

    pub fn num_rows(&self) -> (n: usize)
        ensures
            n == self.spec_rows(),
    {
        if self.arrays.len() == 0 {
            0
        } else {
            self.arrays[0].len()
        }
    }
}

} // verus!
