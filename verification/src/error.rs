use vstd::prelude::*;

verus! {

/// The error kinds of the write path.
#[derive(Clone, Copy, Debug, PartialEq, Eq, Structural)]
pub enum WriterError {
    /// A declared partition source column is absent from the target schema,
    /// or the declared partition type does not match the partition spec.
    SchemaMismatch,
    /// A partition transform could not be evaluated for some row's value.
    TransformError,
    /// An inner writer's write or flush failed.
    InnerWriterError,
    /// A key was handed back that this splitter cannot have produced.
    InternalError,
}

impl WriterError {
    /// A short description of the error kind.
    pub fn describe(&self) -> (r: &'static str)
        ensures
            r@ == match self {
                WriterError::SchemaMismatch => "schema mismatch"@,
                WriterError::TransformError => "transform failed"@,
                WriterError::InnerWriterError => "inner writer failed"@,
                WriterError::InternalError => "internal consistency error"@,
            },
    {
        match self {
            WriterError::SchemaMismatch => "schema mismatch",
            WriterError::TransformError => "transform failed",
            WriterError::InnerWriterError => "inner writer failed",
            WriterError::InternalError => "internal consistency error",
        }
    }
}

} // verus!
