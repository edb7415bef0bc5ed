//! Errors surfaced by the export pipeline.

use vstd::prelude::*;

use crate::ir::TypeId;

verus! {

/// A fatal condition found while preparing or rendering an export. The
/// pipeline has no partial-success mode: a run either produces the complete
/// file set or stops at the first of these.
#[derive(Clone, PartialEq, Eq, Debug)]
pub enum ExportError {
    /// The export was given an empty target path.
    InvalidTarget,
    /// One type would be written to two output files.
    DuplicateExport { name: String },
    /// A field references an identity that neither the registry nor the
    /// builtin name map knows.
    UnknownType { id: TypeId },
    /// An internally tagged enum holds a tuple variant, which that
    /// representation cannot lay out.
    InvalidEnumRepr { name: String },
    /// The serialize and deserialize naming conventions disagree.
    MismatchedCaseConvention,
}

impl ExportError {
    /// A short description, one per variant.
    pub fn describe(&self) -> (r: &'static str)
        ensures
            (*self is InvalidTarget) ==> r@ == "invalid export target"@,
            (*self is DuplicateExport) ==> r@ == "type exported to multiple files"@,
            (*self is UnknownType) ==> r@ == "unknown type referenced by a field"@,
            (*self is InvalidEnumRepr) ==> r@ == "internally tagged enum with a tuple variant"@,
            (*self is MismatchedCaseConvention) ==> r@
                == "serialize and deserialize case conventions disagree"@,
    {
        match self {
            ExportError::InvalidTarget => "invalid export target",
            ExportError::DuplicateExport { .. } => "type exported to multiple files",
            ExportError::UnknownType { .. } => "unknown type referenced by a field",
            ExportError::InvalidEnumRepr { .. } => "internally tagged enum with a tuple variant",
            ExportError::MismatchedCaseConvention => "serialize and deserialize case conventions disagree",
        }
    }
}

} // verus!
