use vstd::prelude::*;
use crate::projection::ColumnKind;

verus! {

// ---------------------------------------------------------------------------
// The table-provider configuration for a host query engine, and the fixed
// schema it exposes.
// ---------------------------------------------------------------------------

/// The physical type of one column of the dataset.
#[derive(Clone, Copy, Debug, PartialEq, Eq, Structural)]
pub enum ColumnType {
    /// A UTF-8 string.
    Utf8,
    /// A dictionary-coded short string with a 16-bit key domain.
    Dictionary16,
    /// An unsigned 16-bit integer.
    UInt16,
    /// An opaque binary value with 64-bit addressing.
    LargeBinary,
}

/// The fixed six-column schema: each column with its physical type, in
/// canonical order.
pub open spec fn spec_schema() -> Seq<(ColumnKind, ColumnType)> {
    seq![
        (ColumnKind::Path, ColumnType::Utf8),
        (ColumnKind::Modality, ColumnType::Dictionary16),
        (ColumnKind::Columns, ColumnType::UInt16),
        (ColumnKind::Rows, ColumnType::UInt16),
        (ColumnKind::Frames, ColumnType::UInt16),
        (ColumnKind::Voxels, ColumnType::LargeBinary),
    ]
}

/// A table over the volumes under one root location, for a host query
/// engine's adapter to expose.
pub struct DicomTableProvider {
    pub path: String,
}

impl DicomTableProvider {
    /// A table over the volumes under `path`.
    pub fn new(path: &str) -> (r: DicomTableProvider)
        ensures
            r.path@ == path@,
    {
        DicomTableProvider { path: path.to_owned() }
    }

    /// The fixed six-column schema of every scan of this table.
    pub fn schema(&self) -> (r: Vec<(ColumnKind, ColumnType)>)
        ensures
            r@ == spec_schema(),
    {
        let mut r: Vec<(ColumnKind, ColumnType)> = Vec::new();
        r.push((ColumnKind::Path, ColumnType::Utf8));
        r.push((ColumnKind::Modality, ColumnType::Dictionary16));
        r.push((ColumnKind::Columns, ColumnType::UInt16));
        r.push((ColumnKind::Rows, ColumnType::UInt16));
        r.push((ColumnKind::Frames, ColumnType::UInt16));
        r.push((ColumnKind::Voxels, ColumnType::LargeBinary));
        proof {
            assert(r@ =~= spec_schema());
        }
        r
    }
}

} // verus!
