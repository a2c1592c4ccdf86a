use vstd::prelude::*;

verus! {

/// The volume properties that metadata validation checks, named so that a
/// failed check can report exactly which constraint was violated.
#[derive(Clone, Copy, Debug, PartialEq, Eq, Structural)]
pub enum VolumeProperty {
    BitsAllocated,
    SamplesPerPixel,
    Columns,
    Rows,
    Frames,
}

/// Failures of a scan or of a single volume's visit.
///
/// `DirectoryScan` and `UnknownColumns` are scan-level: nothing is produced.
/// `VolumeOpen` and `UnsupportedVolume` are volume-level: they abort the
/// batch that the volume would have joined.
#[derive(Debug)]
pub enum ScanError {
    /// The root, or a visited parent directory, could not be read.
    DirectoryScan { path: String },
    /// The first member file of a volume could not be opened or decoded.
    VolumeOpen { path: String },
    /// A volume violates a metadata constraint; carries the violated
    /// property and the observed value.
    UnsupportedVolume { property: VolumeProperty, value: u32 },
    /// A projection requested names outside the known column set; carries
    /// every unrecognized name, first occurrences in request order.
    UnknownColumns { names: Vec<String> },
}

} // verus!
