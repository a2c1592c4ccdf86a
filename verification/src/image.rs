use vstd::prelude::*;
use crate::errors::{ScanError, VolumeProperty};
use crate::paths::parent_of;

verus! {

// ---------------------------------------------------------------------------
// Per-volume metadata: what the first member file of a volume reports, and
// the validated descriptor derived from it.
// ---------------------------------------------------------------------------

/// The cheap metadata read from a volume's first member file, before any
/// validation: raw spatial extent, sample layout, and modality code.
pub struct SliceMeta {
    pub columns: u32,
    pub rows: u32,
    pub bits_allocated: u16,
    pub samples_per_pixel: u16,
    pub modality: String,
}

/// A validated volume descriptor: spatial extent, modality and frame count
/// of one logical volume, plus its member file list for a later sample
/// decode.
///
/// Samples are 16-bit monochrome; `columns`, `rows` and `frames` fit an
/// unsigned 16-bit range.
pub struct DicomImage {
    pub path: String,
    pub modality: String,
    pub columns: usize,
    pub rows: usize,
    pub frames: usize,
    pub files: Vec<String>,
}

/// The metadata constraints a supported volume meets: 16-bit samples,
/// monochrome, spatial extent within the unsigned 16-bit range.
pub open spec fn meta_supported(columns: u32, rows: u32, bits_allocated: u16, spp: u16) -> bool {
    &&& bits_allocated == 16
    &&& spp == 1
    &&& columns <= 0xFFFF
    &&& rows <= 0xFFFF
}

impl DicomImage {
    /// Internal consistency of a descriptor.
    pub open spec fn wf(self) -> bool {
        &&& self.columns <= 0xFFFF
        &&& self.rows <= 0xFFFF
        &&& 1 <= self.frames <= 0xFFFF
        &&& self.frames == self.files@.len()
    }

    /// Derives the descriptor of one logical volume from its member file
    /// list and the metadata of its first member, without touching any
    /// sample data.
    ///
    /// The volume's location is the first member's parent directory; its
    /// frame count is the member count. Fails with `UnsupportedVolume`,
    /// naming the violated constraint and the observed value, when the
    /// metadata reports anything but 16-bit monochrome samples, or when an
    /// extent or the frame count exceeds the unsigned 16-bit range.
    pub fn describe(files: Vec<String>, meta: &SliceMeta) -> (r: Result<DicomImage, ScanError>)
        requires
            files@.len() >= 1,
        ensures
            r is Ok <==> meta_supported(
                meta.columns,
                meta.rows,
                meta.bits_allocated,
                meta.samples_per_pixel,
            ) && files@.len() <= 0xFFFF,
            match r {
                Ok(img) => {
                    &&& img.wf()
                    &&& img.path@ == parent_of(files@[0]@)
                    &&& img.modality@ == meta.modality@
                    &&& img.columns == meta.columns
                    &&& img.rows == meta.rows
                    &&& img.frames == files@.len()
                    &&& img.files@ == files@
                },
                Err(e) => describe_error(
                    meta.columns,
                    meta.rows,
                    meta.bits_allocated,
                    meta.samples_per_pixel,
                    files@.len() as int,
                ) == Some(e),
            },
    {
        if meta.bits_allocated != 16 {
            return Err(ScanError::UnsupportedVolume {
                property: VolumeProperty::BitsAllocated,
                value: meta.bits_allocated as u32,
            });
        }
        if meta.samples_per_pixel != 1 {
            return Err(ScanError::UnsupportedVolume {
                property: VolumeProperty::SamplesPerPixel,
                value: meta.samples_per_pixel as u32,
            });
        }
        if meta.columns > 0xFFFF {
            return Err(ScanError::UnsupportedVolume {
                property: VolumeProperty::Columns,
                value: meta.columns,
            });
        }
        if meta.rows > 0xFFFF {
            return Err(ScanError::UnsupportedVolume {
                property: VolumeProperty::Rows,
                value: meta.rows,
            });
        }
        if files.len() > 0xFFFF {
            let observed: u32 = if files.len() > 0xFFFF_FFFF {
                0xFFFF_FFFF
            } else {
                files.len() as u32
            };
            return Err(ScanError::UnsupportedVolume {
                property: VolumeProperty::Frames,
                value: observed,
            });
        }
        let path = crate::paths::parent_dir(files[0].as_str());
        let frames = files.len();
        Ok(DicomImage {
            path,
            modality: clone_string(&meta.modality),
            columns: meta.columns as usize,
            rows: meta.rows as usize,
            frames,
            files,
        })
    }
}

/// The error `describe` reports for unsupported metadata, in the order the
/// constraints are checked; `None` when the metadata is supported.
pub open spec fn describe_error(
    columns: u32,
    rows: u32,
    bits_allocated: u16,
    spp: u16,
    frames: int,
) -> Option<ScanError> {
    if bits_allocated != 16 {
        Some(
            ScanError::UnsupportedVolume {
                property: VolumeProperty::BitsAllocated,
                value: bits_allocated as u32,
            },
        )
    } else if spp != 1 {
        Some(
            ScanError::UnsupportedVolume {
                property: VolumeProperty::SamplesPerPixel,
                value: spp as u32,
            },
        )
    } else if columns > 0xFFFF {
        Some(ScanError::UnsupportedVolume { property: VolumeProperty::Columns, value: columns })
    } else if rows > 0xFFFF {
        Some(ScanError::UnsupportedVolume { property: VolumeProperty::Rows, value: rows })
    } else if frames > 0xFFFF {
        Some(
            ScanError::UnsupportedVolume {
                property: VolumeProperty::Frames,
                value: if frames > 0xFFFF_FFFF {
                    0xFFFF_FFFFu32
                } else {
                    frames as u32
                },
            },
        )
    } else {
        None
    }
}

/// A copy of a string with the same characters.
pub fn clone_string(s: &String) -> (r: String)
    ensures
        r@ == s@,
{
    s.clone()
}

} // verus!
