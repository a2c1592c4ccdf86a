use vstd::prelude::*;
use crate::batch::{
    batch_ok, build_batch, distinct_count, row_model, row_models, row_wf, BatchRow, OutputBatch,
    RowModel, lemma_distinct_count_subrange,
};
use crate::errors::ScanError;
use crate::image::{clone_string, describe_error, meta_supported, DicomImage, SliceMeta};
use crate::paths::parent_of;
use crate::projection::{
    flags_of_request, resolve_projection, unknown_columns, ProjectionFlags,
};
use crate::voxels::{collect_samples, decoded_samples, le_bytes_of};

verus! {

// ---------------------------------------------------------------------------
// The scan pipeline over in-memory volume contents: visiting volumes in
// index order, validating each, decoding samples when requested, and
// emitting fixed-size columnar chunks under a row limit.
// ---------------------------------------------------------------------------

/// One logical volume's on-disk content, as a scan finds it: its member
/// file paths, the metadata its first member reports, and the decode
/// outcome of each member's pixel plane (`None` for a member that fails to
/// decode).
pub struct VolumeSource {
    pub files: Vec<String>,
    pub meta: SliceMeta,
    pub frames: Vec<Option<Vec<i16>>>,
}

impl VolumeSource {
    /// One decode outcome per member file.
    pub open spec fn wf(self) -> bool {
        self.files@.len() == self.frames@.len()
    }
}

/// Whether visiting this volume succeeds under the given flags: it has
/// members, its metadata is supported, its frame count fits the schema,
/// and — only when samples are materialized — its first member decodes.
pub open spec fn volume_ok(v: VolumeSource, flags: ProjectionFlags) -> bool {
    &&& v.files@.len() >= 1
    &&& v.files@.len() <= 0xFFFF
    &&& meta_supported(v.meta.columns, v.meta.rows, v.meta.bits_allocated, v.meta.samples_per_pixel)
    &&& (flags.voxels ==> v.frames@[0] is Some)
}

/// Which error a failed visit of this volume reports.
pub open spec fn fault_matches(v: VolumeSource, flags: ProjectionFlags, e: ScanError) -> bool {
    if v.files@.len() == 0 {
        e matches ScanError::VolumeOpen { path } && path@ == Seq::<char>::empty()
    } else if describe_error(
        v.meta.columns,
        v.meta.rows,
        v.meta.bits_allocated,
        v.meta.samples_per_pixel,
        v.files@.len() as int,
    ) is Some {
        Some(e) == describe_error(
            v.meta.columns,
            v.meta.rows,
            v.meta.bits_allocated,
            v.meta.samples_per_pixel,
            v.files@.len() as int,
        )
    } else if flags.voxels && v.frames@[0] is None {
        e matches ScanError::VolumeOpen { path } && path@ == v.files@[0]@
    } else {
        false
    }
}

/// The row a successful visit of this volume contributes: its parent
/// directory as the volume's location, the metadata columns, and — when
/// samples are materialized — the decoded buffer packed as little-endian
/// bytes.
pub open spec fn source_model(v: VolumeSource, flags: ProjectionFlags) -> RowModel {
    RowModel {
        path: parent_of(v.files@[0]@),
        modality: v.meta.modality@,
        columns: v.meta.columns as u16,
        rows: v.meta.rows as u16,
        frames: v.files@.len() as u16,
        voxel_bytes: if flags.voxels {
            le_bytes_of(
                decoded_samples(v.frames.deep_view(), (v.meta.columns * v.meta.rows) as nat),
            )
        } else {
            Seq::empty()
        },
    }
}

/// Copies of the strings of `v`, character for character.
fn clone_strings(v: &Vec<String>) -> (r: Vec<String>)
    ensures
        r.deep_view() == v.deep_view(),
        r@.len() == v@.len(),
{
    let mut r: Vec<String> = Vec::new();
    let mut i: usize = 0;
    while i < v.len()
        invariant
            i <= v.len(),
            r@.len() == i,
            forall|j: int| 0 <= j < i ==> r.deep_view()[j] == v.deep_view()[j],
        decreases v.len() - i,
    {
        r.push(clone_string(&v[i]));
        i = i + 1;
    }
    proof {
        assert(r.deep_view() =~= v.deep_view());
    }
    r
}

/// Visits one volume: validates its metadata into a descriptor and, when
/// the `voxels` column materializes, decodes its members into a sample
/// buffer. A volume with no members, or whose first member fails to decode
/// while samples are needed, fails with `VolumeOpen`; unsupported metadata
/// fails as `describe` reports it.
pub fn visit_volume(v: &VolumeSource, flags: ProjectionFlags) -> (r: Result<BatchRow, ScanError>)
    requires
        v.wf(),
    ensures
        r is Ok <==> volume_ok(*v, flags),
        match r {
            Ok(row) => row_wf(row, flags) && row_model(row) == source_model(*v, flags),
            Err(e) => fault_matches(*v, flags, e),
        },
{
    if v.files.len() == 0 {
        return Err(ScanError::VolumeOpen { path: String::new() });
    }
    let files = clone_strings(&v.files);
    let img = match DicomImage::describe(files, &v.meta) {
        Ok(img) => img,
        Err(e) => {
            return Err(e);
        },
    };
    proof {
        assert(img.path@ == parent_of(v.files@[0]@)) by {
            assert(img.files@[0]@ == v.files.deep_view()[0]);
        }
    }
    if flags.voxels {
        let first_decodes = match &v.frames[0] {
            Some(_) => true,
            None => false,
        };
        if !first_decodes {
            return Err(ScanError::VolumeOpen { path: clone_string(&v.files[0]) });
        }
        let buf = collect_samples(img.columns, img.rows, &v.frames);
        let row = BatchRow { image: img, voxels: Some(buf) };
        proof {
            assert(row_model(row) == source_model(*v, flags));
        }
        Ok(row)
    } else {
        let row = BatchRow { image: img, voxels: None };
        proof {
            assert(row_model(row) == source_model(*v, flags));
        }
        Ok(row)
    }
}

/// A scan hook for a host dataframe library: the root location whose
/// volumes a lazy scan materializes on demand.
pub struct DicomScan {
    pub path: String,
}

impl DicomScan {
    /// A scan over the volumes under `path`.
    pub fn new(path: &str) -> (r: DicomScan)
        ensures
            r.path@ == path@,
    {
        DicomScan { path: path.to_owned() }
    }
}

// ---------------------------------------------------------------------------
// The scan driver.
// ---------------------------------------------------------------------------

/// Whether a projection request is valid: absent, or naming only known
/// columns.
pub open spec fn projection_valid(p: Option<Vec<String>>) -> bool {
    match p {
        None => true,
        Some(names) => unknown_columns(names.deep_view()).len() == 0,
    }
}

/// The flags a projection request resolves to.
pub open spec fn resolved_flags(p: Option<Vec<String>>) -> ProjectionFlags {
    match p {
        None => ProjectionFlags {
            path: true,
            modality: true,
            columns: true,
            rows: true,
            frames: true,
            voxels: true,
        },
        Some(names) => flags_of_request(names.deep_view()),
    }
}

/// Whether the modality column materializes under this request.
pub open spec fn wants_modality(p: Option<Vec<String>>) -> bool {
    resolved_flags(p).modality
}

/// How many volumes a scan visits: all of them, or the limit when it is
/// smaller.
pub open spec fn visited_count(total: int, limit: Option<usize>) -> int {
    match limit {
        Some(l) => if l as int <= total {
            l as int
        } else {
            total
        },
        None => total,
    }
}

/// The position of the first volume among the first `upto` whose visit
/// fails, or `-1` when they all succeed.
pub open spec fn first_fault(volumes: Seq<VolumeSource>, flags: ProjectionFlags, upto: int) -> int
    decreases upto,
{
    if upto <= 0 {
        -1
    } else {
        let prev = first_fault(volumes, flags, upto - 1);
        if prev >= 0 {
            prev
        } else if !volume_ok(volumes[upto - 1], flags) {
            upto - 1
        } else {
            -1
        }
    }
}

/// All of the first `upto` volumes passing means no fault among them.
pub proof fn lemma_first_fault_none(volumes: Seq<VolumeSource>, flags: ProjectionFlags, upto: int)
    requires
        upto <= volumes.len(),
        forall|i: int| 0 <= i < upto ==> volume_ok(#[trigger] volumes[i], flags),
    ensures
        first_fault(volumes, flags, upto) == -1,
    decreases upto,
{
    if upto > 0 {
        lemma_first_fault_none(volumes, flags, upto - 1);
    }
}

/// The first failing volume determines the fault position.
pub proof fn lemma_first_fault_at(
    volumes: Seq<VolumeSource>,
    flags: ProjectionFlags,
    upto: int,
    j: int,
)
    requires
        0 <= j < upto <= volumes.len(),
        forall|i: int| 0 <= i < j ==> volume_ok(#[trigger] volumes[i], flags),
        !volume_ok(volumes[j], flags),
    ensures
        first_fault(volumes, flags, upto) == j,
    decreases upto,
{
    if upto - 1 > j {
        lemma_first_fault_at(volumes, flags, upto - 1, j);
    } else {
        lemma_first_fault_none(volumes, flags, j);
    }
}

/// The total row count across a sequence of batches.
pub open spec fn total_rows(batches: Seq<OutputBatch>) -> int
    decreases batches.len(),
{
    if batches.len() == 0 {
        0
    } else {
        total_rows(batches.drop_last()) + batches.last().n_rows
    }
}

/// Runs one whole scan over volumes already read into memory, in index
/// order: resolves the projection, visits at most `limit` volumes, decodes
/// samples only when the `voxels` column materializes, and emits chunks of
/// `batch_size` rows, the last possibly shorter.
///
/// An invalid projection fails the scan before any volume is visited; the
/// first failing visited volume fails the whole scan. Volumes past the
/// limit are never examined.
pub fn run_scan(
    volumes: &Vec<VolumeSource>,
    projection: &Option<Vec<String>>,
    limit: Option<usize>,
    batch_size: usize,
) -> (r: Result<Vec<OutputBatch>, ScanError>)
    requires
        batch_size >= 1,
        forall|i: int| 0 <= i < volumes@.len() ==> (#[trigger] volumes@[i]).wf(),
        wants_modality(*projection) ==> distinct_count(
            volumes@.map_values(|v: VolumeSource| v.meta.modality@),
        ) <= 0x8000,
    ensures
        ({
            let n = volumes@.len() as int;
            let visited = visited_count(n, limit);
            let flags = resolved_flags(*projection);
            &&& (r is Ok <==> projection_valid(*projection) && first_fault(
                volumes@,
                flags,
                visited,
            ) == -1)
            &&& (!projection_valid(*projection) ==> match (r, *projection) {
                (Err(ScanError::UnknownColumns { names: u }), Some(names)) => u.deep_view()
                    == unknown_columns(names.deep_view()),
                _ => false,
            })
            &&& (projection_valid(*projection) && first_fault(volumes@, flags, visited) >= 0
                ==> match r {
                Err(e) => fault_matches(
                    volumes@[first_fault(volumes@, flags, visited)],
                    flags,
                    e,
                ),
                _ => false,
            })
            &&& (match r {
                Ok(batches) => {
                    let models = volumes@.take(visited).map_values(
                        |v: VolumeSource| source_model(v, flags),
                    );
                    &&& total_rows(batches@) == visited
                    &&& forall|k: int|
                        0 <= k < batches@.len() ==> (#[trigger] batches@[k]).n_rows >= 1
                    &&& forall|k: int|
                        0 <= k < batches@.len() - 1 ==> (#[trigger] batches@[k]).n_rows
                            == batch_size
                    &&& forall|k: int|
                        0 <= k < batches@.len() ==> batch_ok(
                            #[trigger] batches@[k],
                            models.subrange(
                                k * batch_size,
                                k * batch_size + batches@[k].n_rows as int,
                            ),
                            flags,
                        )
                },
                Err(_) => true,
            })
        }),
{
    let ghost gflags = resolved_flags(*projection);
    let flags = match resolve_projection(projection) {
        Ok(f) => f,
        Err(e) => {
            return Err(e);
        },
    };
    proof {
        assert(flags == gflags);
        assert(projection_valid(*projection));
    }
    let n = volumes.len();
    let visited: usize = match limit {
        Some(l) => if l <= n {
            l
        } else {
            n
        },
        None => n,
    };
    let ghost models = volumes@.take(visited as int).map_values(
        |v: VolumeSource| source_model(v, gflags),
    );
    let mut batches: Vec<OutputBatch> = Vec::new();
    let mut pos: usize = 0;
    while pos < visited
        invariant
            batch_size >= 1,
            n == volumes@.len(),
            visited == visited_count(n as int, limit),
            pos <= visited <= n,
            flags == gflags,
            gflags == resolved_flags(*projection),
            projection_valid(*projection),
            models == volumes@.take(visited as int).map_values(
                |v: VolumeSource| source_model(v, gflags),
            ),
            forall|i: int| 0 <= i < volumes@.len() ==> (#[trigger] volumes@[i]).wf(),
            wants_modality(*projection) ==> distinct_count(
                volumes@.map_values(|v: VolumeSource| v.meta.modality@),
            ) <= 0x8000,
            forall|i: int| 0 <= i < pos ==> volume_ok(#[trigger] volumes@[i], gflags),
            total_rows(batches@) == pos,
            pos == batches@.len() * batch_size || pos == visited,
            pos < visited ==> forall|k: int|
                0 <= k < batches@.len() ==> (#[trigger] batches@[k]).n_rows == batch_size,
            forall|k: int| 0 <= k < batches@.len() ==> (#[trigger] batches@[k]).n_rows >= 1,
            forall|k: int|
                0 <= k < batches@.len() - 1 ==> (#[trigger] batches@[k]).n_rows == batch_size,
            forall|k: int|
                0 <= k < batches@.len() ==> batch_ok(
                    #[trigger] batches@[k],
                    models.subrange(k * batch_size, k * batch_size + batches@[k].n_rows as int),
                    gflags,
                ),
        decreases visited - pos,
    {
        let draw: usize = if batch_size <= visited - pos {
            batch_size
        } else {
            visited - pos
        };
        let mut rows: Vec<BatchRow> = Vec::new();
        let mut j: usize = 0;
        while j < draw
            invariant
                j <= draw,
                1 <= draw,
                pos + draw <= visited <= n,
                n == volumes@.len(),
                visited == visited_count(n as int, limit),
                flags == gflags,
                gflags == resolved_flags(*projection),
                projection_valid(*projection),
                forall|i: int| 0 <= i < volumes@.len() ==> (#[trigger] volumes@[i]).wf(),
                forall|i: int| 0 <= i < pos ==> volume_ok(#[trigger] volumes@[i], gflags),
                forall|i: int|
                    pos <= i < pos + j ==> volume_ok(#[trigger] volumes@[i], gflags),
                rows@.len() == j,
                forall|i: int| 0 <= i < j ==> row_wf(#[trigger] rows@[i], gflags),
                row_models(rows@) == volumes@.subrange(pos as int, pos + j as int).map_values(
                    |v: VolumeSource| source_model(v, gflags),
                ),
            decreases draw - j,
        {
            let ghost prev_rows = rows@;
            match visit_volume(&volumes[pos + j], flags) {
                Ok(row) => {
                    rows.push(row);
                    proof {
                        assert(row_models(rows@) =~= volumes@.subrange(
                            pos as int,
                            pos + (j + 1) as int,
                        ).map_values(|v: VolumeSource| source_model(v, gflags))) by {
                            assert(rows@ == prev_rows.push(row));
                            assert forall|i: int| 0 <= i < j + 1 implies row_models(rows@)[i]
                                == source_model(volumes@[pos + i], gflags) by {
                                if i < j {
                                    assert(row_models(prev_rows)[i] == source_model(
                                        volumes@[pos + i],
                                        gflags,
                                    ));
                                    assert(rows@[i] == prev_rows[i]);
                                } else {
                                    assert(rows@[i] == row);
                                }
                            }
                        }
                    }
                },
                Err(e) => {
                    proof {
                        lemma_first_fault_at(
                            volumes@,
                            gflags,
                            visited as int,
                            pos + j as int,
                        );
                    }
                    return Err(e);
                },
            }
            j = j + 1;
        }
        let ghost chunk_models = row_models(rows@);
        proof {
            if gflags.modality {
                let all_mods = volumes@.map_values(|v: VolumeSource| v.meta.modality@);
                lemma_distinct_count_subrange(all_mods, pos as int, pos + draw as int);
                assert(chunk_models.map_values(|m: RowModel| m.modality) =~= all_mods.subrange(
                    pos as int,
                    pos + draw as int,
                ));
            }
        }
        let b = match build_batch(rows, flags) {
            Some(b) => b,
            None => {
                proof {
                    assert(false);
                }
                return Err(ScanError::VolumeOpen { path: String::new() });
            },
        };
        let ghost prev_batches = batches@;
        let ghost prev_pos = pos as int;
        batches.push(b);
        pos = pos + draw;
        proof {
            assert(batches@ == prev_batches.push(b));
            assert(total_rows(batches@) == total_rows(prev_batches) + b.n_rows) by {
                assert(batches@.drop_last() =~= prev_batches);
            }
            assert(b.n_rows == draw);
            assert(prev_pos == prev_batches.len() * batch_size);
            if draw == batch_size {
                assert((prev_batches.len() + 1) * batch_size == prev_batches.len() * batch_size
                    + batch_size) by (nonlinear_arith);
                assert(pos as int == batches@.len() * batch_size);
            } else {
                assert(pos == visited);
            }
            assert(chunk_models =~= models.subrange(prev_pos, prev_pos + draw)) by {
                assert forall|i: int| 0 <= i < draw implies chunk_models[i] == models.subrange(
                    prev_pos,
                    prev_pos + draw,
                )[i] by {
                    assert(chunk_models[i] == source_model(volumes@[prev_pos + i], gflags));
                    assert(models[prev_pos + i] == source_model(
                        volumes@.take(visited as int)[prev_pos + i],
                        gflags,
                    ));
                }
            }
            assert(batch_ok(b, models.subrange(prev_pos, prev_pos + b.n_rows as int), gflags));
            assert forall|k: int| 0 <= k < batches@.len() implies batch_ok(
                #[trigger] batches@[k],
                models.subrange(k * batch_size, k * batch_size + batches@[k].n_rows as int),
                gflags,
            ) by {
                if k < prev_batches.len() {
                    assert(batches@[k] == prev_batches[k]);
                } else {
                    assert(batches@[k] == b);
                    assert(k * batch_size == prev_pos);
                }
            }
        }
    }
    proof {
        lemma_first_fault_none(volumes@, gflags, visited as int);
    }
    Ok(batches)
}

impl crate::reader::DicomReader {
    /// Scans volumes already read into memory under this reader's own
    /// projection, limit and chunk size, as [`run_scan`] specifies.
    pub fn scan_volumes(&self, volumes: &Vec<VolumeSource>) -> (r: Result<
        Vec<OutputBatch>,
        ScanError,
    >)
        requires
            self.batch_size >= 1,
            forall|i: int| 0 <= i < volumes@.len() ==> (#[trigger] volumes@[i]).wf(),
            wants_modality(self.projection) ==> distinct_count(
                volumes@.map_values(|v: VolumeSource| v.meta.modality@),
            ) <= 0x8000,
        ensures
            ({
                let n = volumes@.len() as int;
                let visited = visited_count(n, self.limit);
                let flags = resolved_flags(self.projection);
                &&& (r is Ok <==> projection_valid(self.projection) && first_fault(
                    volumes@,
                    flags,
                    visited,
                ) == -1)
                &&& (!projection_valid(self.projection) ==> match (r, self.projection) {
                    (Err(ScanError::UnknownColumns { names: u }), Some(names)) => u.deep_view()
                        == unknown_columns(names.deep_view()),
                    _ => false,
                })
                &&& (projection_valid(self.projection) && first_fault(volumes@, flags, visited)
                    >= 0 ==> match r {
                    Err(e) => fault_matches(
                        volumes@[first_fault(volumes@, flags, visited)],
                        flags,
                        e,
                    ),
                    _ => false,
                })
                &&& (match r {
                    Ok(batches) => {
                        let models = volumes@.take(visited).map_values(
                            |v: VolumeSource| source_model(v, flags),
                        );
                        &&& total_rows(batches@) == visited
                        &&& forall|k: int|
                            0 <= k < batches@.len() ==> (#[trigger] batches@[k]).n_rows >= 1
                        &&& forall|k: int|
                            0 <= k < batches@.len() - 1 ==> (#[trigger] batches@[k]).n_rows
                                == self.batch_size
                        &&& forall|k: int|
                            0 <= k < batches@.len() ==> batch_ok(
                                #[trigger] batches@[k],
                                models.subrange(
                                    k * self.batch_size,
                                    k * self.batch_size + batches@[k].n_rows as int,
                                ),
                                flags,
                            )
                    },
                    Err(_) => true,
                })
            }),
    {
        run_scan(volumes, &self.projection, self.limit, self.batch_size)
    }
}

} // verus!
