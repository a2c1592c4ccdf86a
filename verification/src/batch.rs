use vstd::prelude::*;
use crate::image::{clone_string, DicomImage};
use crate::projection::{ColumnKind, ProjectionFlags};
use crate::voxels::{le_bytes_of, pack_samples, SampleBuffer};

verus! {

// ---------------------------------------------------------------------------
// One columnar output chunk: an array per materialized column, all of equal
// length, in the canonical column order.
// ---------------------------------------------------------------------------

/// A dictionary-coded string column: `keys[i]` indexes into `values`, the
/// distinct strings in first-appearance order.
pub struct DictionaryColumn {
    pub keys: Vec<i16>,
    pub values: Vec<String>,
}

/// The typed array of one column.
pub enum ColumnData {
    Utf8(Vec<String>),
    Dictionary(DictionaryColumn),
    UInt16(Vec<u16>),
    LargeBinary(Vec<Vec<u8>>),
}

/// One columnar chunk: `n_rows` volumes, one array per materialized column.
pub struct OutputBatch {
    pub n_rows: usize,
    pub columns: Vec<(ColumnKind, ColumnData)>,
}

/// What one row of a batch holds, column by column, as mathematical values.
pub struct RowModel {
    pub path: Seq<char>,
    pub modality: Seq<char>,
    pub columns: u16,
    pub rows: u16,
    pub frames: u16,
    pub voxel_bytes: Seq<u8>,
}

/// One volume ready to join a batch: its descriptor, and its decoded sample
/// buffer when the `voxels` column materializes.
pub struct BatchRow {
    pub image: DicomImage,
    pub voxels: Option<SampleBuffer>,
}

/// Internal consistency of a batch row under the given flags.
pub open spec fn row_wf(row: BatchRow, flags: ProjectionFlags) -> bool {
    &&& row.image.wf()
    &&& flags.voxels ==> match row.voxels {
        Some(b) => b.wf() && b.columns == row.image.columns && b.rows == row.image.rows,
        None => false,
    }
}

/// The mathematical content of a batch row.
pub open spec fn row_model(row: BatchRow) -> RowModel {
    RowModel {
        path: row.image.path@,
        modality: row.image.modality@,
        columns: row.image.columns as u16,
        rows: row.image.rows as u16,
        frames: row.image.frames as u16,
        voxel_bytes: match row.voxels {
            Some(b) => le_bytes_of(b.samples@),
            None => Seq::empty(),
        },
    }
}

/// The models of a sequence of batch rows.
pub open spec fn row_models(rows: Seq<BatchRow>) -> Seq<RowModel> {
    rows.map_values(|r: BatchRow| row_model(r))
}

// ---------------------------------------------------------------------------
// Dictionary encoding of the modality column.
// ---------------------------------------------------------------------------

/// The distinct values of `ms`, each at its first appearance, in order.
pub open spec fn first_occurrences(ms: Seq<Seq<char>>) -> Seq<Seq<char>>
    decreases ms.len(),
{
    if ms.len() == 0 {
        Seq::empty()
    } else {
        let rest = first_occurrences(ms.drop_last());
        if rest.contains(ms.last()) {
            rest
        } else {
            rest.push(ms.last())
        }
    }
}

/// How many distinct values `ms` holds.
pub open spec fn distinct_count(ms: Seq<Seq<char>>) -> nat {
    first_occurrences(ms).len()
}

/// A dictionary column correctly encodes `ms`: one key per entry, pointing
/// at its value among the distinct values in first-appearance order.
pub open spec fn dictionary_ok(d: DictionaryColumn, ms: Seq<Seq<char>>) -> bool {
    &&& d.keys@.len() == ms.len()
    &&& d.values.deep_view() == first_occurrences(ms)
    &&& forall|i: int|
        0 <= i < ms.len() ==> 0 <= #[trigger] d.keys@[i] < d.values@.len()
            && d.values.deep_view()[d.keys@[i] as int] == ms[i]
}

/// There are no more distinct values than values.
pub proof fn lemma_distinct_count_le_len(ms: Seq<Seq<char>>)
    ensures
        distinct_count(ms) <= ms.len(),
    decreases ms.len(),
{
    if ms.len() > 0 {
        lemma_distinct_count_le_len(ms.drop_last());
    }
}

/// A prefix holds no more distinct values than the whole.
proof fn lemma_distinct_count_take(ms: Seq<Seq<char>>, i: int)
    requires
        0 <= i <= ms.len(),
    ensures
        distinct_count(ms.take(i)) <= distinct_count(ms),
    decreases ms.len(),
{
    if i < ms.len() {
        assert(ms.drop_last().take(i) =~= ms.take(i));
        lemma_distinct_count_take(ms.drop_last(), i);
    } else {
        assert(ms.take(i) =~= ms);
    }
}

/// The first occurrences hold each value of `ms` exactly once.
pub proof fn lemma_first_occurrences_set(ms: Seq<Seq<char>>)
    ensures
        first_occurrences(ms).to_set() == ms.to_set(),
        first_occurrences(ms).no_duplicates(),
    decreases ms.len(),
{
    if ms.len() == 0 {
        assert(first_occurrences(ms).to_set() =~= ms.to_set());
    } else {
        lemma_first_occurrences_set(ms.drop_last());
        let rest = first_occurrences(ms.drop_last());
        let fo = first_occurrences(ms);
        assert(ms.to_set() =~= ms.drop_last().to_set().insert(ms.last())) by {
            assert forall|x: Seq<char>| ms.to_set().contains(x) implies ms.drop_last().to_set().insert(
                ms.last(),
            ).contains(x) by {
                let k = choose|k: int| 0 <= k < ms.len() && ms[k] == x;
                if k < ms.len() - 1 {
                    assert(ms.drop_last()[k] == x);
                }
            }
            assert forall|x: Seq<char>|
                ms.drop_last().to_set().insert(ms.last()).contains(x) implies ms.to_set().contains(
                x,
            ) by {
                if ms.drop_last().to_set().contains(x) {
                    let k = choose|k: int| 0 <= k < ms.len() - 1 && ms.drop_last()[k] == x;
                    assert(ms[k] == x);
                } else {
                    assert(ms[ms.len() - 1] == x);
                }
            }
        }
        if rest.contains(ms.last()) {
            assert(fo == rest);
            assert(rest.to_set().contains(ms.last()));
            assert(rest.to_set() =~= rest.to_set().insert(ms.last()));
        } else {
            assert(fo == rest.push(ms.last()));
            assert(fo.to_set() =~= rest.to_set().insert(ms.last())) by {
                assert forall|x: Seq<char>| fo.to_set().contains(x) implies rest.to_set().insert(
                    ms.last(),
                ).contains(x) by {
                    let k = choose|k: int| 0 <= k < fo.len() && fo[k] == x;
                    if k < rest.len() {
                        assert(rest[k] == x);
                    }
                }
                assert forall|x: Seq<char>| rest.to_set().insert(ms.last()).contains(x) implies
                    fo.to_set().contains(x) by {
                    if rest.to_set().contains(x) {
                        let k = choose|k: int| 0 <= k < rest.len() && rest[k] == x;
                        assert(fo[k] == x);
                    } else {
                        assert(fo[fo.len() - 1] == x);
                    }
                }
            }
            assert(fo.no_duplicates()) by {
                assert forall|p: int, q: int| 0 <= p < q < fo.len() implies fo[p] != fo[q] by {
                    if q < rest.len() {
                        assert(rest[p] == fo[p] && rest[q] == fo[q]);
                    } else {
                        assert(fo[q] == ms.last());
                        assert(rest[p] == fo[p]);
                        assert(rest.to_set().contains(rest[p]));
                    }
                }
            }
        }
    }
}

/// A contiguous part holds no more distinct values than the whole.
pub proof fn lemma_distinct_count_subrange(ms: Seq<Seq<char>>, a: int, b: int)
    requires
        0 <= a <= b <= ms.len(),
    ensures
        distinct_count(ms.subrange(a, b)) <= distinct_count(ms),
{
    let sub = ms.subrange(a, b);
    lemma_first_occurrences_set(ms);
    lemma_first_occurrences_set(sub);
    first_occurrences(ms).unique_seq_to_set();
    first_occurrences(sub).unique_seq_to_set();
    assert(sub.to_set().subset_of(ms.to_set())) by {
        assert forall|x: Seq<char>| sub.to_set().contains(x) implies ms.to_set().contains(x) by {
            let k = choose|k: int| 0 <= k < sub.len() && sub[k] == x;
            assert(ms[a + k] == x);
        }
    }
    vstd::set_lib::lemma_len_subset(sub.to_set(), ms.to_set());
}

/// Position of the first string in `v` holding the characters of `s`.
fn find_string(v: &Vec<String>, s: &String) -> (r: Option<usize>)
    ensures
        match r {
            Some(k) => k < v@.len() && v.deep_view()[k as int] == s@,
            None => !v.deep_view().contains(s@),
        },
{
    let mut i: usize = 0;
    while i < v.len()
        invariant
            i <= v.len(),
            forall|j: int| 0 <= j < i ==> v.deep_view()[j] != s@,
        decreases v.len() - i,
    {
        if crate::paths::str_compare(v[i].as_str(), s.as_str()) == 0 {
            proof {
                assert(v.deep_view()[i as int] == s@);
            }
            return Some(i);
        }
        i = i + 1;
    }
    None
}

/// Dictionary-encodes a string column: distinct values in first-appearance
/// order, one 16-bit key per entry.
pub fn build_dictionary(ms: &Vec<String>) -> (r: DictionaryColumn)
    requires
        distinct_count(ms.deep_view()) <= 0x8000,
    ensures
        dictionary_ok(r, ms.deep_view()),
{
    let ghost mv = ms.deep_view();
    let mut keys: Vec<i16> = Vec::new();
    let mut values: Vec<String> = Vec::new();
    let mut i: usize = 0;
    proof {
        assert(mv.take(0) =~= Seq::<Seq<char>>::empty());
        assert(values.deep_view() =~= Seq::<Seq<char>>::empty());
    }
    while i < ms.len()
        invariant
            i <= ms.len(),
            mv == ms.deep_view(),
            distinct_count(mv) <= 0x8000,
            keys@.len() == i,
            values.deep_view() == first_occurrences(mv.take(i as int)),
            values@.len() == values.deep_view().len(),
            forall|j: int|
                0 <= j < i ==> 0 <= #[trigger] keys@[j] < values@.len()
                    && values.deep_view()[keys@[j] as int] == mv[j],
        decreases ms.len() - i,
    {
        let ghost fo = values.deep_view();
        let m = &ms[i];
        proof {
            assert(mv.take(i + 1 as int).drop_last() =~= mv.take(i as int));
            assert(mv.take(i + 1 as int).last() == mv[i as int]);
            assert(mv[i as int] == m@);
            lemma_distinct_count_take(mv, i + 1 as int);
        }
        match find_string(&values, m) {
            Some(k) => {
                proof {
                    assert(fo.contains(m@)) by {
                        assert(fo[k as int] == m@);
                    }
                    assert(first_occurrences(mv.take(i + 1 as int)) == fo);
                }
                keys.push(k as i16);
            },
            None => {
                proof {
                    assert(first_occurrences(mv.take(i + 1 as int)) == fo.push(m@));
                    assert(fo.push(m@).len() <= 0x8000);
                }
                let k = values.len();
                values.push(clone_string(m));
                proof {
                    assert(values.deep_view() =~= fo.push(m@));
                }
                keys.push(k as i16);
            },
        }
        i = i + 1;
    }
    proof {
        assert(mv.take(ms.len() as int) =~= mv);
    }
    DictionaryColumn { keys, values }
}

// ---------------------------------------------------------------------------
// Batch assembly.
// ---------------------------------------------------------------------------

/// The array of one column holds the right value for every row model.
pub open spec fn column_data_ok(kind: ColumnKind, data: ColumnData, models: Seq<RowModel>) -> bool {
    match kind {
        ColumnKind::Path => match data {
            ColumnData::Utf8(v) => v.deep_view() == models.map_values(|m: RowModel| m.path),
            _ => false,
        },
        ColumnKind::Modality => match data {
            ColumnData::Dictionary(d) => dictionary_ok(
                d,
                models.map_values(|m: RowModel| m.modality),
            ),
            _ => false,
        },
        ColumnKind::Columns => match data {
            ColumnData::UInt16(v) => v@ == models.map_values(|m: RowModel| m.columns),
            _ => false,
        },
        ColumnKind::Rows => match data {
            ColumnData::UInt16(v) => v@ == models.map_values(|m: RowModel| m.rows),
            _ => false,
        },
        ColumnKind::Frames => match data {
            ColumnData::UInt16(v) => v@ == models.map_values(|m: RowModel| m.frames),
            _ => false,
        },
        ColumnKind::Voxels => match data {
            ColumnData::LargeBinary(v) => v.deep_view() == models.map_values(
                |m: RowModel| m.voxel_bytes,
            ),
            _ => false,
        },
    }
}

/// A batch is correct for the given row models and flags: exactly the
/// materialized columns, in canonical order, each array with one entry per
/// row.
pub open spec fn batch_ok(b: OutputBatch, models: Seq<RowModel>, flags: ProjectionFlags) -> bool {
    &&& b.n_rows == models.len()
    &&& b.columns@.map_values(|c: (ColumnKind, ColumnData)| c.0) == flags.materialized()
    &&& forall|i: int|
        0 <= i < b.columns@.len() ==> column_data_ok(
            (#[trigger] b.columns@[i]).0,
            b.columns@[i].1,
            models,
        )
}

/// Builds one columnar chunk from the rows drawn for it, materializing
/// exactly the flagged columns in canonical order. An empty draw signals
/// exhaustion: no batch.
pub fn build_batch(rows: Vec<BatchRow>, flags: ProjectionFlags) -> (r: Option<OutputBatch>)
    requires
        forall|i: int| 0 <= i < rows@.len() ==> row_wf(#[trigger] rows@[i], flags),
        flags.modality ==> distinct_count(
            row_models(rows@).map_values(|m: RowModel| m.modality),
        ) <= 0x8000,
    ensures
        r is None <==> rows@.len() == 0,
        match r {
            Some(b) => batch_ok(b, row_models(rows@), flags),
            None => true,
        },
{
    if rows.len() == 0 {
        return None;
    }
    let ghost models = row_models(rows@);
    proof {
        assert(models.len() == rows@.len());
    }
    let n = rows.len();
    let mut columns: Vec<(ColumnKind, ColumnData)> = Vec::new();

    if flags.path {
        let mut v: Vec<String> = Vec::new();
        let mut i: usize = 0;
        while i < n
            invariant
                i <= n,
                n == rows@.len(),
                models == row_models(rows@),
                v@.len() == i,
                forall|j: int| 0 <= j < i ==> v.deep_view()[j] == models[j].path,
            decreases n - i,
        {
            let ghost pv = v@;
            let ghost pdv = v.deep_view();
            v.push(clone_string(&rows[i].image.path));
            proof {
                assert(models[i as int] == row_model(rows@[i as int]));
                assert forall|j: int| 0 <= j < i + 1 implies v.deep_view()[j] == models[j].path by {
                    assert(v.deep_view()[j] == v@[j]@);
                    if j < i {
                        assert(pdv[j] == models[j].path);
                        assert(pdv[j] == pv[j]@);
                        assert(v@[j] == pv[j]);
                    }
                }
            }
            i = i + 1;
        }
        proof {
            assert(v.deep_view() =~= models.map_values(|m: RowModel| m.path));
        }
        columns.push((ColumnKind::Path, ColumnData::Utf8(v)));
    }
    if flags.modality {
        let mut mv: Vec<String> = Vec::new();
        let mut i: usize = 0;
        while i < n
            invariant
                i <= n,
                n == rows@.len(),
                models == row_models(rows@),
                mv@.len() == i,
                forall|j: int| 0 <= j < i ==> mv.deep_view()[j] == models[j].modality,
            decreases n - i,
        {
            let ghost pv = mv@;
            let ghost pdv = mv.deep_view();
            mv.push(clone_string(&rows[i].image.modality));
            proof {
                assert(models[i as int] == row_model(rows@[i as int]));
                assert forall|j: int| 0 <= j < i + 1 implies mv.deep_view()[j] == models[j].modality by {
                    assert(mv.deep_view()[j] == mv@[j]@);
                    if j < i {
                        assert(pdv[j] == models[j].modality);
                        assert(pdv[j] == pv[j]@);
                        assert(mv@[j] == pv[j]);
                    }
                }
            }
            i = i + 1;
        }
        proof {
            assert(mv.deep_view() =~= models.map_values(|m: RowModel| m.modality));
        }
        let d = build_dictionary(&mv);
        columns.push((ColumnKind::Modality, ColumnData::Dictionary(d)));
    }
    if flags.columns {
        let mut v: Vec<u16> = Vec::new();
        let mut i: usize = 0;
        while i < n
            invariant
                i <= n,
                n == rows@.len(),
                models == row_models(rows@),
                forall|j: int| 0 <= j < rows@.len() ==> row_wf(#[trigger] rows@[j], flags),
                v@.len() == i,
                forall|j: int| 0 <= j < i ==> v@[j] == models[j].columns,
            decreases n - i,
        {
            v.push(rows[i].image.columns as u16);
            i = i + 1;
        }
        proof {
            assert(v@ =~= models.map_values(|m: RowModel| m.columns));
        }
        columns.push((ColumnKind::Columns, ColumnData::UInt16(v)));
    }
    if flags.rows {
        let mut v: Vec<u16> = Vec::new();
        let mut i: usize = 0;
        while i < n
            invariant
                i <= n,
                n == rows@.len(),
                models == row_models(rows@),
                forall|j: int| 0 <= j < rows@.len() ==> row_wf(#[trigger] rows@[j], flags),
                v@.len() == i,
                forall|j: int| 0 <= j < i ==> v@[j] == models[j].rows,
            decreases n - i,
        {
            v.push(rows[i].image.rows as u16);
            i = i + 1;
        }
        proof {
            assert(v@ =~= models.map_values(|m: RowModel| m.rows));
        }
        columns.push((ColumnKind::Rows, ColumnData::UInt16(v)));
    }
    if flags.frames {
        let mut v: Vec<u16> = Vec::new();
        let mut i: usize = 0;
        while i < n
            invariant
                i <= n,
                n == rows@.len(),
                models == row_models(rows@),
                forall|j: int| 0 <= j < rows@.len() ==> row_wf(#[trigger] rows@[j], flags),
                v@.len() == i,
                forall|j: int| 0 <= j < i ==> v@[j] == models[j].frames,
            decreases n - i,
        {
            v.push(rows[i].image.frames as u16);
            i = i + 1;
        }
        proof {
            assert(v@ =~= models.map_values(|m: RowModel| m.frames));
        }
        columns.push((ColumnKind::Frames, ColumnData::UInt16(v)));
    }
    if flags.voxels {
        let mut v: Vec<Vec<u8>> = Vec::new();
        let mut i: usize = 0;
        while i < n
            invariant
                i <= n,
                n == rows@.len(),
                models == row_models(rows@),
                flags.voxels,
                forall|j: int| 0 <= j < rows@.len() ==> row_wf(#[trigger] rows@[j], flags),
                v@.len() == i,
                forall|j: int| 0 <= j < i ==> v.deep_view()[j] == models[j].voxel_bytes,
            decreases n - i,
        {
            let bytes = match &rows[i].voxels {
                Some(b) => pack_samples(&b.samples),
                None => {
                    proof {
                        assert(row_wf(rows@[i as int], flags));
                        assert(false);
                    }
                    Vec::new()
                },
            };
            let ghost pv = v@;
            let ghost pdv = v.deep_view();
            v.push(bytes);
            proof {
                assert(models[i as int] == row_model(rows@[i as int]));
                assert forall|j: int| 0 <= j < i + 1 implies v.deep_view()[j] == models[j].voxel_bytes by {
                    assert(v.deep_view()[j] =~= v@[j]@);
                    if j < i {
                        assert(pdv[j] == models[j].voxel_bytes);
                        assert(pdv[j] =~= pv[j]@);
                        assert(v@[j] == pv[j]);
                    }
                }
            }
            i = i + 1;
        }
        proof {
            assert(v.deep_view() =~= models.map_values(|m: RowModel| m.voxel_bytes));
        }
        columns.push((ColumnKind::Voxels, ColumnData::LargeBinary(v)));
    }
    proof {
        assert(columns@.map_values(|c: (ColumnKind, ColumnData)| c.0) =~= flags.materialized());
    }
    Some(OutputBatch { n_rows: n, columns })
}

} // verus!
