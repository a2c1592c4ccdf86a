use vstd::prelude::*;
use crate::errors::ScanError;
use crate::paths::str_compare;

verus! {

// ---------------------------------------------------------------------------
// The fixed column set and the resolution of a requested projection into
// per-column materialization flags.
// ---------------------------------------------------------------------------

/// The six columns of the dataset, in their canonical order.
#[derive(Clone, Copy, Debug, PartialEq, Eq, Structural)]
pub enum ColumnKind {
    Path,
    Modality,
    Columns,
    Rows,
    Frames,
    Voxels,
}

/// The canonical column order: `path, modality, columns, rows, frames, voxels`.
pub open spec fn column_order() -> Seq<ColumnKind> {
    seq![
        ColumnKind::Path,
        ColumnKind::Modality,
        ColumnKind::Columns,
        ColumnKind::Rows,
        ColumnKind::Frames,
        ColumnKind::Voxels,
    ]
}

/// The column a requested name refers to, or `None` for a name outside the
/// known column set.
pub open spec fn column_of_name(name: Seq<char>) -> Option<ColumnKind> {
    if name == "path"@ {
        Some(ColumnKind::Path)
    } else if name == "modality"@ {
        Some(ColumnKind::Modality)
    } else if name == "columns"@ {
        Some(ColumnKind::Columns)
    } else if name == "rows"@ {
        Some(ColumnKind::Rows)
    } else if name == "frames"@ {
        Some(ColumnKind::Frames)
    } else if name == "voxels"@ {
        Some(ColumnKind::Voxels)
    } else {
        None
    }
}

/// Per-column materialization flags, the outcome of resolving a projection.
#[derive(Clone, Copy, Debug, PartialEq, Eq, Structural)]
pub struct ProjectionFlags {
    pub path: bool,
    pub modality: bool,
    pub columns: bool,
    pub rows: bool,
    pub frames: bool,
    pub voxels: bool,
}

impl ProjectionFlags {
    /// The flag for one column.
    pub open spec fn flag(self, k: ColumnKind) -> bool {
        match k {
            ColumnKind::Path => self.path,
            ColumnKind::Modality => self.modality,
            ColumnKind::Columns => self.columns,
            ColumnKind::Rows => self.rows,
            ColumnKind::Frames => self.frames,
            ColumnKind::Voxels => self.voxels,
        }
    }

    /// The columns a batch built under these flags holds, in canonical order.
    pub open spec fn materialized(self) -> Seq<ColumnKind> {
        let s = Seq::<ColumnKind>::empty();
        let s = if self.path {
            s.push(ColumnKind::Path)
        } else {
            s
        };
        let s = if self.modality {
            s.push(ColumnKind::Modality)
        } else {
            s
        };
        let s = if self.columns {
            s.push(ColumnKind::Columns)
        } else {
            s
        };
        let s = if self.rows {
            s.push(ColumnKind::Rows)
        } else {
            s
        };
        let s = if self.frames {
            s.push(ColumnKind::Frames)
        } else {
            s
        };
        if self.voxels {
            s.push(ColumnKind::Voxels)
        } else {
            s
        }
    }

    /// All six columns materialize: the flags of an absent projection.
    pub fn all() -> (r: ProjectionFlags)
        ensures
            r == (ProjectionFlags {
                path: true,
                modality: true,
                columns: true,
                rows: true,
                frames: true,
                voxels: true,
            }),
    {
        ProjectionFlags {
            path: true,
            modality: true,
            columns: true,
            rows: true,
            frames: true,
            voxels: true,
        }
    }
}

/// The requested names that name no known column: first occurrences, in
/// request order.
pub open spec fn unknown_columns(names: Seq<Seq<char>>) -> Seq<Seq<char>>
    decreases names.len(),
{
    if names.len() == 0 {
        Seq::empty()
    } else {
        let rest = unknown_columns(names.drop_last());
        if column_of_name(names.last()) is None && !rest.contains(names.last()) {
            rest.push(names.last())
        } else {
            rest
        }
    }
}

/// The flags a valid projection request resolves to.
pub open spec fn flags_of_request(names: Seq<Seq<char>>) -> ProjectionFlags {
    ProjectionFlags {
        path: names.contains("path"@),
        modality: names.contains("modality"@),
        columns: names.contains("columns"@),
        rows: names.contains("rows"@),
        frames: names.contains("frames"@),
        voxels: names.contains("voxels"@),
    }
}

/// The six column names are pairwise distinct character sequences.
proof fn lemma_column_names_distinct()
    ensures
        "path"@ != "modality"@,
        "path"@ != "columns"@,
        "path"@ != "rows"@,
        "path"@ != "frames"@,
        "path"@ != "voxels"@,
        "modality"@ != "columns"@,
        "modality"@ != "rows"@,
        "modality"@ != "frames"@,
        "modality"@ != "voxels"@,
        "columns"@ != "rows"@,
        "columns"@ != "frames"@,
        "columns"@ != "voxels"@,
        "rows"@ != "frames"@,
        "rows"@ != "voxels"@,
        "frames"@ != "voxels"@,
{
    broadcast use vstd::string::group_string_axioms;

    reveal_strlit("path");
    reveal_strlit("modality");
    reveal_strlit("columns");
    reveal_strlit("rows");
    reveal_strlit("frames");
    reveal_strlit("voxels");
    assert("path"@.len() == 4 && "modality"@.len() == 8 && "columns"@.len() == 7 && "rows"@.len()
        == 4 && "frames"@.len() == 6 && "voxels"@.len() == 6);
    assert("path"@[0] == 'p' && "rows"@[0] == 'r' && "frames"@[0] == 'f' && "voxels"@[0] == 'v');
}

/// Whether two strings hold the same characters.
fn str_eq(a: &str, b: &str) -> (r: bool)
    ensures
        r == (a@ == b@),
{
    str_compare(a, b) == 0
}

/// Whether some string in `v` holds the characters of `s`.
fn contains_str(v: &Vec<String>, s: &String) -> (r: bool)
    ensures
        r == v.deep_view().contains(s@),
{
    let mut i: usize = 0;
    while i < v.len()
        invariant
            i <= v.len(),
            forall|j: int| 0 <= j < i ==> v.deep_view()[j] != s@,
        decreases v.len() - i,
    {
        if str_eq(v[i].as_str(), s.as_str()) {
            assert(v.deep_view()[i as int] == s@);
            return true;
        }
        i = i + 1;
    }
    false
}

/// Resolves a requested column set into materialization flags.
///
/// An absent request materializes all six columns. A present request
/// materializes exactly the named columns; any name outside the known
/// column set fails the whole request, and the error carries every
/// unrecognized name (first occurrences, in request order).
pub fn resolve_projection(requested: &Option<Vec<String>>) -> (r: Result<
    ProjectionFlags,
    ScanError,
>)
    ensures
        match requested {
            None => r == Ok::<ProjectionFlags, ScanError>(
                ProjectionFlags {
                    path: true,
                    modality: true,
                    columns: true,
                    rows: true,
                    frames: true,
                    voxels: true,
                },
            ),
            Some(names) => {
                if unknown_columns(names.deep_view()).len() == 0 {
                    r == Ok::<ProjectionFlags, ScanError>(flags_of_request(names.deep_view()))
                } else {
                    match r {
                        Err(ScanError::UnknownColumns { names: u }) => u.deep_view()
                            == unknown_columns(names.deep_view()),
                        _ => false,
                    }
                }
            },
        },
{
    match requested {
        None => Ok(ProjectionFlags::all()),
        Some(names) => {
            let ghost nv = names.deep_view();
            let mut flags = ProjectionFlags {
                path: false,
                modality: false,
                columns: false,
                rows: false,
                frames: false,
                voxels: false,
            };
            let mut unknown: Vec<String> = Vec::new();
            let mut i: usize = 0;
            proof {
                assert(nv.take(0) =~= Seq::<Seq<char>>::empty());
                assert(unknown.deep_view() =~= Seq::<Seq<char>>::empty());
            }
            while i < names.len()
                invariant
                    i <= names.len(),
                    nv == names.deep_view(),
                    flags == flags_of_request(nv.take(i as int)),
                    unknown.deep_view() == unknown_columns(nv.take(i as int)),
                decreases names.len() - i,
            {
                let ghost prefix = nv.take(i as int);
                let ghost uv = unknown.deep_view();
                let n = &names[i];
                proof {
                    lemma_column_names_distinct();
                    assert(nv.take(i + 1 as int).drop_last() =~= prefix);
                    assert(nv.take(i + 1 as int).last() == nv[i as int]);
                    assert(nv[i as int] == n@);
                    assert forall|x: Seq<char>| #[trigger] nv.take(i + 1 as int).contains(x)
                        implies prefix.contains(x) || x == n@ by {
                        let k = choose|k: int| 0 <= k < i + 1 && (#[trigger] nv.take(i + 1 as int)[k]) == x;
                        if k < i {
                            assert(prefix[k] == x);
                        }
                    }
                    assert forall|x: Seq<char>| prefix.contains(x) implies nv.take(
                        i + 1 as int,
                    ).contains(x) by {
                        let k = choose|k: int| 0 <= k < i && (#[trigger] prefix[k]) == x;
                        assert(nv.take(i + 1 as int)[k] == x);
                    }
                    assert(nv.take(i + 1 as int).contains(n@)) by {
                        assert(nv.take(i + 1 as int)[i as int] == n@);
                    }
                }
                if str_eq(n.as_str(), "path") {
                    flags.path = true;
                } else if str_eq(n.as_str(), "modality") {
                    flags.modality = true;
                } else if str_eq(n.as_str(), "columns") {
                    flags.columns = true;
                } else if str_eq(n.as_str(), "rows") {
                    flags.rows = true;
                } else if str_eq(n.as_str(), "frames") {
                    flags.frames = true;
                } else if str_eq(n.as_str(), "voxels") {
                    flags.voxels = true;
                } else {
                    proof {
                        assert(column_of_name(n@) is None);
                    }
                    if !contains_str(&unknown, n) {
                        unknown.push(n.clone());
                        proof {
                            assert(unknown.deep_view() =~= uv.push(n@));
                        }
                    }
                }
                i = i + 1;
            }
            proof {
                assert(nv.take(names.len() as int) =~= nv);
            }
            if unknown.len() == 0 {
                proof {
                    assert(unknown.deep_view() =~= Seq::<Seq<char>>::empty());
                }
                Ok(flags)
            } else {
                Err(ScanError::UnknownColumns { names: unknown })
            }
        },
    }
}

} // verus!
