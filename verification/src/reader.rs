use vstd::prelude::*;
use vstd::string::StringExecFns;
use crate::image::clone_string;
use crate::index::{build_volume_index, is_volume_index};

verus! {

// ---------------------------------------------------------------------------
// The reader configuration and the pull-based cursor over its volume index.
// ---------------------------------------------------------------------------

/// A scan configuration over a built volume index: which columns to
/// materialize, how many rows at most, and the chunk size of the emitted
/// batches.
pub struct DicomReader {
    pub dicom_directories: Vec<String>,
    pub projection: Option<Vec<String>>,
    pub limit: Option<usize>,
    pub batch_size: usize,
}

impl DicomReader {
    /// Builds a reader over the volume index of the walked `entries`: the
    /// parent directory of every member file among them, deduplicated and
    /// sorted. No projection, no limit, a chunk size of ten volumes.
    pub fn from_entries(entries: &Vec<String>) -> (r: DicomReader)
        ensures
            is_volume_index(entries.deep_view(), r.dicom_directories.deep_view()),
            r.projection is None,
            r.limit is None,
            r.batch_size == 10,
    {
        DicomReader {
            dicom_directories: build_volume_index(entries),
            projection: None,
            limit: None,
            batch_size: 10,
        }
    }

    /// Replaces the projection: the set of column names to materialize, or
    /// `None` for all columns.
    pub fn with_projection(self, projection: Option<Vec<&str>>) -> (r: DicomReader)
        ensures
            r.dicom_directories == self.dicom_directories,
            r.limit == self.limit,
            r.batch_size == self.batch_size,
            match (projection, r.projection) {
                (None, None) => true,
                (Some(p), Some(q)) => q.deep_view() == p.deep_view(),
                _ => false,
            },
    {
        match projection {
            None => DicomReader { projection: None, ..self },
            Some(names) => {
                let mut out: Vec<String> = Vec::new();
                let mut i: usize = 0;
                while i < names.len()
                    invariant
                        i <= names.len(),
                        out@.len() == i,
                        forall|j: int| 0 <= j < i ==> out.deep_view()[j] == names.deep_view()[j],
                    decreases names.len() - i,
                {
                    out.push(String::from_str(names[i]));
                    i = i + 1;
                }
                proof {
                    assert(out.deep_view() =~= names.deep_view());
                }
                DicomReader { projection: Some(out), ..self }
            },
        }
    }

    /// Replaces the row-count limit: at most this many volumes are visited
    /// and emitted, across all batches.
    pub fn with_limit(self, limit: Option<usize>) -> (r: DicomReader)
        ensures
            r.dicom_directories == self.dicom_directories,
            r.projection == self.projection,
            r.batch_size == self.batch_size,
            r.limit == limit,
    {
        DicomReader { limit, ..self }
    }

    /// Replaces the chunk size: how many volumes one emitted batch holds.
    pub fn with_batch_size(self, batch_size: usize) -> (r: DicomReader)
        ensures
            r.dicom_directories == self.dicom_directories,
            r.projection == self.projection,
            r.limit == self.limit,
            r.batch_size == batch_size,
    {
        DicomReader { batch_size, ..self }
    }

    /// A borrowed iterator over the index's volume directories, from the
    /// first.
    pub fn iter(&self) -> (r: DicomIter<'_>)
        ensures
            r.dicom_reader == self,
            r.index == 0,
    {
        DicomIter { dicom_reader: self, index: 0 }
    }
}

/// A borrowed iterator over a reader's volume directories.
pub struct DicomIter<'a> {
    pub dicom_reader: &'a DicomReader,
    pub index: usize,
}

impl<'a> DicomIter<'a> {
    /// The next volume directory in index order, or `None` at exhaustion.
    pub fn next_directory(&mut self) -> (r: Option<String>)
        ensures
            final(self).dicom_reader == old(self).dicom_reader,
            match r {
                Some(d) => {
                    &&& old(self).index < old(self).dicom_reader.dicom_directories@.len()
                    &&& d@ == old(self).dicom_reader.dicom_directories.deep_view()[old(
                        self,
                    ).index as int]
                    &&& final(self).index == old(self).index + 1
                },
                None => {
                    &&& old(self).index >= old(self).dicom_reader.dicom_directories@.len()
                    &&& final(self).index == old(self).index
                },
            },
    {
        if self.index >= self.dicom_reader.dicom_directories.len() {
            None
        } else {
            let d = clone_string(&self.dicom_reader.dicom_directories[self.index]);
            self.index = self.index + 1;
            Some(d)
        }
    }
}

/// An owning iterator over a reader's volume directories.
pub struct DicomReaderIterator {
    pub dicom_reader: DicomReader,
    pub index: usize,
}

impl DicomReaderIterator {
    /// The next volume directory in index order, or `None` at exhaustion.
    pub fn next_directory(&mut self) -> (r: Option<String>)
        ensures
            final(self).dicom_reader == old(self).dicom_reader,
            match r {
                Some(d) => {
                    &&& old(self).index < old(self).dicom_reader.dicom_directories@.len()
                    &&& d@ == old(self).dicom_reader.dicom_directories.deep_view()[old(
                        self,
                    ).index as int]
                    &&& final(self).index == old(self).index + 1
                },
                None => {
                    &&& old(self).index >= old(self).dicom_reader.dicom_directories@.len()
                    &&& final(self).index == old(self).index
                },
            },
    {
        if self.index >= self.dicom_reader.dicom_directories.len() {
            None
        } else {
            let d = clone_string(&self.dicom_reader.dicom_directories[self.index]);
            self.index = self.index + 1;
            Some(d)
        }
    }
}

/// The pull-based streaming cursor over a reader's volume index.
///
/// Each pull plans one chunk: up to `batch_size` directories, within the
/// remaining row budget when a limit is set. The cursor visits every
/// directory at most once, in index order, and turns `Done` at exhaustion
/// or when the budget runs out.
pub struct DicomReaderStreamer {
    pub dicom_reader_iterator: DicomReaderIterator,
    pub remaining: Option<usize>,
    pub done: bool,
}

impl DicomReaderStreamer {
    /// The directories of the underlying index.
    pub open spec fn dirs(self) -> Seq<Seq<char>> {
        self.dicom_reader_iterator.dicom_reader.dicom_directories.deep_view()
    }

    /// How many directories the index holds.
    pub open spec fn total(self) -> int {
        self.dirs().len() as int
    }

    /// The cursor position: how many directories have been handed out.
    pub open spec fn position(self) -> int {
        self.dicom_reader_iterator.index as int
    }

    /// The configured chunk size.
    pub open spec fn batch_size(self) -> int {
        self.dicom_reader_iterator.dicom_reader.batch_size as int
    }

    /// Cursor consistency: the position never passes the end of the index.
    pub open spec fn wf(self) -> bool {
        self.position() <= self.total()
    }

    /// How many directories the next pull draws: the chunk size, capped by
    /// the remaining row budget and by what is left of the index.
    pub open spec fn draw_size(self) -> int {
        let avail = self.total() - self.position();
        let cap = match self.remaining {
            Some(r) => if r as int <= self.batch_size() {
                r as int
            } else {
                self.batch_size()
            },
            None => self.batch_size(),
        };
        if cap <= avail {
            cap
        } else {
            avail
        }
    }

    /// A cursor over the reader's index, at the start, with the row budget
    /// of the reader's limit.
    pub fn new(reader: DicomReader) -> (r: DicomReaderStreamer)
        ensures
            r.dicom_reader_iterator.dicom_reader == reader,
            r.position() == 0,
            r.remaining == reader.limit,
            !r.done,
            r.wf(),
    {
        let remaining = match &reader.limit {
            Some(l) => Some(*l),
            None => None,
        };
        DicomReaderStreamer {
            dicom_reader_iterator: DicomReaderIterator { dicom_reader: reader, index: 0 },
            remaining,
            done: false,
        }
    }

    /// Pulls the next chunk plan: the directories of the volumes to visit,
    /// in index order.
    ///
    /// Draws `draw_size` directories, advances the position by as many,
    /// spends that much of the row budget, and turns `Done` when nothing
    /// was drawn, the budget is spent, or the index is exhausted. A `Done`
    /// cursor draws nothing and stays `Done`.
    pub fn next_chunk(&mut self) -> (r: Option<Vec<String>>)
        requires
            old(self).wf(),
        ensures
            final(self).wf(),
            final(self).dicom_reader_iterator.dicom_reader == old(
                self,
            ).dicom_reader_iterator.dicom_reader,
            old(self).done || old(self).draw_size() == 0 ==> r is None && final(self).done
                && final(self).position() == old(self).position() && final(self).remaining == old(
                self,
            ).remaining,
            !old(self).done && old(self).draw_size() > 0 ==> {
                let k = old(self).draw_size();
                &&& r matches Some(v)
                &&& r->Some_0.deep_view() == old(self).dirs().subrange(
                    old(self).position(),
                    old(self).position() + k,
                )
                &&& final(self).position() == old(self).position() + k
                &&& match (old(self).remaining, final(self).remaining) {
                    (Some(b), Some(a)) => a == b - k,
                    (None, None) => true,
                    _ => false,
                }
                &&& final(self).done == (final(self).remaining == Some(0usize)
                    || final(self).position() == final(self).total())
            },
    {
        if self.done {
            return None;
        }
        let total = self.dicom_reader_iterator.dicom_reader.dicom_directories.len();
        let pos = self.dicom_reader_iterator.index;
        let avail = total - pos;
        let cap = match &self.remaining {
            Some(r) => {
                if *r <= self.dicom_reader_iterator.dicom_reader.batch_size {
                    *r
                } else {
                    self.dicom_reader_iterator.dicom_reader.batch_size
                }
            },
            None => self.dicom_reader_iterator.dicom_reader.batch_size,
        };
        let k = if cap <= avail {
            cap
        } else {
            avail
        };
        if k == 0 {
            self.done = true;
            return None;
        }
        let mut chunk: Vec<String> = Vec::new();
        let mut i: usize = 0;
        while i < k
            invariant
                i <= k,
                total == self.dicom_reader_iterator.dicom_reader.dicom_directories@.len(),
                pos + k <= total,
                chunk@.len() == i,
                forall|j: int|
                    0 <= j < i ==> chunk.deep_view()[j]
                        == self.dicom_reader_iterator.dicom_reader.dicom_directories.deep_view()[pos + j],
                *self == *old(self),
            decreases k - i,
        {
            let ghost pdv = chunk.deep_view();
            let d = clone_string(
                &self.dicom_reader_iterator.dicom_reader.dicom_directories[pos + i],
            );
            chunk.push(d);
            proof {
                assert forall|j: int| 0 <= j < i + 1 implies chunk.deep_view()[j]
                    == self.dicom_reader_iterator.dicom_reader.dicom_directories.deep_view()[pos + j] by {
                    if j < i {
                        assert(chunk.deep_view()[j] == pdv[j]);
                    }
                }
            }
            i = i + 1;
        }
        self.dicom_reader_iterator.index = pos + k;
        match self.remaining {
            Some(r) => {
                self.remaining = Some(r - k);
            },
            None => {},
        }
        let at_end = self.dicom_reader_iterator.index
            == self.dicom_reader_iterator.dicom_reader.dicom_directories.len();
        let spent = match &self.remaining {
            Some(r) => *r == 0,
            None => false,
        };
        if at_end || spent {
            self.done = true;
        }
        proof {
            assert(chunk.deep_view() =~= old(self).dirs().subrange(
                old(self).position(),
                old(self).position() + old(self).draw_size(),
            ));
        }
        Some(chunk)
    }
}

} // verus!
