//! Mapping a place in a macro expansion back to the file it came from.
//!
//! Every text that the semantic engine speaks of is an entry of one arena:
//! a file on disk, or what an expansion produced for one node. A produced
//! entry names the file and the range that it was produced from, and that
//! file stands before it in the arena, so walking outward ends.

use vstd::prelude::*;
use crate::diagnostic::{FileId, FileRange, SourceRootId};
use crate::edit::TextRange;

verus! {

/// Where a file comes from.
#[derive(Clone, Debug, PartialEq, Eq)]
pub enum FileOrigin {
    /// A file on disk, with its place in its source root and its length.
    Real { file_id: FileId, source_root: SourceRootId, path: Vec<u8>, len: u32 },
    /// The text that an expansion produced for one node. `from_range` is
    /// the tightest range of `from_file` that the node was produced from:
    /// the tokens handed to the macro where the node is made of them, the
    /// whole call where nothing tighter is known. A place inside this text
    /// stands for that range.
    Expansion { from_file: usize, from_range: TextRange, len: u32 },
}

/// A range in a text of the arena: in a real file, or in what an expansion
/// produced.
#[derive(Clone, Copy, Debug, PartialEq, Eq, Structural)]
pub struct InFile {
    pub file: usize,
    pub range: TextRange,
}

/// The arena of files.
#[derive(Clone, Debug, PartialEq, Eq)]
pub struct ExpansionMap {
    pub files: Vec<FileOrigin>,
}

/// The length of a file's text.
pub open spec fn file_len(origin: FileOrigin) -> int {
    match origin {
        FileOrigin::Real { len, .. } => len as int,
        FileOrigin::Expansion { len, .. } => len as int,
    }
}

impl ExpansionMap {
    /// Every produced text comes from a range that is not empty, lies
    /// inside its file, and stands in a file earlier in the arena.
    pub open spec fn wf(&self) -> bool {
        forall|i: int|
            0 <= i < self.files@.len() ==> match #[trigger] self.files@[i] {
                FileOrigin::Real { .. } => true,
                FileOrigin::Expansion { from_file, from_range, .. } => from_file < i && from_range.start
                    < from_range.end && from_range.end <= file_len(self.files@[from_file as int]),
            }
    }

    /// The number of expansion layers between `file` and a real file.
    pub open spec fn depth(&self, file: int) -> nat
        decreases file,
    {
        match self.files@[file] {
            FileOrigin::Expansion { from_file, .. } if 0 <= file && from_file < file => 1 + self.depth(
                from_file as int,
            ),
            _ => 0,
        }
    }

    /// The file reached from `file` by walking outward, layer by layer.
    pub open spec fn root(&self, file: int) -> int
        decreases file,
    {
        match self.files@[file] {
            FileOrigin::Expansion { from_file, .. } if 0 <= file && from_file < file => self.root(
                from_file as int,
            ),
            _ => file,
        }
    }

    /// The range reached from `range` in `file`: the range itself in a real
    /// file, else the range in the real file that the outermost produced
    /// text came from.
    pub open spec fn root_range(&self, file: int, range: TextRange) -> TextRange
        decreases file,
    {
        match self.files@[file] {
            FileOrigin::Expansion { from_file, from_range, .. } if 0 <= file && from_file < file =>
                self.root_range(from_file as int, from_range),
            _ => range,
        }
    }

    /// The identity of the real file at the root of `file`.
    pub open spec fn root_file_id(&self, file: int) -> FileId {
        match self.files@[self.root(file)] {
            FileOrigin::Real { file_id, .. } => file_id,
            FileOrigin::Expansion { .. } => FileId(0),
        }
    }

    /// The place in a real file that stands for `range` in `file`.
    pub open spec fn reconcile(&self, file: int, range: TextRange) -> FileRange {
        FileRange { file_id: self.root_file_id(file), range: self.root_range(file, range) }
    }

    /// Tests the invariant.
    pub fn validate(&self) -> (b: bool)
        ensures
            b == self.wf(),
    {
        let n: usize = self.files.len();
        let mut i: usize = 0;
        while i < n
            invariant
                n == self.files@.len(),
                0 <= i <= n,
                forall|j: int|
                    0 <= j < i ==> match #[trigger] self.files@[j] {
                        FileOrigin::Real { .. } => true,
                        FileOrigin::Expansion { from_file, from_range, .. } => from_file < j
                            && from_range.start < from_range.end && from_range.end <= file_len(
                            self.files@[from_file as int],
                        ),
                    },
            decreases n - i,
        {
            match &self.files[i] {
                FileOrigin::Real { .. } => {},
                FileOrigin::Expansion { from_file, from_range, .. } => {
                    if *from_file >= i || from_range.start >= from_range.end {
                        return false;
                    }
                    let outer: u32 = match &self.files[*from_file] {
                        FileOrigin::Real { len, .. } => *len,
                        FileOrigin::Expansion { len, .. } => *len,
                    };
                    if from_range.end > outer {
                        return false;
                    }
                },
            }
            i += 1;
        }
        true
    }

    /// The index of the real file from which `file` comes.
    pub fn original_file(&self, file: usize) -> (r: usize)
        requires
            self.wf(),
            file < self.files@.len(),
        ensures
            r == self.root(file as int),
            r <= file,
            self.files@[r as int] is Real,
    {
        let mut f: usize = file;
        loop
            invariant
                self.wf(),
                f <= file < self.files@.len(),
                self.root(f as int) == self.root(file as int),
            decreases f,
        {
            match &self.files[f] {
                FileOrigin::Real { .. } => {
                    return f;
                },
                FileOrigin::Expansion { from_file, .. } => {
                    f = *from_file;
                },
            }
        }
    }

    /// Walks outward through every layer of expansion and gives the range in
    /// the real file.
    pub fn original_range(&self, at: InFile) -> (r: FileRange)
        requires
            self.wf(),
            at.file < self.files@.len(),
        ensures
            r == self.reconcile(at.file as int, at.range),
    {
        let mut f: usize = at.file;
        let mut range: TextRange = at.range;
        loop
            invariant
                self.wf(),
                f < self.files@.len(),
                self.root(f as int) == self.root(at.file as int),
                self.root_range(f as int, range) == self.root_range(at.file as int, at.range),
            decreases f,
        {
            match &self.files[f] {
                FileOrigin::Real { file_id, .. } => {
                    return FileRange { file_id: *file_id, range };
                },
                FileOrigin::Expansion { from_file, from_range, .. } => {
                    f = *from_file;
                    range = *from_range;
                },
            }
        }
    }
}

/// A range in an expansion, however many layers deep, is reconciled to a
/// range that is not empty and lies inside a real file: the file at the root
/// of its lineage, never a file that an expansion produced. In a real file
/// the range stays as it is, so there the same holds of a range that is not
/// empty and lies inside the file.
pub proof fn lemma_reconciled_in_real_file(map: &ExpansionMap, file: int, range: TextRange)
    requires
        map.wf(),
        0 <= file < map.files@.len(),
        map.files@[file] is Real ==> range.start < range.end && range.end <= file_len(map.files@[file]),
    ensures
        0 <= map.root(file) <= file,
        map.files@[map.root(file)] is Real,
        map.files@[map.root(file)] matches FileOrigin::Real { file_id, .. } && map.reconcile(
            file,
            range,
        ).file_id == file_id,
        map.reconcile(file, range).range.start < map.reconcile(file, range).range.end,
        map.reconcile(file, range).range.end <= file_len(map.files@[map.root(file)]),
        map.files@[file] is Real ==> map.reconcile(file, range).range == range,
        map.depth(file) == 0 <==> map.files@[file] is Real,
    decreases file,
{
    match map.files@[file] {
        FileOrigin::Real { .. } => {},
        FileOrigin::Expansion { from_file, from_range, .. } => {
            lemma_reconciled_in_real_file(map, from_file as int, from_range);
        },
    }
}

/// A range that lies inside its file is reconciled to a range that lies
/// inside the real file at the root of its lineage.
pub proof fn lemma_root_range_within(map: &ExpansionMap, file: int, range: TextRange)
    requires
        map.wf(),
        0 <= file < map.files@.len(),
        map.files@[file] is Real ==> range.within(file_len(map.files@[file])),
    ensures
        0 <= map.root(file) <= file,
        map.files@[map.root(file)] is Real,
        map.files@[file] is Real ==> map.root(file) == file,
        map.root_range(file, range).within(file_len(map.files@[map.root(file)])),
    decreases file,
{
    match map.files@[file] {
        FileOrigin::Real { .. } => {},
        FileOrigin::Expansion { from_file, from_range, .. } => {
            lemma_root_range_within(map, from_file as int, from_range);
        },
    }
}

} // verus!
