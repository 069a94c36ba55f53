//! The fixed-size voxel chunk store.
//!
//! A [`ChunkData`] is an exclusively-owned 16x16x16 grid of [`Voxel`]s,
//! addressed by local coordinates each in `[0, 16)`. Its view is the flat
//! sequence of all 4096 voxels, in x-then-y-then-z order.

use vstd::prelude::*;

use crate::side::Axis;

verus! {

/// One cell's material id; `0` is empty air, any nonzero value is an opaque
/// solid material.
pub type Voxel = u8;

/// Chunks are cubes of `CHUNK_SIZE` voxels to a side, so that a chunk's data
/// is exactly one 4096-byte page.
pub const CHUNK_SIZE: usize = 16;

/// Number of voxels in one chunk.
pub const CHUNK_VOLUME: usize = 4096;

/// Position of local coordinates (x, y, z) in a chunk's flat voxel sequence.
pub open spec fn flat_index(x: int, y: int, z: int) -> int {
    x + 16 * y + 256 * z
}

/// The view of a chunk with every voxel empty.
pub open spec fn empty_chunk() -> Seq<u8> {
    Seq::new(4096, |i: int| 0u8)
}

/// A fixed 16x16x16 grid of voxels.
#[derive(Debug)]
pub struct ChunkData {
    voxels: Vec<Voxel>,
}

impl Clone for ChunkData {
    /// A clone holds the same voxels.
    fn clone(&self) -> (c: Self)
        ensures
            c@ == self@,
    {
        proof {
            use_type_invariant(self);
        }
        let voxels = self.voxels.clone();
        proof {
            assert forall|i: int| 0 <= i < voxels@.len() implies voxels@[i] == self.voxels@[i] by {
                assert(cloned::<u8>(self.voxels[i], voxels[i]));
            }
            assert(voxels@ =~= self.voxels@);
        }
        ChunkData { voxels }
    }
}

impl View for ChunkData {
    type V = Seq<u8>;

    closed spec fn view(&self) -> Seq<u8> {
        if self.voxels@.len() == 4096 {
            self.voxels@
        } else {
            empty_chunk()
        }
    }
}

/// `true` when `low <= value < high`.
pub fn in_range(low: usize, high: usize, value: usize) -> (r: bool)
    ensures
        r == (low <= value < high),
{
    value >= low && value < high
}

impl ChunkData {
    #[verifier::type_invariant]
    spec fn wf(self) -> bool {
        self.voxels@.len() == 4096
    }

    /// The voxel at local coordinates (x, y, z).
    pub open spec fn spec_voxel(&self, x: int, y: int, z: int) -> Voxel {
        self@[flat_index(x, y, z)]
    }

    /// Every chunk's view holds exactly one voxel per cell of the grid.
    pub proof fn lemma_len(&self)
        ensures
            self@.len() == 4096,
    {
    }

    /// Read the voxel at local `index`; callers must pre-validate the range.
    pub fn get_voxel(&self, index: (usize, usize, usize)) -> (v: Voxel)
        requires
            index.0 < 16,
            index.1 < 16,
            index.2 < 16,
        ensures
            v == self.spec_voxel(index.0 as int, index.1 as int, index.2 as int),
    {
        proof {
            use_type_invariant(self);
        }
        self.voxels[index.0 + 16 * index.1 + 256 * index.2]
    }

    /// Read the voxel at local `index` as seen from `_side`; every side of a
    /// voxel currently shows the same material.
    pub fn get_voxel_face(&self, index: (usize, usize, usize), _side: crate::side::Side) -> (v:
        Voxel)
        requires
            index.0 < 16,
            index.1 < 16,
            index.2 < 16,
        ensures
            v == self.spec_voxel(index.0 as int, index.1 as int, index.2 as int),
    {
        self.get_voxel(index)
    }

    /// Overwrite the voxel at local `index`; callers must pre-validate the
    /// range. No other cell changes.
    pub fn set_voxel(&mut self, index: (usize, usize, usize), value: Voxel)
        requires
            index.0 < 16,
            index.1 < 16,
            index.2 < 16,
        ensures
            final(self)@ == old(self)@.update(
                flat_index(index.0 as int, index.1 as int, index.2 as int),
                value,
            ),
    {
        proof {
            use_type_invariant(&*self);
        }
        self.voxels[index.0 + 16 * index.1 + 256 * index.2] = value;
    }

    /// Get an iterator over a cross section of the chunk's data.
    pub fn cross_section<'s>(&'s self, axis: Axis, depth: usize) -> (iter: CrossSectionIter<'s>)
        requires
            depth < 16,
        ensures
            iter == (CrossSectionIter { data: self, axis, depth, row: 0 }),
    {
        CrossSectionIter { data: self, axis, depth, row: 0 }
    }
}

/// The voxel that a cross-section along `axis` at `depth` yields at
/// (`row`, `col`): the depth coordinate picks the fixed plane, and rows and
/// columns sweep the two remaining axes in a fixed order per axis.
pub open spec fn cross_section_voxel(
    chunk: &ChunkData,
    axis: Axis,
    depth: int,
    row: int,
    col: int,
) -> Voxel {
    match axis {
        Axis::X => chunk.spec_voxel(col, row, depth),
        Axis::Y => chunk.spec_voxel(col, depth, row),
        Axis::Z => chunk.spec_voxel(depth, col, row),
    }
}

/// A lazy, restartable walk over the 16 rows of one cross-section of a
/// chunk at a fixed depth along a chosen axis.
pub struct CrossSectionIter<'a> {
    /// The chunk being walked.
    pub data: &'a ChunkData,
    /// The axis whose coordinate is fixed.
    pub axis: Axis,
    /// The fixed coordinate along `axis`, in `[0, 16)`.
    pub depth: usize,
    /// The next row to yield, in `[0, 16]`.
    pub row: usize,
}

/// A walk over the 16 voxels of one row of a cross-section.
pub struct RowIter<'a> {
    /// The chunk being walked.
    pub data: &'a ChunkData,
    /// The axis whose coordinate is fixed.
    pub axis: Axis,
    /// The fixed coordinate along `axis`, in `[0, 16)`.
    pub depth: usize,
    /// The row this iterator yields, in `[0, 16)`.
    pub row: usize,
    /// The next column to yield, in `[0, 16]`.
    pub column: usize,
}

impl<'a> CrossSectionIter<'a> {
    /// Yield the iterator over the next row, or `None` when all 16 rows have
    /// been yielded.
    pub fn next(&mut self) -> (r: Option<RowIter<'a>>)
        ensures
            old(self).row >= 16 ==> r is None && *final(self) == *old(self),
            old(self).row < 16 ==> {
                &&& final(self).row == old(self).row + 1
                &&& final(self).data == old(self).data
                &&& final(self).axis == old(self).axis
                &&& final(self).depth == old(self).depth
                &&& (r matches Some(row_iter) && row_iter == (RowIter {
                    data: old(self).data,
                    axis: old(self).axis,
                    depth: old(self).depth,
                    row: old(self).row,
                    column: 0,
                }))
            },
    {
        if self.row >= 16 {
            return None;
        }
        self.row = self.row + 1;
        Some(
            RowIter {
                data: self.data,
                axis: self.axis,
                depth: self.depth,
                row: self.row - 1,
                column: 0,
            },
        )
    }
}

impl<'a> RowIter<'a> {
    /// Yield the next voxel of this row, or `None` when all 16 voxels have
    /// been yielded.
    pub fn next(&mut self) -> (r: Option<Voxel>)
        requires
            old(self).depth < 16,
            old(self).row < 16,
        ensures
            old(self).column >= 16 ==> r is None && *final(self) == *old(self),
            old(self).column < 16 ==> {
                &&& *final(self) == (RowIter {
                    column: (old(self).column + 1) as usize,
                    ..*old(self)
                })
                &&& (r matches Some(v) && v == cross_section_voxel(
                    old(self).data,
                    old(self).axis,
                    old(self).depth as int,
                    old(self).row as int,
                    old(self).column as int,
                ))
            },
    {
        if self.column >= 16 {
            return None;
        }
        self.column = self.column + 1;
        let v = match self.axis {
            Axis::X => self.data.get_voxel((self.column - 1, self.row, self.depth)),
            Axis::Y => self.data.get_voxel((self.column - 1, self.depth, self.row)),
            Axis::Z => self.data.get_voxel((self.depth, self.column - 1, self.row)),
        };
        Some(v)
    }
}

/// Law: writing a voxel then reading it back returns the value written, and
/// every other cell is unaffected — [`ChunkData::set_voxel`] followed by
/// [`ChunkData::get_voxel`], over the contracts of the two.
pub proof fn lemma_voxel_roundtrip(
    chunk: ChunkData,
    updated: ChunkData,
    x: int,
    y: int,
    z: int,
    v: Voxel,
    x2: int,
    y2: int,
    z2: int,
)
    requires
        updated@ == chunk@.update(flat_index(x, y, z), v),
        0 <= x < 16,
        0 <= y < 16,
        0 <= z < 16,
        0 <= x2 < 16,
        0 <= y2 < 16,
        0 <= z2 < 16,
    ensures
        updated.spec_voxel(x, y, z) == v,
        (x2, y2, z2) != (x, y, z) ==> updated.spec_voxel(x2, y2, z2) == chunk.spec_voxel(
            x2,
            y2,
            z2,
        ),
{
    chunk.lemma_len();
    if (x2, y2, z2) != (x, y, z) {
        // distinct coordinates land on distinct flat indexes
        assert(flat_index(x2, y2, z2) != flat_index(x, y, z)) by {
            if x + 16 * y + 256 * z == x2 + 16 * y2 + 256 * z2 {
                assert(x - x2 == 16 * (y2 - y) + 256 * (z2 - z));
                assert(x == x2);
                assert(y == y2);
                assert(z == z2);
            }
        }
    }
}

impl Default for ChunkData {
    /// A chunk with every voxel empty.
    fn default() -> (c: Self)
        ensures
            c@ == empty_chunk(),
    {
        let mut voxels: Vec<Voxel> = Vec::new();
        let mut i: usize = 0;
        while i < 4096
            invariant
                i <= 4096,
                voxels@.len() == i,
                forall|j: int| 0 <= j < i ==> voxels@[j] == 0u8,
            decreases 4096 - i,
        {
            voxels.push(0);
            i = i + 1;
        }
        proof {
            assert(voxels@ =~= empty_chunk());
        }
        ChunkData { voxels }
    }
}

} // verus!
