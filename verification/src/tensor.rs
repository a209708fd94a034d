//! Plain numeric buffers with a shape, and the device they are meant for.
//!
//! A buffer holds its numbers in row-major order, each one as the bit
//! pattern of a single-precision value.

use crate::point::{rows_of, Point, ToPoints, ToVec, INPUT_DIM};
use vstd::prelude::*;

verus! {

/// The compute unit whose memory a batch is placed in.
#[derive(Debug, Clone, Copy, PartialEq, Eq, Structural)]
pub enum Device {
    /// Host memory: placing a buffer there moves nothing.
    Cpu,
    /// The accelerator with the given ordinal.
    Accelerator(usize),
}

/// A shaped buffer of numbers, row-major.
#[derive(Debug, Clone, PartialEq, Eq)]
pub struct TensorData {
    /// Extent of each axis, outermost first.
    pub dims: Vec<usize>,
    /// The numbers, as bit patterns, in row-major order.
    pub values: Vec<u32>,
}

/// What a buffer is, mathematically.
pub struct TensorModel {
    pub dims: Seq<nat>,
    pub values: Seq<u32>,
}

/// The extents `dims` as natural numbers.
pub open spec fn extents(dims: Seq<usize>) -> Seq<nat> {
    Seq::new(dims.len(), |i: int| dims[i] as nat)
}

/// Number of elements that a buffer of shape `dims` holds: the product of
/// its extents.
pub open spec fn numel(dims: Seq<nat>) -> nat
    decreases dims.len(),
{
    if dims.len() == 0 {
        1
    } else {
        numel(dims.drop_last()) * dims.last()
    }
}

impl TensorModel {
    /// Whether the buffer holds exactly as many numbers as its shape says.
    pub open spec fn wf(self) -> bool {
        self.values.len() == numel(self.dims)
    }

    /// Length of a row: the extent of the innermost axis.
    pub open spec fn row_len(self) -> nat
        recommends
            self.dims.len() > 0,
    {
        self.dims.last()
    }

    /// The buffer cut into rows along its innermost axis.
    pub open spec fn rows(self) -> Seq<Seq<u32>>
        recommends
            self.dims.len() > 0,
            self.row_len() > 0,
    {
        chunks(self.values, self.row_len())
    }
}

/// `values` cut into pieces of `width` numbers, in order.  If the numbers do
/// not divide evenly, the last piece is the shorter rest.
pub open spec fn chunks(values: Seq<u32>, width: nat) -> Seq<Seq<u32>>
    recommends
        width > 0,
    decreases values.len(),
{
    if width == 0 || values.len() == 0 {
        Seq::empty()
    } else if values.len() <= width {
        seq![values]
    } else {
        seq![values.take(width as int)] + chunks(values.skip(width as int), width)
    }
}

/// The first `width` numbers of `row`, or all of it if it has fewer.
pub open spec fn head(row: Seq<u32>, width: nat) -> Seq<u32> {
    if row.len() <= width {
        row
    } else {
        row.take(width as int)
    }
}

/// The first `width` numbers of each row.
pub open spec fn heads(rows: Seq<Seq<u32>>, width: nat) -> Seq<Seq<u32>> {
    rows.map_values(|row: Seq<u32>| head(row, width))
}

/// Whether each row has at least `width` numbers.
pub open spec fn all_at_least(rows: Seq<Seq<u32>>, width: nat) -> bool {
    forall|i: int| 0 <= i < rows.len() ==> (#[trigger] rows[i]).len() >= width
}

impl View for TensorData {
    type V = TensorModel;

    open spec fn view(&self) -> TensorModel {
        TensorModel { dims: extents(self.dims@), values: self.values@ }
    }
}

impl TensorData {
    /// Cuts the numbers into rows of `width` and keeps the first `keep`
    /// numbers of each row.
    fn split(&self, width: usize, keep: usize) -> (rows: Vec<Vec<u32>>)
        requires
            width > 0,
        ensures
            rows_of(rows@) == heads(chunks(self.values@, width as nat), keep as nat),
    {
        let ghost values = self.values@;
        let len = self.values.len();
        let mut rows: Vec<Vec<u32>> = Vec::new();
        let mut start: usize = 0;
        proof {
            assert(values.skip(0) =~= values);
            assert(rows_of(rows@) + heads(chunks(values.skip(0), width as nat), keep as nat)
                =~= heads(chunks(values, width as nat), keep as nat));
        }
        while start < len
            invariant
                width > 0,
                values == self.values@,
                len == values.len(),
                start <= len,
                rows_of(rows@) + heads(chunks(values.skip(start as int), width as nat), keep as nat)
                    == heads(chunks(values, width as nat), keep as nat),
            decreases len - start,
        {
            let ghost rest = values.skip(start as int);
            let ghost done = rows_of(rows@);
            let end = if len - start <= width {
                len
            } else {
                start + width
            };
            let ghost piece = values.subrange(start as int, end as int);
            proof {
                assert(rest.len() == len - start);
                if rest.len() <= width {
                    assert(piece =~= rest);
                    assert(chunks(rest, width as nat) =~= seq![piece]);
                    assert(values.skip(end as int) =~= Seq::<u32>::empty());
                    assert(chunks(values.skip(end as int), width as nat) =~= Seq::<Seq<u32>>::empty());
                } else {
                    assert(piece =~= rest.take(width as int));
                    assert(values.skip(end as int) =~= rest.skip(width as int));
                }
                assert(chunks(rest, width as nat) =~= seq![piece] + chunks(
                    values.skip(end as int),
                    width as nat,
                ));
            }
            let kept = if end - start <= keep {
                end - start
            } else {
                keep
            };
            let mut row: Vec<u32> = Vec::new();
            let mut j: usize = 0;
            while j < kept
                invariant
                    j <= kept,
                    kept <= end - start,
                    end <= self.values@.len(),
                    values == self.values@,
                    row@ == values.subrange(start as int, start + j),
                decreases kept - j,
            {
                row.push(self.values[start + j]);
                proof {
                    assert(row@ =~= values.subrange(start as int, start + j + 1));
                }
                j += 1;
            }
            rows.push(row);
            proof {
                assert(row@ =~= head(piece, keep as nat));
                assert(rows_of(rows@) =~= done.push(head(piece, keep as nat)));
                assert(heads(chunks(rest, width as nat), keep as nat) =~= seq![
                    head(piece, keep as nat),
                ] + heads(chunks(values.skip(end as int), width as nat), keep as nat));
                assert(rows_of(rows@) + heads(
                    chunks(values.skip(end as int), width as nat),
                    keep as nat,
                ) =~= done + heads(chunks(rest, width as nat), keep as nat));
            }
            start = end;
        }
        proof {
            assert(values.skip(len as int) =~= Seq::<u32>::empty());
            assert(heads(chunks(values.skip(start as int), width as nat), keep as nat)
                =~= Seq::<Seq<u32>>::empty());
            assert(rows_of(rows@) + Seq::<Seq<u32>>::empty() =~= rows_of(rows@));
        }
        rows
    }
}

impl ToVec for TensorData {
    /// A buffer can be cut into rows if it has at least one axis and its
    /// innermost axis is not empty.
    open spec fn holds_rows(&self) -> bool {
        self@.dims.len() > 0 && self@.row_len() > 0
    }

    open spec fn rows(&self) -> Seq<Seq<u32>> {
        self@.rows()
    }

    /// The numbers of the buffer, one vector per row of its innermost axis.
    fn to_vec(self) -> (rows: Vec<Vec<u32>>) {
        let width = self.dims[self.dims.len() - 1];
        proof {
            lemma_chunks_are_short(self.values@, width as nat);
        }
        self.split(width, width)
    }
}

impl ToPoints for TensorData {
    /// A buffer can be read as points if it can be cut into rows and each
    /// row has at least `INPUT_DIM` numbers.
    open spec fn holds_points(&self) -> bool {
        &&& self@.dims.len() > 0
        &&& self@.row_len() > 0
        &&& all_at_least(self@.rows(), INPUT_DIM as nat)
    }

    /// The first `INPUT_DIM` numbers of each row.
    open spec fn points(&self) -> Seq<Seq<u32>> {
        heads(self@.rows(), INPUT_DIM as nat)
    }

    /// The points of the buffer, one per row of its innermost axis, each of
    /// exactly `INPUT_DIM` coordinates.
    fn to_points(self) -> (points: Vec<Point>)
        ensures
            forall|i: int| 0 <= i < points.len() ==> (#[trigger] points[i]).len() == INPUT_DIM,
    {
        let width = self.dims[self.dims.len() - 1];
        let points = self.split(width, INPUT_DIM);
        proof {
            let rows = chunks(self.values@, width as nat);
            assert(self@.row_len() == width);
            assert(rows_of(points@).len() == points.len());
            assert forall|i: int| 0 <= i < points.len() implies (#[trigger] points[i]).len()
                == INPUT_DIM by {
                assert(rows_of(points@)[i] == head(rows[i], INPUT_DIM as nat));
                assert(rows[i].len() >= INPUT_DIM);
                assert(rows_of(points@)[i] == points[i]@);
            }
        }
        points
    }
}

/// No piece is longer than the width it was cut to, so keeping `width`
/// numbers of each piece keeps all.
pub proof fn lemma_chunks_are_short(values: Seq<u32>, width: nat)
    requires
        width > 0,
    ensures
        forall|i: int|
            0 <= i < chunks(values, width).len() ==> 0 < (#[trigger] chunks(values, width)[i]).len()
                <= width,
        heads(chunks(values, width), width) == chunks(values, width),
    decreases values.len(),
{
    if values.len() > width {
        lemma_chunks_are_short(values.skip(width as int), width);
        let rest = chunks(values.skip(width as int), width);
        assert forall|i: int| 0 <= i < chunks(values, width).len() implies 0 < (#[trigger] chunks(
            values,
            width,
        )[i]).len() <= width by {
            if i > 0 {
                assert(chunks(values, width)[i] == rest[i - 1]);
            }
        }
    }
    assert(heads(chunks(values, width), width) =~= chunks(values, width));
}

/// Cutting undoes laying end to end: rows of one positive length, laid end
/// to end and cut to that length again, are the rows one started from.
pub proof fn lemma_chunks_of_flatten(rows: Seq<Seq<u32>>, width: nat)
    requires
        width > 0,
        forall|i: int| 0 <= i < rows.len() ==> (#[trigger] rows[i]).len() == width,
    ensures
        chunks(rows.flatten(), width) == rows,
    decreases rows.len(),
{
    if rows.len() == 0 {
        assert(chunks(rows.flatten(), width) =~= rows);
    } else {
        let first = rows.first();
        let rest = rows.drop_first();
        lemma_chunks_of_flatten(rest, width);
        let flat = rows.flatten();
        assert(flat == first + rest.flatten());
        if rest.len() == 0 {
            assert(rest.flatten() =~= Seq::<u32>::empty());
            assert(flat =~= first);
            assert(chunks(flat, width) =~= rows);
        } else {
            assert(rest[0].len() == width);
            assert(rest.flatten() == rest.first() + rest.drop_first().flatten());
            assert(flat.len() > width);
            assert(flat.take(width as int) =~= first);
            assert(flat.skip(width as int) =~= rest.flatten());
            assert(chunks(flat, width) =~= rows);
        }
    }
}

/// The three-axis shape `[a, b, c]` holds `a * b * c` numbers, and the
/// two-axis shape `[a, b]` holds `a * b`.
pub proof fn lemma_numel_small(a: nat, b: nat, c: nat)
    ensures
        numel(seq![a, b]) == a * b,
        numel(seq![a, b, c]) == a * b * c,
{
    reveal_with_fuel(numel, 4);
    assert(seq![a, b].drop_last() =~= seq![a]);
    assert(seq![a].drop_last() =~= Seq::<nat>::empty());
    assert(seq![a, b, c].drop_last() =~= seq![a, b]);
    assert(numel(seq![a]) == a) by {
        assert(numel(seq![a]) == numel(seq![a].drop_last()) * a);
        assert(1 * a == a) by (nonlinear_arith);
    }
    assert(numel(seq![a, b]) == numel(seq![a]) * b);
    assert(numel(seq![a, b, c]) == numel(seq![a, b]) * c);
}

} // verus!
