//! The sample that flows through the pipeline.
//!
//! Coordinates and labels are single-precision numbers.  The pipeline never
//! computes with them: it only moves them, so each number is carried as its
//! IEEE-754 bit pattern in a `u32` and arrives bit for bit as it was made.

use vstd::prelude::*;

verus! {

/// Number of coordinates of a point unless a stream is configured otherwise.
pub const INPUT_DIM: usize = 3;

/// Number of label values of an item unless a stream is configured otherwise.
pub const LABEL_DIM: usize = 1;

/// The coordinates of one sample, one bit pattern per axis.
pub type Point = Vec<u32>;

/// One generated sample: a position and at most one scalar label.
#[derive(Debug, Clone, PartialEq, Eq)]
pub struct SpiralItem {
    pub point: Point,
    pub label: Option<u32>,
}

/// What an item is, mathematically: its coordinates and its label.
pub struct ItemModel {
    pub point: Seq<u32>,
    pub label: Option<u32>,
}

impl ItemModel {
    /// Number of coordinates.
    pub open spec fn point_dim(self) -> nat {
        self.point.len()
    }

    /// Number of label values: one if the item is labelled, else none.
    pub open spec fn label_dim(self) -> nat {
        if self.label is Some {
            1
        } else {
            0
        }
    }

    /// The label as a vector of `label_dim()` values.
    pub open spec fn label_values(self) -> Seq<u32> {
        match self.label {
            Some(t) => seq![t],
            None => Seq::empty(),
        }
    }

    /// Whether the item has `point_dim` coordinates and `label_dim` label values.
    pub open spec fn has_shape(self, point_dim: nat, label_dim: nat) -> bool {
        self.point_dim() == point_dim && self.label_dim() == label_dim
    }
}

impl View for SpiralItem {
    type V = ItemModel;

    open spec fn view(&self) -> ItemModel {
        ItemModel { point: self.point@, label: self.label }
    }
}

/// Whether every item of `items` has the given shape.
pub open spec fn all_have_shape(items: Seq<SpiralItem>, point_dim: nat, label_dim: nat) -> bool {
    forall|i: int| 0 <= i < items.len() ==> (#[trigger] items[i])@.has_shape(point_dim, label_dim)
}

/// The vectors `points`, as rows of numbers.
pub open spec fn rows_of(points: Seq<Point>) -> Seq<Seq<u32>> {
    points.map_values(|point: Point| point@)
}

/// Reading a buffer as a list of points.
pub trait ToPoints: Sized {
    /// Whether the value can be read as points: `to_points` takes no other.
    spec fn holds_points(&self) -> bool;

    /// The points that the value holds.
    spec fn points(&self) -> Seq<Seq<u32>>;

    /// The value as points, each of `INPUT_DIM` coordinates.
    fn to_points(self) -> (points: Vec<Point>)
        requires
            self.holds_points(),
        ensures
            rows_of(points@) == self.points(),
    ;
}

/// Reading a buffer as a list of rows.
pub trait ToVec: Sized {
    /// Whether the value can be cut into rows: `to_vec` takes no other.
    spec fn holds_rows(&self) -> bool;

    /// The rows that the value holds.
    spec fn rows(&self) -> Seq<Seq<u32>>;

    /// The value as rows.
    fn to_vec(self) -> (rows: Vec<Vec<u32>>)
        requires
            self.holds_rows(),
        ensures
            rows_of(rows@) == self.rows(),
    ;
}

impl SpiralItem {
    /// Builds an item from its coordinates and its label.
    pub fn new(point: Point, label: Option<u32>) -> (item: Self)
        ensures
            item@ == (ItemModel { point: point@, label }),
    {
        SpiralItem { point, label }
    }

    /// Number of coordinates of the item.
    pub fn point_dim(&self) -> (d: usize)
        ensures
            d == self@.point_dim(),
    {
        self.point.len()
    }

    /// Number of label values of the item: 0 or 1.
    pub fn label_dim(&self) -> (l: usize)
        ensures
            l == self@.label_dim(),
    {
        match self.label {
            Some(_) => 1,
            None => 0,
        }
    }

    /// Tells whether the item has the given numbers of coordinates and of
    /// label values.
    pub fn has_shape(&self, point_dim: usize, label_dim: usize) -> (ok: bool)
        ensures
            ok == self@.has_shape(point_dim as nat, label_dim as nat),
    {
        self.point_dim() == point_dim && self.label_dim() == label_dim
    }
}

} // verus!
