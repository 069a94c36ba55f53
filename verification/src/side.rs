//! Axis, face and side tags, and the axis-to-xyz coordinate permutation.
//!
//! The six face directions of a voxel are pure data: a [`Side`] is an
//! [`Axis`] together with a [`Face`] (pointing along the positive or the
//! negative direction of that axis), and the mesher addresses a plane of a
//! chunk by (row, column, depth) coordinates that a total mapping turns back
//! into (x, y, z).

use vstd::prelude::*;

verus! {

/// One of the three coordinate axes of a chunk.
#[derive(Clone, Copy, Debug, PartialEq, Eq, Structural)]
pub enum Axis {
    X,
    Y,
    Z,
}

/// Whether a face points along the positive direction of its axis (front)
/// or the negative direction (back).
#[derive(Clone, Copy, Debug, PartialEq, Eq, Structural)]
pub enum Face {
    Front,
    Back,
}

/// The outward normal direction of a face: one tag per axis and direction.
#[derive(Clone, Copy, Debug, PartialEq, Eq, Structural)]
pub enum Side {
    North,
    South,
    East,
    West,
    Top,
    Bottom,
}

/// The side whose outward normal points along `face` of `axis`.
pub open spec fn spec_side_of(axis: Axis, face: Face) -> Side {
    match (axis, face) {
        (Axis::X, Face::Front) => Side::East,
        (Axis::X, Face::Back) => Side::West,
        (Axis::Y, Face::Front) => Side::Top,
        (Axis::Y, Face::Back) => Side::Bottom,
        (Axis::Z, Face::Front) => Side::North,
        (Axis::Z, Face::Back) => Side::South,
    }
}

/// The axis and face that a side stands for; inverse of [`spec_side_of`].
pub open spec fn spec_axis_face_of(side: Side) -> (Axis, Face) {
    match side {
        Side::East => (Axis::X, Face::Front),
        Side::West => (Axis::X, Face::Back),
        Side::Top => (Axis::Y, Face::Front),
        Side::Bottom => (Axis::Y, Face::Back),
        Side::North => (Axis::Z, Face::Front),
        Side::South => (Axis::Z, Face::Back),
    }
}

/// Total mapping from an axis and a face to the side it produces.
pub fn side_of(axis: Axis, face: Face) -> (side: Side)
    ensures
        side == spec_side_of(axis, face),
{
    match (axis, face) {
        (Axis::X, Face::Front) => Side::East,
        (Axis::X, Face::Back) => Side::West,
        (Axis::Y, Face::Front) => Side::Top,
        (Axis::Y, Face::Back) => Side::Bottom,
        (Axis::Z, Face::Front) => Side::North,
        (Axis::Z, Face::Back) => Side::South,
    }
}

/// Total mapping from a side back to its axis and face; the two mappings
/// invert each other.
pub fn axis_face_of(side: Side) -> (r: (Axis, Face))
    ensures
        r == spec_axis_face_of(side),
        spec_side_of(r.0, r.1) == side,
{
    match side {
        Side::East => (Axis::X, Face::Front),
        Side::West => (Axis::X, Face::Back),
        Side::Top => (Axis::Y, Face::Front),
        Side::Bottom => (Axis::Y, Face::Back),
        Side::North => (Axis::Z, Face::Front),
        Side::South => (Axis::Z, Face::Back),
    }
}

/// Where the cell at (row, column, depth) of a cross-section along `axis`
/// lies in chunk coordinates.
pub open spec fn spec_rcd_xyz(axis: Axis, row: int, col: int, depth: int) -> (int, int, int) {
    match axis {
        Axis::X => (depth, row, col),
        Axis::Y => (col, depth, row),
        Axis::Z => (col, row, depth),
    }
}

/// Given an axis, row, column and depth, give the x, y, z index into the
/// chunk grid.
pub fn get_rcd_xyz(axis: Axis, row: i32, col: i32, depth: i32) -> (r: (i32, i32, i32))
    ensures
        (r.0 as int, r.1 as int, r.2 as int) == spec_rcd_xyz(
            axis,
            row as int,
            col as int,
            depth as int,
        ),
{
    match axis {
        Axis::X => (depth, row, col),
        Axis::Y => (col, depth, row),
        Axis::Z => (col, row, depth),
    }
}

} // verus!
