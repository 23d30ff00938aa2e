//! Areas of jurisdiction: polygons with holes, carried but never measured here.
//!
//! Coordinates are stored as the bit patterns of IEEE 754 double-precision
//! numbers, so that an area is kept exactly as it was submitted. Deciding
//! whether a point lies inside an area is left to the caller.

use vstd::prelude::*;

verus! {

/// A point of the plane, each axis given as the bits of a double.
#[derive(Clone, Copy, Debug, PartialEq, Eq, Structural)]
pub struct Coordinate {
    pub x: u64,
    pub y: u64,
}

/// A sequence of points: one ring of a polygon.
#[derive(Debug)]
pub struct LineString {
    pub items: Vec<Coordinate>,
}

/// An exterior ring and the rings of its holes.
#[derive(Debug)]
pub struct Polygon {
    pub exterior: LineString,
    pub interiors: Vec<LineString>,
}

/// The mathematical content of a [`Polygon`].
pub struct PolygonView {
    pub exterior: Seq<Coordinate>,
    pub interiors: Seq<Seq<Coordinate>>,
}

impl View for LineString {
    type V = Seq<Coordinate>;

    open spec fn view(&self) -> Seq<Coordinate> {
        self.items@
    }
}

impl View for Polygon {
    type V = PolygonView;

    open spec fn view(&self) -> PolygonView {
        PolygonView {
            exterior: self.exterior@,
            interiors: Seq::new(self.interiors@.len(), |i: int| self.interiors@[i]@),
        }
    }
}

impl Coordinate {
    /// Builds a point from the bit patterns of its two axes.
    pub fn new(x: u64, y: u64) -> (point: Coordinate)
        ensures
            point == (Coordinate { x, y }),
    {
        Coordinate { x, y }
    }
}

impl LineString {
    /// Builds a ring from its points.
    pub fn new(items: Vec<Coordinate>) -> (ring: LineString)
        ensures
            ring@ == items@,
    {
        LineString { items }
    }
}

impl Clone for LineString {
    fn clone(&self) -> (copy: LineString)
        ensures
            copy@ == self@,
    {
        let mut items: Vec<Coordinate> = Vec::new();
        let mut i: usize = 0;
        while i < self.items.len()
            invariant
                i <= self.items.len(),
                items@ == self.items@.subrange(0, i as int),
            decreases self.items.len() - i,
        {
            items.push(self.items[i]);
            i = i + 1;
        }
        assert(self.items@.subrange(0, i as int) =~= self.items@);
        LineString { items }
    }
}

impl Polygon {
    /// Builds a polygon from its exterior ring and the rings of its holes.
    pub fn new(exterior: LineString, interiors: Vec<LineString>) -> (area: Polygon)
        ensures
            area@.exterior == exterior@,
            area@.interiors == Seq::new(interiors@.len(), |i: int| interiors@[i]@),
    {
        Polygon { exterior, interiors }
    }

    /// The polygon without any point: it contains nothing.
    pub fn empty() -> (area: Polygon)
        ensures
            area@.exterior == Seq::<Coordinate>::empty(),
            area@.interiors == Seq::<Seq<Coordinate>>::empty(),
    {
        let area = Polygon { exterior: LineString { items: Vec::new() }, interiors: Vec::new() };
        assert(area@.interiors =~= Seq::<Seq<Coordinate>>::empty());
        area
    }
}

impl Clone for Polygon {
    fn clone(&self) -> (copy: Polygon)
        ensures
            copy@ == self@,
    {
        let mut interiors: Vec<LineString> = Vec::new();
        let mut i: usize = 0;
        while i < self.interiors.len()
            invariant
                i <= self.interiors.len(),
                interiors@.len() == i,
                forall|j: int| 0 <= j < i ==> (#[trigger] interiors@[j])@ == self.interiors@[j]@,
            decreases self.interiors.len() - i,
        {
            interiors.push(self.interiors[i].clone());
            i = i + 1;
        }
        let copy = Polygon { exterior: self.exterior.clone(), interiors };
        assert(copy@.interiors =~= self@.interiors);
        copy
    }
}

} // verus!
