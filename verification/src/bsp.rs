//! The render and collision tree of a subobject: a pool of vertices, a pool
//! of normals, and a binary tree whose leaves hold one polygon each.

use vstd::prelude::*;
use crate::geom::{tight_box, BoundingBox, Vec3d};
use crate::ids::{NormalId, TextureId, VertexId};

verus! {

/// A corner of a polygon: which vertex, which normal, and where on the
/// texture.
#[derive(Clone, Copy, PartialEq, Eq, Debug, Hash, Structural)]
pub struct PolyVertex {
    pub vertex_id: VertexId,
    pub normal_id: NormalId,
    pub u: u32,
    pub v: u32,
}

impl View for PolyVertex {
    type V = PolyVertex;

    open spec fn view(&self) -> PolyVertex {
        *self
    }
}

impl DeepView for PolyVertex {
    type V = PolyVertex;

    open spec fn deep_view(&self) -> PolyVertex {
        *self
    }
}

/// A polygon: its normal, its texture (or the untextured handle), its
/// corners in order.
#[derive(Clone, PartialEq, Eq, Debug)]
pub struct Polygon {
    pub normal: Vec3d,
    pub texture: TextureId,
    pub verts: Vec<PolyVertex>,
}

/// What a [`Polygon`] holds.
pub struct SpecPolygon {
    pub normal: Vec3d,
    pub texture: TextureId,
    pub verts: Seq<PolyVertex>,
}

impl DeepView for Polygon {
    type V = SpecPolygon;

    open spec fn deep_view(&self) -> SpecPolygon {
        SpecPolygon { normal: self.normal, texture: self.texture, verts: self.verts@ }
    }
}

/// A node of the tree.
#[derive(PartialEq, Eq, Debug)]
pub enum BspNode {
    Split { bbox: BoundingBox, front: Box<BspNode>, back: Box<BspNode> },
    Leaf { bbox: BoundingBox, poly: Polygon },
    Empty,
}

/// What a [`BspNode`] holds.
pub enum SpecBspNode {
    Split { bbox: BoundingBox, front: Box<SpecBspNode>, back: Box<SpecBspNode> },
    Leaf { bbox: BoundingBox, poly: SpecPolygon },
    Empty,
}

/// What a node holds, with all below it.
pub open spec fn node_view(n: BspNode) -> SpecBspNode
    decreases n,
{
    match n {
        BspNode::Split { bbox, front, back } => SpecBspNode::Split {
            bbox,
            front: Box::new(node_view(*front)),
            back: Box::new(node_view(*back)),
        },
        BspNode::Leaf { bbox, poly } => SpecBspNode::Leaf { bbox, poly: poly.deep_view() },
        BspNode::Empty => SpecBspNode::Empty,
    }
}

impl DeepView for BspNode {
    type V = SpecBspNode;

    open spec fn deep_view(&self) -> SpecBspNode {
        node_view(*self)
    }
}

/// The tree of a subobject with the two pools its polygons index.
#[derive(PartialEq, Eq, Debug)]
pub struct BspData {
    pub verts: Vec<Vec3d>,
    pub norms: Vec<Vec3d>,
    pub collision_tree: BspNode,
}

/// What a [`BspData`] holds.
pub struct SpecBspData {
    pub verts: Seq<Vec3d>,
    pub norms: Seq<Vec3d>,
    pub collision_tree: SpecBspNode,
}

impl DeepView for BspData {
    type V = SpecBspData;

    open spec fn deep_view(&self) -> SpecBspData {
        SpecBspData {
            verts: self.verts@,
            norms: self.norms@,
            collision_tree: self.collision_tree.deep_view(),
        }
    }
}

impl SpecPolygon {
    /// Whether every corner names a vertex of the pool.
    pub open spec fn in_range(self, verts: Seq<Vec3d>) -> bool {
        forall|i: int| 0 <= i < self.verts.len() ==> (#[trigger] self.verts[i]).vertex_id.0 < verts.len()
    }

    /// The positions of the corners.
    pub open spec fn corners(self, verts: Seq<Vec3d>) -> Seq<Vec3d> {
        Seq::new(self.verts.len(), |i: int| verts[self.verts[i].vertex_id.0 as int])
    }

    /// The tight box of the corners.
    pub open spec fn tight_bbox(self, verts: Seq<Vec3d>) -> BoundingBox {
        tight_box(self.corners(verts))
    }

    /// A point of the polygon's plane: its first corner, or the origin if
    /// it has none.
    pub open spec fn plane_point(self, verts: Seq<Vec3d>) -> Vec3d {
        if self.verts.len() > 0 {
            verts[self.verts[0].vertex_id.0 as int]
        } else {
            Vec3d::spec_zero()
        }
    }
}

impl SpecBspNode {
    /// The box of a node; an empty node has none.
    pub open spec fn bbox(self) -> Option<BoundingBox> {
        match self {
            SpecBspNode::Split { bbox, .. } => Some(bbox),
            SpecBspNode::Leaf { bbox, .. } => Some(bbox),
            SpecBspNode::Empty => None,
        }
    }

    /// The number of leaves.
    pub open spec fn leaf_count(self) -> nat
        decreases self,
    {
        match self {
            SpecBspNode::Split { front, back, .. } => front.leaf_count() + back.leaf_count(),
            SpecBspNode::Leaf { .. } => 1,
            SpecBspNode::Empty => 0,
        }
    }

    /// The polygons of the leaves, front to back.
    pub open spec fn polygons(self) -> Seq<SpecPolygon>
        decreases self,
    {
        match self {
            SpecBspNode::Split { front, back, .. } => front.polygons() + back.polygons(),
            SpecBspNode::Leaf { poly, .. } => seq![poly],
            SpecBspNode::Empty => Seq::empty(),
        }
    }

    /// Whether every polygon of the tree names only vertices of the pool.
    pub open spec fn in_range(self, verts: Seq<Vec3d>) -> bool
        decreases self,
    {
        match self {
            SpecBspNode::Split { front, back, .. } => front.in_range(verts) && back.in_range(verts),
            SpecBspNode::Leaf { poly, .. } => poly.in_range(verts),
            SpecBspNode::Empty => true,
        }
    }

    /// Whether the box of every split holds the boxes of its children.
    pub open spec fn boxes_nested(self) -> bool
        decreases self,
    {
        match self {
            SpecBspNode::Split { bbox, front, back } => {
                &&& front.boxes_nested()
                &&& back.boxes_nested()
                &&& front.bbox() matches Some(b) ==> bbox.contains(b)
                &&& back.bbox() matches Some(b) ==> bbox.contains(b)
            },
            _ => true,
        }
    }
}

/// The box of a split over two children: the union of the boxes that
/// there are, and the box at the origin if there is none.
pub open spec fn spec_join_boxes(a: Option<BoundingBox>, b: Option<BoundingBox>) -> BoundingBox {
    match (a, b) {
        (Some(x), Some(y)) => x.spec_union(y),
        (Some(x), None) => x,
        (None, Some(y)) => y,
        (None, None) => BoundingBox::spec_zero(),
    }
}

impl BspNode {
    /// The box of the node; an empty node has none.
    pub fn bbox(&self) -> (r: Option<BoundingBox>)
        ensures
            r == self.deep_view().bbox(),
    {
        match self {
            BspNode::Split { bbox, .. } => Some(*bbox),
            BspNode::Leaf { bbox, .. } => Some(*bbox),
            BspNode::Empty => None,
        }
    }

    /// Whether the node is the empty one.
    pub fn is_empty(&self) -> (r: bool)
        ensures
            r == (self.deep_view() is Empty),
    {
        match self {
            BspNode::Empty => true,
            _ => false,
        }
    }
}

/// The box of a split over two children.
#[verifier::when_used_as_spec(spec_join_boxes)]
pub fn join_boxes(a: Option<BoundingBox>, b: Option<BoundingBox>) -> (r: BoundingBox)
    ensures
        r == spec_join_boxes(a, b),
{
    match (a, b) {
        (Some(x), Some(y)) => x.union(y),
        (Some(x), None) => x,
        (None, Some(y)) => y,
        (None, None) => BoundingBox::zero(),
    }
}

} // verus!
