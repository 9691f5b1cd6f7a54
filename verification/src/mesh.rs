//! The decoded document: a point cloud and, where the stream has one, its faces.

use vstd::prelude::*;

verus! {

/// Marker for a header that was read and accepted. The header carries nothing
/// into the document.
#[derive(Debug, Clone, Copy, PartialEq, Eq)]
pub struct Header {}

/// Vertex positions, one sequence per axis: element `i` of `x`, `y` and `z`
/// together is vertex `i`.
///
/// A coordinate is kept as the bit pattern of its IEEE 754 binary32 value, as
/// it stands in the stream; `f32::from_bits` turns it into the number.
#[derive(Debug, PartialEq, Eq)]
pub struct PointCloud {
    pub x: Vec<u32>,
    pub y: Vec<u32>,
    pub z: Vec<u32>,
}

/// One polygon, as indices into the point cloud of the same document.
#[derive(Debug, PartialEq, Eq)]
pub struct Face {
    pub indices: Vec<u32>,
}

/// The faces of a document, in stream order.
#[derive(Debug, PartialEq, Eq)]
pub struct FacePolygon {
    pub faces: Vec<Face>,
}

/// A decoded document.
#[derive(Debug, PartialEq, Eq)]
pub struct Om3Out {
    pub vertices: PointCloud,
    pub faces: Option<FacePolygon>,
}

/// The three coordinate sequences of a point cloud.
#[verifier::ext_equal]
pub struct PointCloudView {
    pub x: Seq<u32>,
    pub y: Seq<u32>,
    pub z: Seq<u32>,
}

/// A document as sequences: the point cloud and the index lists of the faces.
#[verifier::ext_equal]
pub struct Om3View {
    pub vertices: PointCloudView,
    pub faces: Option<Seq<Seq<u32>>>,
}

impl PointCloudView {
    /// The three axes hold the same number of coordinates.
    pub open spec fn well_formed(self) -> bool {
        self.x.len() == self.y.len() && self.y.len() == self.z.len()
    }
}

/// Every face has the same number of indices.
pub open spec fn uniform_faces(faces: Seq<Seq<u32>>) -> bool {
    forall|i: int, j: int|
        0 <= i < faces.len() && 0 <= j < faces.len() ==> (#[trigger] faces[i]).len() == (
        #[trigger] faces[j]).len()
}

impl Om3View {
    /// The point cloud is well formed and the faces, if any, are uniform.
    pub open spec fn well_formed(self) -> bool {
        &&& self.vertices.well_formed()
        &&& self.faces matches Some(faces) ==> uniform_faces(faces)
    }
}

impl View for PointCloud {
    type V = PointCloudView;

    open spec fn view(&self) -> PointCloudView {
        PointCloudView { x: self.x@, y: self.y@, z: self.z@ }
    }
}

impl View for Face {
    type V = Seq<u32>;

    open spec fn view(&self) -> Seq<u32> {
        self.indices@
    }
}

impl View for FacePolygon {
    type V = Seq<Seq<u32>>;

    open spec fn view(&self) -> Seq<Seq<u32>> {
        Seq::new(self.faces@.len(), |i: int| self.faces@[i]@)
    }
}

impl View for Om3Out {
    type V = Om3View;

    open spec fn view(&self) -> Om3View {
        Om3View {
            vertices: self.vertices@,
            faces: match self.faces {
                Some(polygon) => Some(polygon@),
                None => None,
            },
        }
    }
}

} // verus!
