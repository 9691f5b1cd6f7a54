//! A stream written out from its parts, as the format lays them out.
//!
//! Nothing here is executable: these functions say which byte sequences are
//! well-formed streams, so that the laws can speak of all of them.

use crate::layout::{
    faces_of, is_version, word_bytes, words, FACE_TAG, FOOTER, MAGIC, PADDING, POINT_TAG,
    POINT_TAG_START,
};
use crate::mesh::{Om3View, PointCloudView};
use vstd::prelude::*;

verus! {

/// The payload of a face section.
pub struct FaceSection {
    /// The face count.
    pub count: u32,
    /// The total index count.
    pub total: u32,
    /// The index data behind the two counts.
    pub indices: Seq<u8>,
}

/// The parts that a stream is laid out from.
pub struct StreamParts {
    /// The version byte behind the magic.
    pub version: u8,
    /// The face section, where the stream has one.
    pub faces: Option<FaceSection>,
    /// The region of unknown layout in front of the point section.
    pub region: Seq<u8>,
    /// The vertex count.
    pub vertex_count: u32,
    /// The coordinate data behind the vertex count.
    pub coords: Seq<u8>,
    /// The number of padding bytes in front of the footer.
    pub padding: nat,
}

impl FaceSection {
    /// The number of indices of each face.
    pub open spec fn width(self) -> nat {
        (self.total / self.count) as nat
    }

    /// There is at least one face, and the index data holds the indices of
    /// all faces. Where the face count divides the total, that is the total
    /// number of indices.
    pub open spec fn valid(self) -> bool {
        &&& self.count >= 1
        &&& self.indices.len() == 4 * (self.count * self.width())
    }

    /// The section as bytes.
    pub open spec fn bytes(self) -> Seq<u8> {
        FACE_TAG@ + word_bytes(self.count) + word_bytes(self.total) + self.indices
    }

    /// The faces that the section holds.
    pub open spec fn faces(self) -> Seq<Seq<u32>> {
        faces_of(self.indices, self.count as nat, self.width())
    }
}

/// `n` padding bytes.
pub open spec fn padding_bytes(n: nat) -> Seq<u8> {
    Seq::new(n, |i: int| PADDING)
}

impl StreamParts {
    /// The version is one of the two accepted, the face section, where there
    /// is one, is valid, the unknown region holds no `p`, and the coordinate
    /// data holds three coordinates for each vertex.
    pub open spec fn valid(self) -> bool {
        &&& is_version(self.version)
        &&& self.faces matches Some(section) ==> section.valid()
        &&& forall|i: int| 0 <= i < self.region.len() ==> #[trigger] self.region[i] != POINT_TAG_START
        &&& self.coords.len() == 12 * self.vertex_count
    }

    /// The face section as bytes; none where the stream has no faces.
    pub open spec fn face_bytes(self) -> Seq<u8> {
        match self.faces {
            Some(section) => section.bytes(),
            None => Seq::empty(),
        }
    }

    /// The point section as bytes.
    pub open spec fn point_bytes(self) -> Seq<u8> {
        POINT_TAG@ + word_bytes(self.vertex_count) + self.coords
    }

    /// The whole stream as bytes.
    pub open spec fn bytes(self) -> Seq<u8> {
        MAGIC@.push(self.version) + self.face_bytes() + self.region + self.point_bytes()
            + padding_bytes(self.padding) + FOOTER@
    }

    /// The point cloud that the stream holds.
    pub open spec fn vertices(self) -> PointCloudView {
        let n = self.vertex_count as nat;
        PointCloudView {
            x: words(self.coords, 0, n),
            y: words(self.coords, n as int, n),
            z: words(self.coords, 2 * n as int, n),
        }
    }

    /// The document that the stream holds.
    pub open spec fn document(self) -> Om3View {
        Om3View {
            vertices: self.vertices(),
            faces: match self.faces {
                Some(section) => Some(section.faces()),
                None => None,
            },
        }
    }
}

} // verus!
