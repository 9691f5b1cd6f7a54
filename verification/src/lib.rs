//! Decoder for the OM3 binary mesh container.
//!
//! A stream holds a header, an optional face section, a region of unknown
//! layout, a point section, zero padding and a footer. [`parse_om3`] reads
//! them in that order and returns the document with the bytes that follow the
//! footer. Input that ends too early is reported as incomplete, apart from
//! input that is malformed, so that a caller who receives a stream in pieces
//! can wait for more.
//!
//! What each step makes of its input is defined in [`layout`], on sequences of
//! bytes, and the steps in [`decode`] are proved to compute exactly that. The
//! bytes are read by three parsers of `nom`, which [`wire`] wraps. [`laws`]
//! states what follows for whole streams, with [`stream`] for the streams
//! that the format describes, and [`cuts`] and [`reads`] for the single steps.

pub mod error;
pub mod mesh;
pub mod layout;
pub mod stream;
pub mod wire;
pub mod facts;
pub mod decode;
pub mod cuts;
pub mod reads;
pub mod laws;

pub use decode::{
    parse_end, parse_face, parse_face_polygon, parse_header, parse_om3, parse_point_cloud,
};
pub use error::ParseError;
pub use mesh::{Face, FacePolygon, Header, Om3Out, PointCloud};
