//! The byte layout of an OM3 stream, as functions on sequences of bytes.
//!
//! Every step of the decoder is described here by what it makes of the bytes
//! at the cursor: the bytes it leaves and the value it read, or the failure.
//! All integers in the stream are big-endian.

use crate::error::ParseError;
use crate::mesh::{Om3View, PointCloudView};
use vstd::prelude::*;

verus! {

/// The signature and sub-version marker that open a stream.
pub const MAGIC: [u8; 10] = [0x48, 0x4F, 0x4D, 0x33, 0x44, 0x46, 0x0A, 0x00, 0x01, 0x00];

/// The first of the two accepted version bytes.
pub const VERSION_0B: u8 = 0x0B;

/// The second of the two accepted version bytes.
pub const VERSION_0C: u8 = 0x0C;

/// `face_polygon` in ASCII, the tag of the face section.
pub const FACE_TAG: [u8; 12] = [
    0x66, 0x61, 0x63, 0x65, 0x5F, 0x70, 0x6F, 0x6C, 0x79, 0x67, 0x6F, 0x6E,
];

/// `point_coord` in ASCII, the tag of the point section.
pub const POINT_TAG: [u8; 11] = [0x70, 0x6F, 0x69, 0x6E, 0x74, 0x5F, 0x63, 0x6F, 0x6F, 0x72, 0x64];

/// The byte `p`, on which the scan over the unknown region halts.
pub const POINT_TAG_START: u8 = 0x70;

/// The byte that fills the space between the point section and the footer.
pub const PADDING: u8 = 0x00;

/// The magic that closes a stream.
pub const FOOTER: [u8; 7] = [0x46, 0x44, 0x33, 0x4D, 0x4F, 0x48, 0x2E];

/// What a step makes of its input: the bytes it leaves and the value it read,
/// or the failure.
pub type Outcome<V> = Result<(Seq<u8>, V), ParseError>;

/// What an executable step reports, the slice it leaves taken as a sequence.
pub open spec fn rest_view(r: Result<&[u8], ParseError>) -> Result<Seq<u8>, ParseError> {
    match r {
        Ok(rest) => Ok(rest@),
        Err(e) => Err(e),
    }
}

/// What an executable step reports, the slice it leaves taken as a sequence
/// and the value it read dropped.
pub open spec fn rest_only<T>(r: Result<(&[u8], T), ParseError>) -> Result<Seq<u8>, ParseError> {
    match r {
        Ok((rest, _)) => Ok(rest@),
        Err(e) => Err(e),
    }
}

/// What an executable step reports, the slice it leaves and the value it read
/// taken by their views.
pub open spec fn outcome_view<T: View>(r: Result<(&[u8], T), ParseError>) -> Outcome<T::V> {
    match r {
        Ok((rest, value)) => Ok((rest@, value@)),
        Err(e) => Err(e),
    }
}

/// What an executable step with an optional value reports, the slice it
/// leaves and the value, where there is one, taken by their views.
pub open spec fn optional_view<T: View>(r: Result<(&[u8], Option<T>), ParseError>) -> Outcome<
    Option<T::V>,
> {
    match r {
        Ok((rest, Some(value))) => Ok((rest@, Some(value@))),
        Ok((rest, None)) => Ok((rest@, None)),
        Err(e) => Err(e),
    }
}

/// Matching the literal `tag` at the front of `input`: the bytes behind it
/// when `input` starts with `tag`, `IncompleteInput` when `input` is a proper
/// beginning of `tag`, `TagMismatch` when some byte differs.
pub open spec fn tag_outcome(tag: Seq<u8>, input: Seq<u8>) -> Result<Seq<u8>, ParseError> {
    if tag.is_prefix_of(input) {
        Ok(input.skip(tag.len() as int))
    } else if input.is_prefix_of(tag) {
        Err(ParseError::IncompleteInput)
    } else {
        Err(ParseError::TagMismatch)
    }
}

/// The big-endian 32-bit word number `k` of `bytes`, counted from 0.
pub open spec fn word_at(bytes: Seq<u8>, k: int) -> u32
    recommends
        0 <= k,
        4 * k + 4 <= bytes.len(),
{
    (bytes[4 * k] * 0x100_0000 + bytes[4 * k + 1] * 0x1_0000 + bytes[4 * k + 2] * 0x100 + bytes[4
        * k + 3]) as u32
}

/// The four bytes that hold `v` in the stream, most significant first.
pub open spec fn word_bytes(v: u32) -> Seq<u8> {
    seq![
        (v / 0x100_0000) as u8,
        (v / 0x1_0000 % 0x100) as u8,
        (v / 0x100 % 0x100) as u8,
        (v % 0x100) as u8,
    ]
}

/// The `n` words of `bytes` from word number `from` on.
pub open spec fn words(bytes: Seq<u8>, from: int, n: nat) -> Seq<u32> {
    Seq::new(n, |i: int| word_at(bytes, from + i))
}

/// Reading one word.
pub open spec fn u32_outcome(input: Seq<u8>) -> Outcome<u32> {
    if input.len() < 4 {
        Err(ParseError::IncompleteInput)
    } else {
        Ok((input.skip(4), word_at(input, 0)))
    }
}

/// Reading `n` words in a row.
pub open spec fn u32s_outcome(input: Seq<u8>, n: nat) -> Outcome<Seq<u32>> {
    if input.len() < 4 * n {
        Err(ParseError::IncompleteInput)
    } else {
        Ok((input.skip(4 * n as int), words(input, 0, n)))
    }
}

/// Whether a scan halts before byte `b`: on the byte `mark` itself when
/// `on_mark` is set, on any other byte when it is not.
pub open spec fn scan_halts(b: u8, mark: u8, on_mark: bool) -> bool {
    (b == mark) == on_mark
}

/// The number of bytes at the front of `input` that a scan passes over.
pub open spec fn run_length(input: Seq<u8>, mark: u8, on_mark: bool) -> nat
    decreases input.len(),
{
    if input.len() == 0 || scan_halts(input[0], mark, on_mark) {
        0
    } else {
        1 + run_length(input.skip(1), mark, on_mark)
    }
}

/// Scanning forward to the first byte on which the scan halts. That byte
/// stays in the input. A scan that reaches the end of the input needs more.
pub open spec fn scan_outcome(input: Seq<u8>, mark: u8, on_mark: bool) -> Result<
    Seq<u8>,
    ParseError,
> {
    let n = run_length(input, mark, on_mark);
    if n < input.len() {
        Ok(input.skip(n as int))
    } else {
        Err(ParseError::IncompleteInput)
    }
}

/// Whether `b` is one of the two accepted version bytes.
pub open spec fn is_version(b: u8) -> bool {
    b == VERSION_0B || b == VERSION_0C
}

/// Reading the header: the magic, then one version byte.
pub open spec fn header_outcome(input: Seq<u8>) -> Result<Seq<u8>, ParseError> {
    match tag_outcome(MAGIC@, input) {
        Err(e) => Err(e),
        Ok(rest) => if rest.len() == 0 {
            Err(ParseError::IncompleteInput)
        } else if is_version(rest[0]) {
            Ok(rest.skip(1))
        } else {
            Err(ParseError::TagMismatch)
        },
    }
}

/// The index lists of `count` faces of `width` indices each, read from the
/// front of `bytes`.
pub open spec fn faces_of(bytes: Seq<u8>, count: nat, width: nat) -> Seq<Seq<u32>> {
    Seq::new(count, |f: int| words(bytes, f * width, width))
}

/// Reading `count` faces of `width` indices each.
pub open spec fn faces_outcome(input: Seq<u8>, count: nat, width: nat) -> Outcome<Seq<Seq<u32>>> {
    if input.len() < 4 * (count * width) {
        Err(ParseError::IncompleteInput)
    } else {
        Ok((input.skip(4 * (count * width) as int), faces_of(input, count, width)))
    }
}

/// Reading the face section: the tag, the face count, the total index count,
/// then the faces. Each face has as many indices as the total divided by the
/// face count gives, rounded down; a face count of zero is refused once both
/// counts have been read.
pub open spec fn face_polygon_outcome(input: Seq<u8>) -> Outcome<Seq<Seq<u32>>> {
    match tag_outcome(FACE_TAG@, input) {
        Err(e) => Err(e),
        Ok(counts) => if counts.len() < 8 {
            Err(ParseError::IncompleteInput)
        } else {
            let count = word_at(counts, 0);
            let total = word_at(counts, 1);
            if count == 0 {
                Err(ParseError::InvalidCount)
            } else {
                faces_outcome(counts.skip(8), count as nat, (total / count) as nat)
            }
        },
    }
}

/// Reading the face section where there may be none: a tag that does not match
/// leaves the input as it is and gives no faces. Every other failure stands.
pub open spec fn optional_face_polygon_outcome(input: Seq<u8>) -> Outcome<Option<Seq<Seq<u32>>>> {
    match face_polygon_outcome(input) {
        Ok((rest, faces)) => Ok((rest, Some(faces))),
        Err(ParseError::TagMismatch) => Ok((input, None)),
        Err(e) => Err(e),
    }
}

/// Reading the point section: the tag, the vertex count, then all `x`, all `y`
/// and all `z` coordinates.
pub open spec fn point_cloud_outcome(input: Seq<u8>) -> Outcome<PointCloudView> {
    match tag_outcome(POINT_TAG@, input) {
        Err(e) => Err(e),
        Ok(section) => if section.len() < 4 {
            Err(ParseError::IncompleteInput)
        } else {
            let n = word_at(section, 0) as nat;
            let coords = section.skip(4);
            if coords.len() < 12 * n {
                Err(ParseError::IncompleteInput)
            } else {
                Ok(
                    (
                        coords.skip(12 * n as int),
                        PointCloudView {
                            x: words(coords, 0, n),
                            y: words(coords, n as int, n),
                            z: words(coords, 2 * n as int, n),
                        },
                    ),
                )
            }
        },
    }
}

/// Passing over the unknown region, up to the first `p`, and reading the
/// point section that begins there.
pub open spec fn located_point_cloud_outcome(input: Seq<u8>) -> Outcome<PointCloudView> {
    match scan_outcome(input, POINT_TAG_START, true) {
        Err(e) => Err(e),
        Ok(at_points) => point_cloud_outcome(at_points),
    }
}

/// Passing over the padding and matching the footer behind it.
pub open spec fn closing_outcome(input: Seq<u8>) -> Result<Seq<u8>, ParseError> {
    match scan_outcome(input, PADDING, false) {
        Err(e) => Err(e),
        Ok(at_footer) => tag_outcome(FOOTER@, at_footer),
    }
}

/// Reading a whole stream: the header, the face section if there is one, the
/// unknown region and the point section, the padding and the footer. The
/// first failure ends the reading.
pub open spec fn om3_outcome(input: Seq<u8>) -> Outcome<Om3View> {
    match header_outcome(input) {
        Err(e) => Err(e),
        Ok(after_header) => match optional_face_polygon_outcome(after_header) {
            Err(e) => Err(e),
            Ok((after_faces, faces)) => match located_point_cloud_outcome(after_faces) {
                Err(e) => Err(e),
                Ok((after_points, vertices)) => match closing_outcome(after_points) {
                    Err(e) => Err(e),
                    Ok(rest) => Ok((rest, Om3View { vertices, faces })),
                },
            },
        },
    }
}

} // verus!
