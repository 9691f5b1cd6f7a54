//! The decoding steps, in the order in which a stream is read.
//!
//! Every step takes the bytes at the cursor and returns the bytes it leaves
//! together with what it read. None of them looks behind the cursor.

use crate::error::ParseError;
use crate::facts::{lemma_run_length_split, lemma_word_at_skip, lemma_words_skip};
use crate::layout::{
    face_polygon_outcome, faces_of, faces_outcome, header_outcome, is_version, om3_outcome,
    optional_face_polygon_outcome, optional_view, outcome_view, point_cloud_outcome, rest_only,
    rest_view, scan_outcome, tag_outcome, u32s_outcome, word_at, words, FACE_TAG, FOOTER, MAGIC,
    PADDING, POINT_TAG, POINT_TAG_START, VERSION_0B, VERSION_0C,
};
use crate::mesh::{uniform_faces, Face, FacePolygon, Header, Om3Out, PointCloud};
use crate::wire;
use vstd::prelude::*;

verus! {

/// Reads the magic and the version byte.
pub fn parse_header(input: &[u8]) -> (r: Result<(&[u8], Header), ParseError>)
    ensures
        rest_only(r) == header_outcome(input@),
        r is Ok <==> input@.len() >= 11 && input@.take(10) == MAGIC@ && is_version(input@[10]),
        r matches Ok((rest, _)) ==> rest@ == input@.skip(11),
{
    let rest = wire::tag(MAGIC.as_slice(), input)?;
    let first: [u8; 1] = [VERSION_0B];
    let second: [u8; 1] = [VERSION_0C];
    assert(input@.take(10) =~= MAGIC@);
    assert(rest@.len() > 0 ==> rest@[0] == input@[10]);
    assert(rest@.len() > 0 ==> rest@.skip(1) =~= input@.skip(11));
    match wire::tag(first.as_slice(), rest) {
        Ok(rest) => Ok((rest, Header {  })),
        Err(ParseError::TagMismatch) => {
            let rest = wire::tag(second.as_slice(), rest)?;
            Ok((rest, Header {  }))
        },
        Err(e) => Err(e),
    }
}

/// Matches the closing magic and returns the bytes behind it.
pub fn parse_end(input: &[u8]) -> (r: Result<(&[u8], ()), ParseError>)
    ensures
        rest_only(r) == tag_outcome(FOOTER@, input@),
{
    let rest = wire::tag(FOOTER.as_slice(), input)?;
    Ok((rest, ()))
}

/// Reads `n` big-endian words.
pub fn parse_words(input: &[u8], n: u32) -> (r: Result<(&[u8], Vec<u32>), ParseError>)
    ensures
        outcome_view(r) == u32s_outcome(input@, n as nat),
{
    let mut out: Vec<u32> = Vec::new();
    let mut rest = input;
    let mut i: u32 = 0;
    while i < n
        invariant
            i <= n,
            4 * i <= input@.len(),
            rest@ == input@.skip(4 * i),
            out@ == words(input@, 0, i as nat),
        decreases n - i,
    {
        match wire::be_u32(rest) {
            Err(e) => {
                return Err(e);
            },
            Ok((behind, value)) => {
                proof {
                    lemma_word_at_skip(input@, i as int, 0);
                    assert(behind@ =~= input@.skip(4 * (i + 1)));
                    assert(out@.push(value) =~= words(input@, 0, (i + 1) as nat));
                }
                out.push(value);
                rest = behind;
            },
        }
        i = i + 1;
    }
    Ok((rest, out))
}

/// Reads one face of `n_indices` indices.
pub fn parse_face(input: &[u8], n_indices: u32) -> (r: Result<(&[u8], Face), ParseError>)
    ensures
        outcome_view(r) == u32s_outcome(input@, n_indices as nat),
{
    let (rest, indices) = parse_words(input, n_indices)?;
    Ok((rest, Face { indices }))
}

/// Reads the face section: the tag, the face count, the total index count and
/// the faces.
///
/// Each face gets the total divided by the face count, rounded down, as its
/// number of indices. A total that is no multiple of the face count so leaves
/// its last indices unread, and a total below the face count gives as many
/// empty faces as the face count says. Whether such sections should be
/// refused instead is open: nothing is known of streams that hold them.
///
/// A face count of zero is refused with `InvalidCount`, once both counts have
/// been read.
pub fn parse_face_polygon(input: &[u8]) -> (r: Result<(&[u8], FacePolygon), ParseError>)
    ensures
        outcome_view(r) == face_polygon_outcome(input@),
        r matches Ok((_, polygon)) ==> uniform_faces(polygon@),
        (r matches Err(ParseError::InvalidCount)) <==> FACE_TAG@.is_prefix_of(input@)
            && input@.len() >= 20 && word_at(input@.skip(12), 0) == 0,
{
    let counts = wire::tag(FACE_TAG.as_slice(), input)?;
    let (after_count, n_faces) = wire::be_u32(counts)?;
    let (body, n_indices) = wire::be_u32(after_count)?;
    proof {
        lemma_word_at_skip(counts@, 1, 0);
        assert(body@ =~= counts@.skip(8));
    }
    if n_faces == 0 {
        return Err(ParseError::InvalidCount);
    }
    let width = n_indices / n_faces;
    let mut faces: Vec<Face> = Vec::new();
    let mut rest = body;
    let mut f: u32 = 0;
    let ghost mut read: int = 0;
    while f < n_faces
        invariant
            n_faces != 0,
            face_polygon_outcome(input@) == faces_outcome(body@, n_faces as nat, width as nat),
            f <= n_faces,
            read == f * width,
            4 * read <= body@.len(),
            rest@ == body@.skip(4 * read),
            faces@.len() == f,
            forall|j: int| 0 <= j < f ==> (#[trigger] faces@[j])@ == words(body@, j * width, width as nat),
        decreases n_faces - f,
    {
        match parse_face(rest, width) {
            Err(e) => {
                proof {
                    assert((f + 1) * width <= n_faces * width) by (nonlinear_arith)
                        requires
                            f + 1 <= n_faces,
                            0 <= width,
                    ;
                    assert((f + 1) * width == f * width + width) by (nonlinear_arith);
                }
                return Err(e);
            },
            Ok((behind, face)) => {
                proof {
                    assert((f + 1) * width == f * width + width) by (nonlinear_arith);
                    lemma_words_skip(body@, read, 0, width as nat);
                    assert(behind@ =~= body@.skip(4 * (read + width)));
                    read = read + width;
                }
                faces.push(face);
                rest = behind;
            },
        }
        f = f + 1;
    }
    let polygon = FacePolygon { faces };
    proof {
        assert(polygon@ =~= faces_of(body@, n_faces as nat, width as nat));
    }
    Ok((rest, polygon))
}

/// Reads the face section where a stream may have none: a tag that does not
/// match is no failure here. The input is then left as it is.
pub fn parse_optional_face_polygon(input: &[u8]) -> (r: Result<
    (&[u8], Option<FacePolygon>),
    ParseError,
>)
    ensures
        optional_view(r) == optional_face_polygon_outcome(input@),
        r matches Ok((_, Some(polygon))) ==> uniform_faces(polygon@),
{
    match parse_face_polygon(input) {
        Ok((rest, polygon)) => Ok((rest, Some(polygon))),
        Err(ParseError::TagMismatch) => Ok((input, None)),
        Err(e) => Err(e),
    }
}

/// Reads the point section: the tag, the vertex count, then all `x`, all `y`
/// and all `z` coordinates.
pub fn parse_point_cloud(input: &[u8]) -> (r: Result<(&[u8], PointCloud), ParseError>)
    ensures
        outcome_view(r) == point_cloud_outcome(input@),
        r matches Ok((_, cloud)) ==> cloud@.well_formed(),
{
    let section = wire::tag(POINT_TAG.as_slice(), input)?;
    let (coords, n_vertices) = wire::be_u32(section)?;
    let (after_x, x) = parse_words(coords, n_vertices)?;
    let (after_y, y) = parse_words(after_x, n_vertices)?;
    let (after_z, z) = parse_words(after_y, n_vertices)?;
    proof {
        let n = n_vertices as int;
        lemma_words_skip(coords@, n, 0, n as nat);
        assert(after_y@ =~= coords@.skip(8 * n));
        lemma_words_skip(coords@, 2 * n, 0, n as nat);
        assert(after_z@ =~= coords@.skip(12 * n));
    }
    Ok((after_z, PointCloud { x, y, z }))
}

/// Passes over the bytes in front of the first one on which the scan halts:
/// the byte `mark` where `on_mark` is set, any other byte where it is not.
/// That byte stays in the input, also where it only looks like the beginning
/// of what follows. Input that ends before such a byte is incomplete.
pub fn scan(input: &[u8], mark: u8, on_mark: bool) -> (r: Result<&[u8], ParseError>)
    ensures
        rest_view(r) == scan_outcome(input@, mark, on_mark),
{
    match wire::take_till(input, mark, on_mark) {
        Ok((rest, passed)) => {
            proof {
                lemma_run_length_split(passed@, rest@, mark, on_mark);
                assert(input@.skip(passed@.len() as int) =~= rest@);
            }
            Ok(rest)
        },
        Err(e) => {
            proof {
                lemma_run_length_split(input@, Seq::empty(), mark, on_mark);
                assert(input@ + Seq::<u8>::empty() =~= input@);
            }
            Err(e)
        },
    }
}

/// Decodes a whole stream and returns the document with the bytes behind the
/// footer.
///
/// The steps run in a fixed order: header, face section if its tag follows the
/// header, the unknown region up to the first `p`, point section, padding,
/// footer. The first step that fails ends the decoding with its failure.
pub fn parse_om3(input: &[u8]) -> (r: Result<(&[u8], Om3Out), ParseError>)
    ensures
        outcome_view(r) == om3_outcome(input@),
        r matches Ok((_, document)) ==> document@.well_formed(),
{
    let (input, _) = parse_header(input)?;
    let (input, face_polygon) = parse_optional_face_polygon(input)?;
    let input = scan(input, POINT_TAG_START, true)?;
    let (input, point_cloud) = parse_point_cloud(input)?;
    let input = scan(input, PADDING, false)?;
    let (input, _) = parse_end(input)?;
    Ok((input, Om3Out { vertices: point_cloud, faces: face_polygon }))
}

} // verus!
