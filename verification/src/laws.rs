//! What holds of decoding as a whole: which headers are accepted, that every
//! stream laid out as the format says decodes to what was laid out, and that a
//! stream cut short is reported as incomplete, never as malformed.

use crate::cuts::{
    lemma_closing_cut, lemma_header_cut, lemma_located_point_cloud_cut,
    lemma_optional_face_polygon_cut,
};
use crate::error::ParseError;
use crate::facts::lemma_word_bytes_read_back;
use crate::layout::{
    closing_outcome, face_polygon_outcome, header_outcome, is_version,
    located_point_cloud_outcome, om3_outcome, optional_face_polygon_outcome, point_cloud_outcome,
    word_at, word_bytes, FACE_TAG, FOOTER, MAGIC,
};
use crate::mesh::uniform_faces;
use crate::reads::{
    lemma_closing_reads, lemma_header_reads, lemma_steps_make_stream, lemma_stream_bytes_split,
    lemma_stream_faces_read, lemma_stream_points_read, lemma_tag_reads,
};
use crate::stream::{padding_bytes, StreamParts};
use vstd::prelude::*;

verus! {

/// A header is accepted exactly when the input begins with the magic and one
/// of the two version bytes; the 11 bytes are then consumed. Input of 11 bytes
/// or more that begins otherwise is a tag mismatch, and so is shorter input
/// that already differs from the magic.
pub proof fn lemma_header_acceptance(input: Seq<u8>)
    ensures
        header_outcome(input) is Ok <==> input.len() >= 11 && input.take(10) == MAGIC@
            && is_version(input[10]),
        header_outcome(input) matches Ok(rest) ==> rest == input.skip(11),
        (header_outcome(input) matches Err(ParseError::TagMismatch)) <==> !MAGIC@.is_prefix_of(
            input,
        ) && !input.is_prefix_of(MAGIC@) || MAGIC@.is_prefix_of(input) && input.len() >= 11
            && !is_version(input[10]),
        (header_outcome(input) matches Err(ParseError::IncompleteInput)) <==> input.len() < 11
            && input.is_prefix_of(MAGIC@),
        !(header_outcome(input) matches Err(ParseError::InvalidCount)),
{
    if MAGIC@.is_prefix_of(input) {
        let rest = input.skip(10);
        assert(input.take(10) =~= MAGIC@);
        if rest.len() > 0 {
            assert(rest[0] == input[10]);
            assert(rest.skip(1) =~= input.skip(11));
        } else {
            assert(input =~= MAGIC@);
        }
    } else if input.len() >= 10 {
        assert(!(input.take(10) =~= MAGIC@));
    }
}

/// Every stream laid out as the format says decodes to the document it was
/// laid out from, and what is left is what follows the footer: nothing, where
/// nothing follows it. Each axis of the point cloud then has as many
/// coordinates as the vertex count says, and the faces, where the stream has
/// a face section, are as many as the face count says, each with the total
/// divided by the face count as its number of indices.
pub proof fn lemma_laid_out_stream_decodes(parts: StreamParts, trailing: Seq<u8>)
    requires
        parts.valid(),
    ensures
        om3_outcome(parts.bytes() + trailing) matches Ok(read) && read == (
            trailing,
            parts.document(),
        ),
        parts.document().well_formed(),
        parts.document().vertices.x.len() == parts.vertex_count,
        parts.document().vertices.y.len() == parts.vertex_count,
        parts.document().vertices.z.len() == parts.vertex_count,
        parts.faces is None ==> parts.document().faces is None,
        parts.faces matches Some(section) ==> (parts.document().faces matches Some(faces)
            && faces.len() == section.count && forall|f: int|
            0 <= f < faces.len() ==> (#[trigger] faces[f]).len() == section.total / section.count),
{
    let closing = padding_bytes(parts.padding) + (FOOTER@ + trailing);
    let after_faces = parts.region + (parts.point_bytes() + closing);
    let after_header = parts.face_bytes() + after_faces;
    lemma_stream_bytes_split(parts, trailing);
    lemma_header_reads(parts.version, after_header);
    lemma_stream_faces_read(parts, closing);
    lemma_stream_points_read(parts, closing);
    lemma_closing_reads(parts.padding, trailing);
    lemma_steps_make_stream(
        parts.bytes() + trailing,
        after_header,
        after_faces,
        closing,
        trailing,
        parts.document(),
    );
}

/// A stream cut short is incomplete: where decoding the whole input succeeds,
/// decoding any beginning of it that ends before the last byte of the footer
/// fails with `IncompleteInput`, at whichever step the cut falls.
pub proof fn lemma_cut_stream_is_incomplete(input: Seq<u8>, k: int)
    requires
        om3_outcome(input) is Ok,
        0 <= k < input.len() - om3_outcome(input)->Ok_0.0.len(),
    ensures
        om3_outcome(input.take(k)) matches Err(ParseError::IncompleteInput),
{
    let short = input.take(k);
    let after_header = header_outcome(input)->Ok_0;
    lemma_header_cut(input, k);
    if header_outcome(short) is Ok {
        let k1 = k - 11;
        assert(header_outcome(short)->Ok_0 == after_header.take(k1));
        let (after_faces, faces) = optional_face_polygon_outcome(after_header)->Ok_0;
        lemma_optional_face_polygon_cut(after_header, k1);
        if optional_face_polygon_outcome(after_header.take(k1)) is Ok {
            let k2 = k1 - (after_header.len() - after_faces.len());
            assert(optional_face_polygon_outcome(after_header.take(k1))->Ok_0.0
                == after_faces.take(k2));
            let (after_points, vertices) = located_point_cloud_outcome(after_faces)->Ok_0;
            lemma_located_point_cloud_cut(after_faces, k2);
            if located_point_cloud_outcome(after_faces.take(k2)) is Ok {
                let k3 = k2 - (after_faces.len() - after_points.len());
                assert(located_point_cloud_outcome(after_faces.take(k2))->Ok_0.0
                    == after_points.take(k3));
                lemma_closing_cut(after_points, k3);
                assert(closing_outcome(after_points.take(k3)) matches Err(
                    ParseError::IncompleteInput,
                ));
            }
        }
    }
}

/// A stream laid out as the format says and cut short anywhere is incomplete.
pub proof fn lemma_cut_laid_out_stream_is_incomplete(parts: StreamParts, k: int)
    requires
        parts.valid(),
        0 <= k < parts.bytes().len(),
    ensures
        om3_outcome(parts.bytes().take(k)) matches Err(ParseError::IncompleteInput),
{
    assert(parts.bytes() + Seq::<u8>::empty() =~= parts.bytes());
    lemma_laid_out_stream_decodes(parts, Seq::empty());
    lemma_cut_stream_is_incomplete(parts.bytes(), k);
}

/// A face count of zero is refused: a face section whose face count is zero
/// is an invalid count, whatever follows the two counts, and so is a stream
/// whose header is followed by such a section.
pub proof fn lemma_zero_face_count_is_refused(version: u8, total: u32, rest: Seq<u8>)
    requires
        is_version(version),
    ensures
        face_polygon_outcome(FACE_TAG@ + (word_bytes(0) + (word_bytes(total) + rest)))
            matches Err(ParseError::InvalidCount),
        om3_outcome(MAGIC@.push(version) + (FACE_TAG@ + (word_bytes(0) + (word_bytes(total)
            + rest)))) matches Err(ParseError::InvalidCount),
{
    let counts = word_bytes(0) + (word_bytes(total) + rest);
    lemma_tag_reads(FACE_TAG@, counts);
    lemma_word_bytes_read_back(0, word_bytes(total) + rest);
    lemma_word_bytes_read_back(total, rest);
    lemma_header_reads(version, FACE_TAG@ + counts);
}

/// A face section that is read holds as many faces as its face count says,
/// each with the total divided by the face count, rounded down, as its number
/// of indices. It uses the 12 bytes of the tag, the 8 bytes of the counts and
/// 4 bytes for every index read: for all indices of the total, where the face
/// count divides the total.
pub proof fn lemma_face_polygon_extent(input: Seq<u8>)
    requires
        face_polygon_outcome(input) is Ok,
    ensures
        ({
            let (rest, faces) = face_polygon_outcome(input)->Ok_0;
            let count = word_at(input.skip(12), 0);
            let total = word_at(input.skip(12), 1);
            &&& count > 0
            &&& faces.len() == count
            &&& forall|f: int| 0 <= f < faces.len() ==> (#[trigger] faces[f]).len() == total / count
            &&& uniform_faces(faces)
            &&& input.len() >= 20 + 4 * (count * (total / count))
            &&& rest == input.skip(20 + 4 * (count * (total / count)))
            &&& total % count == 0 ==> rest == input.skip(20 + 4 * total)
        }),
{
    let counts = input.skip(12);
    let count = word_at(counts, 0);
    let total = word_at(counts, 1);
    let size = 4 * (count * (total / count));
    assert(counts.skip(8).skip(size) =~= input.skip(20 + size));
    assert(total % count == 0 ==> count * (total / count) == total) by (nonlinear_arith)
        requires
            count > 0,
    ;
}

/// A point section that is read holds as many coordinates on each axis as its
/// vertex count says. It uses the 11 bytes of the tag, the 4 bytes of the
/// count and 12 bytes for every vertex.
pub proof fn lemma_point_cloud_extent(input: Seq<u8>)
    requires
        point_cloud_outcome(input) is Ok,
    ensures
        ({
            let (rest, cloud) = point_cloud_outcome(input)->Ok_0;
            let n = word_at(input.skip(11), 0);
            &&& cloud.x.len() == n
            &&& cloud.y.len() == n
            &&& cloud.z.len() == n
            &&& input.len() >= 15 + 12 * n
            &&& rest == input.skip(15 + 12 * n)
        }),
{
    let n = word_at(input.skip(11), 0);
    assert(input.skip(11).skip(4).skip(12 * n) =~= input.skip(15 + 12 * n));
}

} // verus!
