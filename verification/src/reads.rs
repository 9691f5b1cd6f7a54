//! What each step makes of the part of a stream that was laid out for it.

use crate::error::ParseError;
use crate::facts::{
    lemma_faces_of_take, lemma_run_length_split, lemma_word_at_skip, lemma_word_bytes_read_back,
    lemma_words_take,
};
use crate::laws::lemma_header_acceptance;
use crate::layout::{
    closing_outcome, face_polygon_outcome, header_outcome, is_version,
    located_point_cloud_outcome, om3_outcome, optional_face_polygon_outcome, point_cloud_outcome,
    scan_outcome, tag_outcome, word_bytes, FACE_TAG, FOOTER, MAGIC, PADDING, POINT_TAG,
    POINT_TAG_START,
};
use crate::mesh::Om3View;
use crate::stream::{padding_bytes, FaceSection, StreamParts};
use vstd::prelude::*;

verus! {

/// A tag in front of any bytes is matched and leaves those bytes.
pub proof fn lemma_tag_reads(tag: Seq<u8>, rest: Seq<u8>)
    ensures
        tag_outcome(tag, tag + rest) matches Ok(left) && left == rest,
{
    let input = tag + rest;
    assert(input.take(tag.len() as int) =~= tag);
    assert(input.skip(tag.len() as int) =~= rest);
}

/// The magic with an accepted version byte, in front of any bytes, is read as
/// a header and leaves those bytes.
pub proof fn lemma_header_reads(version: u8, rest: Seq<u8>)
    requires
        is_version(version),
    ensures
        header_outcome(MAGIC@.push(version) + rest) matches Ok(left) && left == rest,
{
    let input = MAGIC@.push(version) + rest;
    assert(input.take(10) =~= MAGIC@);
    assert(input.skip(11) =~= rest);
    lemma_header_acceptance(input);
}

/// A valid face section in front of any bytes is read as the faces it holds
/// and leaves those bytes.
pub proof fn lemma_face_section_reads(section: FaceSection, rest: Seq<u8>)
    requires
        section.valid(),
    ensures
        face_polygon_outcome(section.bytes() + rest) matches Ok(read) && read == (
            rest,
            section.faces(),
        ),
{
    let input = section.bytes() + rest;
    let counts = word_bytes(section.count) + (word_bytes(section.total) + (section.indices
        + rest));
    let body = section.indices + rest;
    let size = section.indices.len() as int;
    assert(input =~= FACE_TAG@ + counts);
    lemma_tag_reads(FACE_TAG@, counts);
    lemma_word_bytes_read_back(section.count, word_bytes(section.total) + body);
    lemma_word_bytes_read_back(section.total, body);
    lemma_word_at_skip(counts, 1, 0);
    assert(counts.skip(8) =~= body);
    assert(body.take(size) =~= section.indices);
    assert(body.skip(size) =~= rest);
    lemma_faces_of_take(body, size, section.count as nat, section.width());
}

/// An unknown region without `p`, in front of the point tag, is not taken for
/// a face section.
pub proof fn lemma_no_face_section(region: Seq<u8>, rest: Seq<u8>)
    requires
        forall|i: int| 0 <= i < region.len() ==> #[trigger] region[i] != POINT_TAG_START,
    ensures
        face_polygon_outcome(region + (POINT_TAG@ + rest)) matches Err(ParseError::TagMismatch),
{
    let input = region + (POINT_TAG@ + rest);
    let n = region.len() as int;
    // The first place at which the input differs from the face tag: inside
    // the region where that holds the sixth byte, else inside the point tag.
    let j = if n >= 6 {
        5
    } else if n == 5 {
        7
    } else {
        n
    };
    assert(input[j] == if n >= 6 {
        region[5]
    } else {
        POINT_TAG@[j - n]
    });
    assert(input[j] != FACE_TAG@[j]);
    if FACE_TAG@.is_prefix_of(input) {
        assert(input.subrange(0, 12)[j] == input[j]);
    }
    if input.is_prefix_of(FACE_TAG@) {
        assert(FACE_TAG@.subrange(0, input.len() as int)[j] == FACE_TAG@[j]);
    }
}

/// An unknown region without `p`, in front of bytes that begin with `p`, is
/// passed over and leaves those bytes.
pub proof fn lemma_region_reads(region: Seq<u8>, rest: Seq<u8>)
    requires
        forall|i: int| 0 <= i < region.len() ==> #[trigger] region[i] != POINT_TAG_START,
        rest.len() > 0,
        rest[0] == POINT_TAG_START,
    ensures
        scan_outcome(region + rest, POINT_TAG_START, true) matches Ok(left) && left == rest,
{
    lemma_run_length_split(region, rest, POINT_TAG_START, true);
    assert((region + rest).skip(region.len() as int) =~= rest);
}

/// Padding in front of bytes that begin with another byte is passed over and
/// leaves those bytes.
pub proof fn lemma_padding_reads(padding: nat, rest: Seq<u8>)
    requires
        rest.len() > 0,
        rest[0] != PADDING,
    ensures
        scan_outcome(padding_bytes(padding) + rest, PADDING, false) matches Ok(left) && left
            == rest,
{
    lemma_run_length_split(padding_bytes(padding), rest, PADDING, false);
    assert((padding_bytes(padding) + rest).skip(padding as int) =~= rest);
}

/// A point section with three coordinates for each vertex, in front of any
/// bytes, is read as the coordinates it holds, axis by axis, and leaves those
/// bytes.
pub proof fn lemma_point_section_reads(parts: StreamParts, rest: Seq<u8>)
    requires
        parts.coords.len() == 12 * parts.vertex_count,
    ensures
        point_cloud_outcome(parts.point_bytes() + rest) matches Ok(read) && read == (
            rest,
            parts.vertices(),
        ),
{
    let input = parts.point_bytes() + rest;
    let n = parts.vertex_count as int;
    let body = parts.coords + rest;
    let section = word_bytes(parts.vertex_count) + body;
    assert(input =~= POINT_TAG@ + section);
    lemma_tag_reads(POINT_TAG@, section);
    lemma_word_bytes_read_back(parts.vertex_count, body);
    assert(body.take(12 * n) =~= parts.coords);
    assert(body.skip(12 * n) =~= rest);
    lemma_words_take(body, 12 * n, 0, n as nat);
    lemma_words_take(body, 12 * n, n, n as nat);
    lemma_words_take(body, 12 * n, 2 * n, n as nat);
}

/// The face section of a valid stream, where it has one, is read in front
/// of the unknown region and the point section, and where it has none, the
/// region is not taken for one.
pub proof fn lemma_stream_faces_read(parts: StreamParts, rest: Seq<u8>)
    requires
        parts.valid(),
    ensures
        optional_face_polygon_outcome(parts.face_bytes() + (parts.region + (parts.point_bytes()
            + rest))) matches Ok(read) && read == (
            parts.region + (parts.point_bytes() + rest),
            parts.document().faces,
        ),
{
    let after_faces = parts.region + (parts.point_bytes() + rest);
    match parts.faces {
        Some(section) => {
            lemma_face_section_reads(section, after_faces);
        },
        None => {
            let behind_tag = word_bytes(parts.vertex_count) + parts.coords + rest;
            assert(parts.face_bytes() + after_faces =~= after_faces);
            assert(parts.point_bytes() + rest =~= POINT_TAG@ + behind_tag);
            lemma_no_face_section(parts.region, behind_tag);
        },
    }
}

/// The unknown region of a valid stream is passed over and its point section
/// read.
pub proof fn lemma_stream_points_read(parts: StreamParts, rest: Seq<u8>)
    requires
        parts.valid(),
    ensures
        located_point_cloud_outcome(parts.region + (parts.point_bytes() + rest)) matches Ok(read)
            && read == (rest, parts.vertices()),
{
    let at_points = parts.point_bytes() + rest;
    assert(at_points[0] == POINT_TAG@[0]);
    lemma_region_reads(parts.region, at_points);
    lemma_point_section_reads(parts, rest);
}

/// Padding and footer are read and leave what follows the footer.
pub proof fn lemma_closing_reads(padding: nat, trailing: Seq<u8>)
    ensures
        closing_outcome(padding_bytes(padding) + (FOOTER@ + trailing)) matches Ok(left) && left
            == trailing,
{
    assert((FOOTER@ + trailing)[0] == FOOTER@[0]);
    lemma_padding_reads(padding, FOOTER@ + trailing);
    lemma_tag_reads(FOOTER@, trailing);
}

/// A stream splits into its header and what follows it, part by part.
pub proof fn lemma_stream_bytes_split(parts: StreamParts, trailing: Seq<u8>)
    ensures
        parts.bytes() + trailing == MAGIC@.push(parts.version) + (parts.face_bytes() + (
            parts.region + (parts.point_bytes() + (padding_bytes(parts.padding) + (FOOTER@
                + trailing)))
        )),
{
    let closing = padding_bytes(parts.padding) + (FOOTER@ + trailing);
    let after_faces = parts.region + (parts.point_bytes() + closing);
    assert(parts.bytes() + trailing =~= MAGIC@.push(parts.version) + (parts.face_bytes()
        + after_faces));
}

/// Steps that succeed one behind the other make up the decoding of a stream.
pub proof fn lemma_steps_make_stream(
    input: Seq<u8>,
    after_header: Seq<u8>,
    after_faces: Seq<u8>,
    after_points: Seq<u8>,
    rest: Seq<u8>,
    document: Om3View,
)
    requires
        header_outcome(input) matches Ok(left) && left == after_header,
        optional_face_polygon_outcome(after_header) matches Ok(read) && read == (
            after_faces,
            document.faces,
        ),
        located_point_cloud_outcome(after_faces) matches Ok(read) && read == (
            after_points,
            document.vertices,
        ),
        closing_outcome(after_points) matches Ok(left) && left == rest,
    ensures
        om3_outcome(input) matches Ok(read) && read == (rest, document),
{
}

} // verus!
