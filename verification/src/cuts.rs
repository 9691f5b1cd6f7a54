//! What each step makes of an input that was cut short.
//!
//! A step that succeeds on an input either asks for more on a beginning of
//! that input, or reads from it what it read from the whole. None reports a
//! beginning of well-formed input as malformed.

use crate::error::ParseError;
use crate::facts::{
    lemma_faces_of_take, lemma_run_length_take, lemma_word_at_take, lemma_words_take,
};
use crate::laws::lemma_header_acceptance;
use crate::layout::{
    closing_outcome, face_polygon_outcome, header_outcome, located_point_cloud_outcome,
    optional_face_polygon_outcome, point_cloud_outcome, run_length, scan_outcome, tag_outcome,
    word_at, Outcome, FACE_TAG, FOOTER, MAGIC, PADDING, POINT_TAG, POINT_TAG_START,
};
use vstd::prelude::*;

verus! {

/// How what a step makes of the first `k` bytes of its input stands to what
/// it makes of the whole input, of which it uses `used` bytes and leaves
/// `rest`: the step asks for more, or it leaves as much of `rest` as the
/// `k` bytes hold.
pub open spec fn cut_leaves(
    short: Result<Seq<u8>, ParseError>,
    k: int,
    used: int,
    rest: Seq<u8>,
) -> bool {
    ||| short == Err::<Seq<u8>, ParseError>(ParseError::IncompleteInput)
    ||| used <= k && short == Ok::<Seq<u8>, ParseError>(rest.take(k - used))
}

/// As `cut_leaves`, for a step that reads a value: from the first `k` bytes
/// the step asks for more, or it reads the same value and leaves as much of
/// `rest` as the `k` bytes hold.
pub open spec fn cut_reads<V>(short: Outcome<V>, k: int, used: int, rest: Seq<u8>, value: V) -> bool {
    ||| short == Err::<(Seq<u8>, V), ParseError>(ParseError::IncompleteInput)
    ||| used <= k && short == Ok::<(Seq<u8>, V), ParseError>((rest.take(k - used), value))
}

/// A tag that matches the whole input is incomplete on every cut inside the
/// tag, and matches every longer cut.
pub proof fn lemma_tag_cut(tag: Seq<u8>, input: Seq<u8>, k: int)
    requires
        tag_outcome(tag, input) is Ok,
        0 <= k <= input.len(),
    ensures
        k < tag.len() ==> tag_outcome(tag, input.take(k)) matches Err(ParseError::IncompleteInput),
        k >= tag.len() ==> (tag_outcome(tag, input.take(k)) matches Ok(rest) && rest == input.skip(
            tag.len() as int,
        ).take(k - tag.len())),
        cut_leaves(tag_outcome(tag, input.take(k)), k, tag.len() as int, input.skip(tag.len() as int)),
{
    let short = input.take(k);
    if k < tag.len() {
        assert(short =~= tag.take(k));
    } else {
        assert(tag =~= short.take(tag.len() as int));
        assert(short.skip(tag.len() as int) =~= input.skip(tag.len() as int).take(k - tag.len()));
    }
}

/// A tag that differs from the whole input differs from every cut that
/// reaches the first difference, and is incomplete on the shorter ones.
pub proof fn lemma_tag_cut_mismatch(tag: Seq<u8>, input: Seq<u8>, k: int)
    requires
        tag_outcome(tag, input) matches Err(ParseError::TagMismatch),
        0 <= k <= input.len(),
    ensures
        tag_outcome(tag, input.take(k)) is Err,
        !(tag_outcome(tag, input.take(k)) matches Err(ParseError::InvalidCount)),
{
    let short = input.take(k);
    if tag.is_prefix_of(short) {
        assert(tag =~= input.take(tag.len() as int));
    }
}

/// A scan that halts in the whole input halts at the same byte in every cut
/// that holds it, and is incomplete on the shorter ones.
pub proof fn lemma_scan_cut(input: Seq<u8>, mark: u8, on_mark: bool, k: int)
    requires
        scan_outcome(input, mark, on_mark) is Ok,
        0 <= k <= input.len(),
    ensures
        k <= run_length(input, mark, on_mark) ==> scan_outcome(input.take(k), mark, on_mark)
            matches Err(ParseError::IncompleteInput),
        cut_leaves(
            scan_outcome(input.take(k), mark, on_mark),
            k,
            run_length(input, mark, on_mark) as int,
            scan_outcome(input, mark, on_mark)->Ok_0,
        ),
{
    let n = run_length(input, mark, on_mark) as int;
    lemma_run_length_take(input, mark, on_mark, k);
    if k > n {
        assert(input.take(k).skip(n) =~= input.skip(n).take(k - n));
    }
}

/// A header that is accepted in the whole input is incomplete on every cut
/// inside its 11 bytes, and accepted in every longer cut.
pub proof fn lemma_header_cut(input: Seq<u8>, k: int)
    requires
        header_outcome(input) is Ok,
        0 <= k <= input.len(),
    ensures
        k < 11 ==> header_outcome(input.take(k)) matches Err(ParseError::IncompleteInput),
        header_outcome(input)->Ok_0 == input.skip(11),
        cut_leaves(header_outcome(input.take(k)), k, 11, input.skip(11)),
{
    lemma_header_acceptance(input);
    lemma_header_acceptance(input.take(k));
    lemma_tag_cut(MAGIC@, input, k);
    if k >= 11 {
        assert(input.take(k).take(10) =~= input.take(10));
        assert(input.take(k).skip(11) =~= input.skip(11).take(k - 11));
    } else {
        assert(input.take(k) =~= MAGIC@.take(k));
    }
}

/// A face section that is read from the whole input is incomplete on every
/// cut inside it, and read alike from every longer cut.
pub proof fn lemma_face_polygon_cut(input: Seq<u8>, k: int)
    requires
        face_polygon_outcome(input) is Ok,
        0 <= k <= input.len(),
    ensures
        cut_reads(
            face_polygon_outcome(input.take(k)),
            k,
            input.len() - face_polygon_outcome(input)->Ok_0.0.len(),
            face_polygon_outcome(input)->Ok_0.0,
            face_polygon_outcome(input)->Ok_0.1,
        ),
{
    let counts = input.skip(12);
    let count = word_at(counts, 0) as nat;
    let width = (word_at(counts, 1) / word_at(counts, 0)) as nat;
    let body = counts.skip(8);
    let size = 4 * (count * width) as int;
    lemma_tag_cut(FACE_TAG@, input, k);
    if k >= 20 {
        let short_counts = input.take(k).skip(12);
        assert(short_counts =~= counts.take(k - 12));
        lemma_word_at_take(counts, k - 12, 0);
        lemma_word_at_take(counts, k - 12, 1);
        let short_body = short_counts.skip(8);
        assert(short_body =~= body.take(k - 20));
        if k - 20 >= size {
            lemma_faces_of_take(body, k - 20, count, width);
            assert(short_body.skip(size) =~= body.skip(size).take(k - 20 - size));
        }
    } else if k >= 12 {
        assert(input.take(k).skip(12).len() == k - 12);
    }
}

/// The same for a face section that may be missing: where the whole input has
/// none, a cut has none either, or is too short to tell.
pub proof fn lemma_optional_face_polygon_cut(input: Seq<u8>, k: int)
    requires
        optional_face_polygon_outcome(input) is Ok,
        0 <= k <= input.len(),
    ensures
        cut_reads(
            optional_face_polygon_outcome(input.take(k)),
            k,
            input.len() - optional_face_polygon_outcome(input)->Ok_0.0.len(),
            optional_face_polygon_outcome(input)->Ok_0.0,
            optional_face_polygon_outcome(input)->Ok_0.1,
        ),
{
    if face_polygon_outcome(input) is Ok {
        lemma_face_polygon_cut(input, k);
    } else {
        lemma_tag_cut_mismatch(FACE_TAG@, input, k);
    }
}

/// A point section that is read from the whole input is incomplete on every
/// cut inside it, and read alike from every longer cut.
pub proof fn lemma_point_cloud_cut(input: Seq<u8>, k: int)
    requires
        point_cloud_outcome(input) is Ok,
        0 <= k <= input.len(),
    ensures
        cut_reads(
            point_cloud_outcome(input.take(k)),
            k,
            input.len() - point_cloud_outcome(input)->Ok_0.0.len(),
            point_cloud_outcome(input)->Ok_0.0,
            point_cloud_outcome(input)->Ok_0.1,
        ),
{
    let section = input.skip(11);
    let n = word_at(section, 0) as int;
    let coords = section.skip(4);
    lemma_tag_cut(POINT_TAG@, input, k);
    if k >= 15 {
        let short_section = input.take(k).skip(11);
        assert(short_section =~= section.take(k - 11));
        lemma_word_at_take(section, k - 11, 0);
        let short_coords = short_section.skip(4);
        assert(short_coords =~= coords.take(k - 15));
        if k - 15 >= 12 * n {
            lemma_words_take(coords, k - 15, 0, n as nat);
            lemma_words_take(coords, k - 15, n, n as nat);
            lemma_words_take(coords, k - 15, 2 * n, n as nat);
            assert(short_coords.skip(12 * n) =~= coords.skip(12 * n).take(k - 15 - 12 * n));
        }
    } else if k >= 11 {
        assert(input.take(k).skip(11).len() == k - 11);
    }
}

/// The same for the unknown region with the point section behind it.
pub proof fn lemma_located_point_cloud_cut(input: Seq<u8>, k: int)
    requires
        located_point_cloud_outcome(input) is Ok,
        0 <= k <= input.len(),
    ensures
        cut_reads(
            located_point_cloud_outcome(input.take(k)),
            k,
            input.len() - located_point_cloud_outcome(input)->Ok_0.0.len(),
            located_point_cloud_outcome(input)->Ok_0.0,
            located_point_cloud_outcome(input)->Ok_0.1,
        ),
{
    let region = run_length(input, POINT_TAG_START, true) as int;
    lemma_scan_cut(input, POINT_TAG_START, true, k);
    if k > region {
        lemma_point_cloud_cut(input.skip(region), k - region);
    }
}

/// Padding and footer that are read from the whole input are incomplete on
/// every cut that ends before the last byte of the footer.
pub proof fn lemma_closing_cut(input: Seq<u8>, k: int)
    requires
        closing_outcome(input) is Ok,
        0 <= k <= input.len(),
    ensures
        k < input.len() - closing_outcome(input)->Ok_0.len() ==> closing_outcome(input.take(k))
            matches Err(ParseError::IncompleteInput),
        cut_leaves(
            closing_outcome(input.take(k)),
            k,
            input.len() - closing_outcome(input)->Ok_0.len(),
            closing_outcome(input)->Ok_0,
        ),
{
    let padding = run_length(input, PADDING, false) as int;
    lemma_scan_cut(input, PADDING, false, k);
    if k > padding {
        lemma_tag_cut(FOOTER@, input.skip(padding), k - padding);
    }
}

} // verus!
