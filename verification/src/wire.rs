//! The streaming primitives of `nom` that the decoder is built on.
//!
//! Each function here hands its arguments to one parser of `nom` and turns the
//! answer into the types of this crate. Their contracts are not proved: they
//! restate what the parsers do on byte slices.

use crate::error::ParseError;
use crate::layout::{outcome_view, rest_view, scan_halts, tag_outcome, u32_outcome};
use vstd::prelude::*;

verus! {

/// Whether a scan halts before byte `b`.
pub fn halts(b: u8, mark: u8, on_mark: bool) -> (r: bool)
    ensures
        r == scan_halts(b, mark, on_mark),
{
    (b == mark) == on_mark
}

/// `nom::bytes::streaming::tag` with a byte slice as the tag. That parser
/// compares the bytes that input and tag both have, pair by pair, and fails
/// with an error on the first difference. Without one it returns the input
/// behind the tag, or, where the input ended before the tag did, asks for
/// more.
#[verifier::external_body]
pub(crate) fn tag<'a>(pattern: &[u8], input: &'a [u8]) -> (r: Result<&'a [u8], ParseError>)
    ensures
        rest_view(r) == tag_outcome(pattern@, input@),
{
    match nom::bytes::streaming::tag::<&[u8], &[u8], nom::error::Error<&[u8]>>(pattern)(input) {
        Ok((rest, _)) => Ok(rest),
        Err(nom::Err::Incomplete(_)) => Err(ParseError::IncompleteInput),
        Err(nom::Err::Error(_)) => Err(ParseError::TagMismatch),
        Err(nom::Err::Failure(_)) => Err(ParseError::TagMismatch),
    }
}

/// `nom::number::streaming::be_u32` on a byte slice. With fewer than four
/// bytes that parser asks for more; else it folds the first four bytes, most
/// significant first, into the value and returns the input behind them.
#[verifier::external_body]
pub(crate) fn be_u32<'a>(input: &'a [u8]) -> (r: Result<(&'a [u8], u32), ParseError>)
    ensures
        outcome_view(r) == u32_outcome(input@),
{
    match nom::number::streaming::be_u32::<&[u8], nom::error::Error<&[u8]>>(input) {
        Ok((rest, value)) => Ok((rest, value)),
        Err(nom::Err::Incomplete(_)) => Err(ParseError::IncompleteInput),
        Err(nom::Err::Error(_)) => Err(ParseError::TagMismatch),
        Err(nom::Err::Failure(_)) => Err(ParseError::TagMismatch),
    }
}

/// `nom::bytes::streaming::take_till` on a byte slice, with `halts` as the
/// predicate. That parser looks for the first byte on which the predicate
/// holds and splits the input before it: the second slice returned here is
/// what it passed over, the first is the rest, which begins with that byte.
/// Where the predicate holds on no byte of the input, it asks for more.
#[verifier::external_body]
pub(crate) fn take_till<'a>(input: &'a [u8], mark: u8, on_mark: bool) -> (r: Result<
    (&'a [u8], &'a [u8]),
    ParseError,
>)
    ensures
        r matches Ok((rest, passed)) ==> input@ == passed@ + rest@,
        r matches Ok((rest, passed)) ==> forall|i: int|
            0 <= i < passed@.len() ==> !scan_halts(#[trigger] passed@[i], mark, on_mark),
        r matches Ok((rest, passed)) ==> rest@.len() > 0 && scan_halts(rest@[0], mark, on_mark),
        r matches Err(e) ==> e == ParseError::IncompleteInput,
        r matches Err(e) ==> forall|i: int|
            0 <= i < input@.len() ==> !scan_halts(#[trigger] input@[i], mark, on_mark),
{
    let until = |b: u8| halts(b, mark, on_mark);
    match nom::bytes::streaming::take_till::<_, &[u8], nom::error::Error<&[u8]>>(until)(input) {
        Ok((rest, passed)) => Ok((rest, passed)),
        Err(nom::Err::Incomplete(_)) => Err(ParseError::IncompleteInput),
        Err(nom::Err::Error(_)) => Err(ParseError::TagMismatch),
        Err(nom::Err::Failure(_)) => Err(ParseError::TagMismatch),
    }
}

} // verus!
