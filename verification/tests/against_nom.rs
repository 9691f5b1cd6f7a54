//! The decoder against the same grammar written with the combinators of `nom`.

use nom::branch::alt;
use nom::bytes::streaming::{tag, take_till};
use nom::combinator::opt;
use nom::error::{Error, ErrorKind};
use nom::multi::count;
use nom::number::streaming::{be_f32, be_u32};
use nom::{IResult, Parser};
use om3_parser_rs::{parse_om3, ParseError};

type Cloud = (Vec<f32>, Vec<f32>, Vec<f32>);

fn grammar_faces(input: &[u8]) -> IResult<&[u8], Vec<Vec<u32>>> {
    let (input, _) = tag(&b"face_polygon"[..])(input)?;
    let (input, n_faces) = be_u32(input)?;
    let (input, n_indices) = be_u32(input)?;
    if n_faces == 0 {
        return Err(nom::Err::Failure(Error::new(input, ErrorKind::Verify)));
    }
    let width = (n_indices / n_faces) as usize;
    count(count(be_u32, width), n_faces as usize).parse(input)
}

fn grammar_points(input: &[u8]) -> IResult<&[u8], Cloud> {
    let (input, _) = tag(&b"point_coord"[..])(input)?;
    let (input, n) = be_u32(input)?;
    let (input, x) = count(be_f32, n as usize).parse(input)?;
    let (input, y) = count(be_f32, n as usize).parse(input)?;
    let (input, z) = count(be_f32, n as usize).parse(input)?;
    Ok((input, (x, y, z)))
}

fn grammar(input: &[u8]) -> IResult<&[u8], (Cloud, Option<Vec<Vec<u32>>>)> {
    let (input, _) = tag(&b"\x48\x4F\x4D\x33\x44\x46\x0A\x00\x01\x00"[..])(input)?;
    let (input, _) = alt((tag(&b"\x0B"[..]), tag(&b"\x0C"[..]))).parse(input)?;
    let (input, faces) = opt(grammar_faces).parse(input)?;
    let (input, _) = take_till(|b| b == b'p')(input)?;
    let (input, cloud) = grammar_points(input)?;
    let (input, _) = take_till(|b| b != 0)(input)?;
    let (input, _) = tag(&b"\x46\x44\x33\x4D\x4F\x48\x2E"[..])(input)?;
    Ok((input, (cloud, faces)))
}

fn bits(axis: &[f32]) -> Vec<u32> {
    axis.iter().map(|coordinate| coordinate.to_bits()).collect()
}

/// Whether the face count of `input`, if it has one, is small enough to hold
/// that many faces in memory twice.
fn modest(input: &[u8]) -> bool {
    match input.get(11..27) {
        Some(section) if section.starts_with(b"face_polygon") => {
            u32::from_be_bytes([section[12], section[13], section[14], section[15]]) <= 0xFFFF
        }
        _ => true,
    }
}

fn assert_agree(input: &[u8]) {
    if !modest(input) {
        return;
    }
    match (parse_om3(input), grammar(input)) {
        (Ok((rest, document)), Ok((expected_rest, ((x, y, z), faces)))) => {
            assert_eq!(rest, expected_rest);
            assert_eq!(document.vertices.x, bits(&x));
            assert_eq!(document.vertices.y, bits(&y));
            assert_eq!(document.vertices.z, bits(&z));
            let indices = document
                .faces
                .map(|polygon| polygon.faces.into_iter().map(|face| face.indices).collect());
            assert_eq!(indices, faces);
        }
        (Err(ParseError::IncompleteInput), Err(nom::Err::Incomplete(_))) => {}
        (Err(ParseError::TagMismatch), Err(nom::Err::Error(_))) => {}
        (Err(ParseError::InvalidCount), Err(nom::Err::Failure(_))) => {}
        (ours, theirs) => panic!("{:?} against {:?} on {:?}", ours, theirs, input),
    }
}

fn sample(with_faces: bool, filler: &[u8], padding: usize, trailing: &[u8]) -> Vec<u8> {
    let mut out = b"\x48\x4F\x4D\x33\x44\x46\x0A\x00\x01\x00\x0B".to_vec();
    if with_faces {
        out.extend_from_slice(b"face_polygon\x00\x00\x00\x02\x00\x00\x00\x06");
        for index in [0u32, 1, 2, 2, 1, 3] {
            out.extend_from_slice(&index.to_be_bytes());
        }
    }
    out.extend_from_slice(filler);
    out.extend_from_slice(b"point_coord\x00\x00\x00\x04");
    for coordinate in [0.0f32, 1.0, 0.0, 1.0, 0.0, 0.0, 1.0, 1.0, 0.5, -0.5, f32::NAN, 1e9] {
        out.extend_from_slice(&coordinate.to_be_bytes());
    }
    out.extend_from_slice(&vec![0u8; padding]);
    out.extend_from_slice(b"FD3MOH.");
    out.extend_from_slice(trailing);
    out
}

fn samples() -> Vec<Vec<u8>> {
    let mut out = Vec::new();
    for with_faces in [false, true] {
        for filler in [&b""[..], &b"face_"[..], &b"\x01\x02\x03"[..]] {
            for padding in [0usize, 3] {
                for trailing in [&b""[..], &b"\x00more"[..]] {
                    out.push(sample(with_faces, filler, padding, trailing));
                }
            }
        }
    }
    out
}

#[test]
fn agrees_on_whole_streams() {
    for input in samples() {
        assert!(grammar(&input).is_ok());
        assert_agree(&input);
    }
}

#[test]
fn agrees_on_cut_streams() {
    for input in samples() {
        for cut in 0..input.len() {
            assert_agree(&input[..cut]);
        }
    }
}

#[test]
fn agrees_on_streams_with_one_byte_changed() {
    for input in samples() {
        for at in 0..input.len() {
            for value in [0x00u8, 0x01, 0x0B, 0x0C, 0x46, 0x70, 0xff] {
                let mut changed = input.clone();
                changed[at] = value;
                assert_agree(&changed);
            }
        }
    }
}

#[test]
fn agrees_on_streams_with_one_byte_removed_or_added() {
    for input in samples() {
        for at in 0..input.len() {
            let mut shorter = input.clone();
            shorter.remove(at);
            assert_agree(&shorter);
            for value in [0x00u8, 0x70] {
                let mut longer = input.clone();
                longer.insert(at, value);
                assert_agree(&longer);
            }
        }
    }
}
