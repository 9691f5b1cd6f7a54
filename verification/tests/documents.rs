use om3_parser_rs::decode::{parse_optional_face_polygon, parse_words, scan};
use om3_parser_rs::{parse_om3, ParseError};

const MAGIC: &[u8] = b"\x48\x4F\x4D\x33\x44\x46\x0A\x00\x01\x00";
const FOOTER: &[u8] = b"\x46\x44\x33\x4D\x4F\x48\x2E";

/// The eight corners of the unit cube, axis by axis.
const CUBE_X: [f32; 8] = [0.0, 1.0, 1.0, 0.0, 0.0, 1.0, 1.0, 0.0];
const CUBE_Y: [f32; 8] = [0.0, 0.0, 1.0, 1.0, 0.0, 0.0, 1.0, 1.0];
const CUBE_Z: [f32; 8] = [0.0, 0.0, 0.0, 0.0, 1.0, 1.0, 1.0, 1.0];

/// The six sides of the cube, four corners each.
const CUBE_FACES: [[u32; 4]; 6] = [
    [0, 1, 2, 3],
    [4, 5, 6, 7],
    [0, 1, 5, 4],
    [2, 3, 7, 6],
    [0, 3, 7, 4],
    [1, 2, 6, 5],
];

fn face_section(faces: &[[u32; 4]]) -> Vec<u8> {
    let mut out = b"face_polygon".to_vec();
    out.extend_from_slice(&(faces.len() as u32).to_be_bytes());
    out.extend_from_slice(&(4 * faces.len() as u32).to_be_bytes());
    for face in faces {
        for index in face {
            out.extend_from_slice(&index.to_be_bytes());
        }
    }
    out
}

fn point_section(x: &[f32], y: &[f32], z: &[f32]) -> Vec<u8> {
    let mut out = b"point_coord".to_vec();
    out.extend_from_slice(&(x.len() as u32).to_be_bytes());
    for axis in [x, y, z] {
        for coordinate in axis {
            out.extend_from_slice(&coordinate.to_be_bytes());
        }
    }
    out
}

fn document(version: u8, faces: Option<&[[u32; 4]]>, filler: &[u8], padding: usize) -> Vec<u8> {
    let mut out = MAGIC.to_vec();
    out.push(version);
    if let Some(faces) = faces {
        out.extend_from_slice(&face_section(faces));
    }
    out.extend_from_slice(filler);
    out.extend_from_slice(&point_section(&CUBE_X, &CUBE_Y, &CUBE_Z));
    out.extend_from_slice(&vec![0u8; padding]);
    out.extend_from_slice(FOOTER);
    out
}

fn bits(axis: &[f32]) -> Vec<u32> {
    axis.iter().map(|coordinate| coordinate.to_bits()).collect()
}

#[test]
fn cube_without_faces() {
    let content = document(0x0B, None, b"", 5);
    let (rest, mesh) = parse_om3(&content).unwrap();
    assert_eq!(rest, b"");
    assert!(mesh.faces.is_none());
    assert_eq!(mesh.vertices.x.len(), 8);
    assert_eq!(mesh.vertices.y.len(), 8);
    assert_eq!(mesh.vertices.z.len(), 8);
    assert_eq!(mesh.vertices.x, bits(&CUBE_X));
    assert_eq!(mesh.vertices.y, bits(&CUBE_Y));
    assert_eq!(mesh.vertices.z, bits(&CUBE_Z));
}

#[test]
fn cube_with_faces() {
    let content = document(0x0C, Some(&CUBE_FACES), b"\x00\x01\x02 attributes \xff", 3);
    let (rest, mesh) = parse_om3(&content).unwrap();
    assert_eq!(rest, b"");
    assert_eq!(mesh.vertices.x.len(), 8);
    assert_eq!(mesh.vertices.y.len(), 8);
    assert_eq!(mesh.vertices.z.len(), 8);
    assert_eq!(mesh.vertices.x, bits(&CUBE_X));
    assert_eq!(mesh.vertices.y, bits(&CUBE_Y));
    assert_eq!(mesh.vertices.z, bits(&CUBE_Z));
    let polygon = mesh.faces.unwrap();
    assert_eq!(polygon.faces.len(), 6);
    for (face, expected) in polygon.faces.iter().zip(CUBE_FACES.iter()) {
        assert_eq!(face.indices, expected.to_vec());
    }
}

#[test]
fn every_combination_of_parts_decodes() {
    let fillers: [&[u8]; 4] = [b"", b"f", b"face_", b"\x00\xff unknown \x6f\x71"];
    for version in [0x0Bu8, 0x0C] {
        for faces in [None, Some(&CUBE_FACES[..]), Some(&CUBE_FACES[..1])] {
            for filler in fillers {
                for padding in [0usize, 1, 17] {
                    let content = document(version, faces, filler, padding);
                    let (rest, mesh) = parse_om3(&content).unwrap();
                    assert_eq!(rest, b"");
                    assert_eq!(mesh.vertices.x.len(), 8);
                    assert_eq!(mesh.vertices.y.len(), 8);
                    assert_eq!(mesh.vertices.z.len(), 8);
                    match faces {
                        None => assert!(mesh.faces.is_none()),
                        Some(faces) => {
                            let polygon = mesh.faces.unwrap();
                            assert_eq!(polygon.faces.len(), faces.len());
                            assert!(polygon.faces.iter().all(|face| face.indices.len() == 4));
                        }
                    }
                }
            }
        }
    }
}

#[test]
fn every_cut_of_a_document_is_incomplete() {
    for faces in [None, Some(&CUBE_FACES[..])] {
        let content = document(0x0B, faces, b"face_ unknown", 4);
        for cut in 0..content.len() {
            assert_eq!(
                parse_om3(&content[..cut]).unwrap_err(),
                ParseError::IncompleteInput,
                "cut at {}",
                cut
            );
        }
    }
}

#[test]
fn bytes_behind_the_footer_are_returned() {
    let mut content = document(0x0B, None, b"", 0);
    content.extend_from_slice(b"more");
    let (rest, mesh) = parse_om3(&content).unwrap();
    assert_eq!(rest, b"more");
    assert!(mesh.faces.is_none());
}

#[test]
fn document_with_other_version_is_a_mismatch() {
    let content = document(0x0D, None, b"", 0);
    assert_eq!(parse_om3(&content).unwrap_err(), ParseError::TagMismatch);
}

#[test]
fn document_with_zero_faces_is_an_invalid_count() {
    let mut content = MAGIC.to_vec();
    content.push(0x0B);
    content.extend_from_slice(b"face_polygon\x00\x00\x00\x00\x00\x00\x00\x04");
    content.extend_from_slice(&point_section(&CUBE_X, &CUBE_Y, &CUBE_Z));
    content.extend_from_slice(FOOTER);
    assert_eq!(parse_om3(&content).unwrap_err(), ParseError::InvalidCount);
}

#[test]
fn unknown_region_ends_at_the_first_p() {
    // The scan halts on the `p` inside the region, where no point tag stands.
    let content = document(0x0B, None, b"\x01\x02p\x03", 0);
    assert_eq!(parse_om3(&content).unwrap_err(), ParseError::TagMismatch);
}

#[test]
fn unknown_region_without_p_is_incomplete() {
    let mut content = MAGIC.to_vec();
    content.push(0x0B);
    content.extend_from_slice(b"\x01\x02\x03\x04");
    assert_eq!(parse_om3(&content).unwrap_err(), ParseError::IncompleteInput);
}

#[test]
fn odd_indices_fall_into_the_unknown_region() {
    // 5 indices for 2 faces: two per face are read, the fifth is skipped with
    // the unknown region.
    let mut content = MAGIC.to_vec();
    content.push(0x0B);
    content.extend_from_slice(b"face_polygon\x00\x00\x00\x02\x00\x00\x00\x05");
    for index in [0u32, 1, 2, 3, 4] {
        content.extend_from_slice(&index.to_be_bytes());
    }
    content.extend_from_slice(&point_section(&CUBE_X, &CUBE_Y, &CUBE_Z));
    content.extend_from_slice(FOOTER);
    let (rest, mesh) = parse_om3(&content).unwrap();
    assert_eq!(rest, b"");
    let polygon = mesh.faces.unwrap();
    assert_eq!(polygon.faces.len(), 2);
    assert_eq!(polygon.faces[0].indices, vec![0, 1]);
    assert_eq!(polygon.faces[1].indices, vec![2, 3]);
}

#[test]
fn footer_must_follow_the_padding() {
    let mut content = MAGIC.to_vec();
    content.push(0x0B);
    content.extend_from_slice(&point_section(&CUBE_X, &CUBE_Y, &CUBE_Z));
    content.extend_from_slice(b"\x00\x00\x01FD3MOH.");
    assert_eq!(parse_om3(&content).unwrap_err(), ParseError::TagMismatch);
}

#[test]
fn padding_without_footer_is_incomplete() {
    let mut content = MAGIC.to_vec();
    content.push(0x0B);
    content.extend_from_slice(&point_section(&CUBE_X, &CUBE_Y, &CUBE_Z));
    assert_eq!(parse_om3(&content).unwrap_err(), ParseError::IncompleteInput);
    content.extend_from_slice(&[0u8; 9]);
    assert_eq!(parse_om3(&content).unwrap_err(), ParseError::IncompleteInput);
}

#[test]
fn scan_halts_on_the_mark() {
    assert_eq!(scan(b"abcpdefp", 0x70, true).unwrap(), b"pdefp");
    assert_eq!(scan(b"point", 0x70, true).unwrap(), b"point");
    assert_eq!(scan(b"abc", 0x70, true).unwrap_err(), ParseError::IncompleteInput);
    assert_eq!(scan(b"", 0x70, true).unwrap_err(), ParseError::IncompleteInput);
}

#[test]
fn scan_halts_behind_the_mark() {
    assert_eq!(scan(b"\x00\x00\x00F\x00", 0x00, false).unwrap(), b"F\x00");
    assert_eq!(scan(b"FD3", 0x00, false).unwrap(), b"FD3");
    assert_eq!(scan(b"\x00\x00", 0x00, false).unwrap_err(), ParseError::IncompleteInput);
    assert_eq!(scan(b"", 0x00, false).unwrap_err(), ParseError::IncompleteInput);
}

#[test]
fn words_are_read_most_significant_byte_first() {
    let (rest, words) = parse_words(b"\x12\x34\x56\x78\x00\x00\x00\x01\x80\x00\x00\x00!", 3).unwrap();
    assert_eq!(rest, b"!");
    assert_eq!(words, vec![0x1234_5678, 1, 0x8000_0000]);
}

#[test]
fn missing_face_section_leaves_the_input() {
    let (rest, polygon) = parse_optional_face_polygon(b"point_coord").unwrap();
    assert_eq!(rest, b"point_coord");
    assert!(polygon.is_none());
}

#[test]
fn beginning_of_a_face_tag_is_incomplete() {
    assert_eq!(
        parse_optional_face_polygon(b"face_pol").unwrap_err(),
        ParseError::IncompleteInput
    );
    assert_eq!(parse_optional_face_polygon(b"").unwrap_err(), ParseError::IncompleteInput);
}

#[test]
fn present_face_section_is_read() {
    let input = b"face_polygon\x00\x00\x00\x01\x00\x00\x00\x02\x00\x00\x00\x07\x00\x00\x00\x09point";
    let (rest, polygon) = parse_optional_face_polygon(input).unwrap();
    assert_eq!(rest, b"point");
    let polygon = polygon.unwrap();
    assert_eq!(polygon.faces.len(), 1);
    assert_eq!(polygon.faces[0].indices, vec![7, 9]);
}
