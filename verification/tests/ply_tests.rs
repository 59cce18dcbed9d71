use viewer::ply::{parse_header, parse_ply, GaussianVertex, PlyError, PlyHeader};

const PROPERTY_NAMES: [&str; 14] = [
    "x", "y", "z", "scale_0", "scale_1", "scale_2", "f_dc_0", "f_dc_1", "f_dc_2", "opacity",
    "rot_0", "rot_1", "rot_2", "rot_3",
];

fn chars(s: &str) -> Vec<char> {
    s.chars().collect()
}

fn header(vertex_count: usize, names: &[&str]) -> String {
    let mut h = String::from("ply\nformat binary_little_endian 1.0\n");
    h.push_str(&format!("element vertex {}\n", vertex_count));
    for n in names {
        h.push_str(&format!("property float {}\n", n));
    }
    h.push_str("end_header\n");
    h
}

fn body(values: &[f32]) -> Vec<u8> {
    let mut out = Vec::new();
    for v in values {
        out.extend_from_slice(&v.to_ne_bytes());
    }
    out
}

fn floats(v: &GaussianVertex) -> Vec<f32> {
    let mut out = Vec::new();
    for w in v.position.iter().chain(v.scale.iter()).chain(v.diffuse.iter()) {
        out.push(f32::from_ne_bytes(*w));
    }
    out.push(f32::from_ne_bytes(v.opacity));
    for w in v.rotation.iter() {
        out.push(f32::from_ne_bytes(*w));
    }
    out
}

#[test]
fn parses_two_splats_in_field_order() {
    let values: Vec<f32> = (0..28).map(|i| i as f32 * 0.5).collect();
    let mut bytes = header(2, &PROPERTY_NAMES).into_bytes();
    bytes.extend(body(&values));
    let splats = parse_ply(&bytes).unwrap();
    assert_eq!(splats.len(), 2);
    assert_eq!(floats(&splats[0]), values[0..14].to_vec());
    assert_eq!(floats(&splats[1]), values[14..28].to_vec());
    assert_eq!(f32::from_ne_bytes(splats[1].opacity), 11.5);
    assert_eq!(f32::from_ne_bytes(splats[0].rotation[3]), 6.5);
}

#[test]
fn extra_properties_are_skipped() {
    let mut names: Vec<&str> = PROPERTY_NAMES.to_vec();
    names.push("f_rest_0");
    names.push("f_rest_1");
    let values: Vec<f32> = (0..32).map(|i| i as f32).collect();
    let mut bytes = header(2, &names).into_bytes();
    bytes.extend(body(&values));
    let splats = parse_ply(&bytes).unwrap();
    assert_eq!(floats(&splats[0]), values[0..14].to_vec());
    assert_eq!(floats(&splats[1]), values[16..30].to_vec());
}

#[test]
fn header_facts() {
    let bytes = header(3, &PROPERTY_NAMES).into_bytes();
    let h = parse_header(&bytes).unwrap();
    assert_eq!(
        h,
        PlyHeader {
            data_start: bytes.len(),
            vertex_count: 3,
            property_names: PROPERTY_NAMES.iter().map(|n| chars(n)).collect(),
        }
    );
}

#[test]
fn header_lines_are_trimmed_of_unicode_white_space() {
    let text = "ply\r\n  element vertex\t+1  \r\n\u{3000}property float x\u{a0}\n comment caf\u{e9}\nend_header \u{2003}\n";
    let h = parse_header(text.as_bytes()).unwrap();
    assert_eq!(h.vertex_count, 1);
    assert_eq!(h.property_names, vec![chars("x")]);
    assert_eq!(h.data_start, text.len());
}

#[test]
fn keyword_must_match_exactly() {
    let text = "element   vertex 5\nend_header\n";
    assert_eq!(parse_header(text.as_bytes()).unwrap().vertex_count, 0);
}

#[test]
fn last_vertex_count_line_wins_and_all_properties_count() {
    let text = "ply\nelement vertex 7\nproperty float x\nelement face 2\nproperty list uchar int vertex_indices\nelement vertex 4\nend_header\n";
    let h = parse_header(text.as_bytes()).unwrap();
    assert_eq!(h.vertex_count, 4);
    assert_eq!(h.property_names, vec![chars("x"), chars("uchar")]);
}

#[test]
fn element_vertex_prefix_takes_third_token() {
    let text = "element vertexes 12 9\nend_header\n";
    assert_eq!(parse_header(text.as_bytes()).unwrap().vertex_count, 12);
}

#[test]
fn unterminated_end_header_line_is_accepted() {
    let text = "ply\nelement vertex 0\nend_header";
    let h = parse_header(text.as_bytes()).unwrap();
    assert_eq!(h.data_start, text.len());
    assert_eq!(parse_ply(text.as_bytes()).unwrap().len(), 0);
}

#[test]
fn no_vertices_no_data() {
    let bytes = header(0, &[]).into_bytes();
    assert_eq!(parse_ply(&bytes).unwrap().len(), 0);
}

#[test]
fn invalid_utf8_header_line() {
    let mut bytes = b"ply\ncomment ".to_vec();
    bytes.push(0xff);
    bytes.extend_from_slice(b"\nend_header\n");
    assert_eq!(parse_ply(&bytes), Err(PlyError::InvalidUtf8));
}

#[test]
fn binary_after_end_header_is_not_decoded() {
    let mut bytes = header(1, &PROPERTY_NAMES).into_bytes();
    bytes.extend(vec![0xffu8; 56]);
    let splats = parse_ply(&bytes).unwrap();
    assert_eq!(splats[0].opacity, [0xff; 4]);
}

#[test]
fn missing_end_header() {
    assert_eq!(parse_ply(b"ply\nelement vertex 1\n"), Err(PlyError::MissingEndHeader));
    assert_eq!(parse_ply(b""), Err(PlyError::MissingEndHeader));
    assert_eq!(parse_ply(b"ply\nend_header_x\n"), Err(PlyError::MissingEndHeader));
}

#[test]
fn bad_vertex_counts() {
    assert_eq!(parse_ply(b"element vertex\nend_header\n"), Err(PlyError::BadVertexCount));
    assert_eq!(parse_ply(b"element vertex abc\nend_header\n"), Err(PlyError::BadVertexCount));
    assert_eq!(parse_ply(b"element vertex -1\nend_header\n"), Err(PlyError::BadVertexCount));
    assert_eq!(parse_ply(b"element vertex +\nend_header\n"), Err(PlyError::BadVertexCount));
    assert_eq!(parse_ply(b"element vertex 1x\nend_header\n"), Err(PlyError::BadVertexCount));
    assert_eq!(
        parse_ply(b"element vertex 99999999999999999999999\nend_header\n"),
        Err(PlyError::BadVertexCount)
    );
}

#[test]
fn largest_vertex_count_is_read() {
    let text = format!("element vertex {}\nend_header\n", usize::MAX);
    assert_eq!(parse_header(text.as_bytes()).unwrap().vertex_count, usize::MAX);
}

#[test]
fn missing_property_name() {
    assert_eq!(parse_ply(b"property float\nend_header\n"), Err(PlyError::MissingPropertyName));
}

#[test]
fn first_bad_line_decides() {
    assert_eq!(
        parse_ply(b"property float\nelement vertex q\nend_header\n"),
        Err(PlyError::MissingPropertyName)
    );
    assert_eq!(
        parse_ply(b"ply\nend_header\nproperty float\n"),
        Ok(vec![])
    );
}

#[test]
fn size_overflow() {
    let text = format!("element vertex {}\nproperty float x\nend_header\n", usize::MAX / 2);
    assert_eq!(parse_ply(text.as_bytes()), Err(PlyError::SizeOverflow));
}

#[test]
fn truncated_data() {
    let mut bytes = header(2, &PROPERTY_NAMES).into_bytes();
    bytes.extend(body(&[1.0; 27]));
    assert_eq!(parse_ply(&bytes), Err(PlyError::TruncatedData));
}

#[test]
fn too_few_properties() {
    let mut bytes = header(1, &PROPERTY_NAMES[..13]).into_bytes();
    bytes.extend(body(&[1.0; 13]));
    assert_eq!(parse_ply(&bytes), Err(PlyError::TooFewProperties));
}

#[test]
fn unnamed_field_is_read_at_its_position() {
    let mut names = PROPERTY_NAMES.to_vec();
    names[9] = "alpha";
    names.push("opacity_extra");
    let values: Vec<f32> = (0..15).map(|i| i as f32).collect();
    let mut bytes = header(1, &names).into_bytes();
    bytes.extend(body(&values));
    let splats = parse_ply(&bytes).unwrap();
    assert_eq!(floats(&splats[0]), values[0..14].to_vec());
}

#[test]
fn unnamed_properties_are_read_by_position() {
    let names: Vec<String> = (0..14).map(|i| format!("p{}", i)).collect();
    let refs: Vec<&str> = names.iter().map(|s| s.as_str()).collect();
    let values: Vec<f32> = (0..28).map(|i| i as f32).collect();
    let mut bytes = header(2, &refs).into_bytes();
    bytes.extend(body(&values));
    let splats = parse_ply(&bytes).unwrap();
    assert_eq!(floats(&splats[1]), values[14..28].to_vec());
}

#[test]
fn missing_field_does_not_matter_without_vertices() {
    let bytes = header(0, &PROPERTY_NAMES[..2]).into_bytes();
    assert_eq!(parse_ply(&bytes), Ok(vec![]));
}

#[test]
fn standard_splat_layout_is_read_by_name() {
    let mut names: Vec<String> = ["x", "y", "z", "nx", "ny", "nz", "f_dc_0", "f_dc_1", "f_dc_2"]
        .iter()
        .map(|s| s.to_string())
        .collect();
    for i in 0..45 {
        names.push(format!("f_rest_{}", i));
    }
    for n in ["opacity", "scale_0", "scale_1", "scale_2", "rot_0", "rot_1", "rot_2", "rot_3"] {
        names.push(n.to_string());
    }
    assert_eq!(names.len(), 62);
    let refs: Vec<&str> = names.iter().map(|s| s.as_str()).collect();
    let values: Vec<f32> = (0..124).map(|i| i as f32).collect();
    let mut bytes = header(2, &refs).into_bytes();
    bytes.extend(body(&values));
    let splats = parse_ply(&bytes).unwrap();
    assert_eq!(splats.len(), 2);
    for (v, splat) in splats.iter().enumerate() {
        let base = (62 * v) as f32;
        let expected: Vec<f32> = [0, 1, 2, 55, 56, 57, 6, 7, 8, 54, 58, 59, 60, 61]
            .iter()
            .map(|i| base + *i as f32)
            .collect();
        assert_eq!(floats(splat), expected);
    }
}

#[test]
fn first_property_of_a_name_is_read() {
    let mut names = PROPERTY_NAMES.to_vec();
    names.push("x");
    names.insert(0, "x");
    let values: Vec<f32> = (0..16).map(|i| i as f32).collect();
    let mut bytes = header(1, &names).into_bytes();
    bytes.extend(body(&values));
    let splats = parse_ply(&bytes).unwrap();
    assert_eq!(f32::from_ne_bytes(splats[0].position[0]), 0.0);
    assert_eq!(f32::from_ne_bytes(splats[0].position[1]), 2.0);
}

#[test]
fn other_properties_are_ignored() {
    let mut names: Vec<&str> = PROPERTY_NAMES.to_vec();
    names.insert(3, "nx");
    names.push("f_rest_0");
    let values: Vec<f32> = (0..16).map(|i| i as f32).collect();
    let mut bytes = header(1, &names).into_bytes();
    let start = bytes.len();
    bytes.extend(body(&values));
    let plain = parse_ply(&bytes).unwrap();
    bytes[start + 4 * 3] ^= 0xff;
    bytes[start + 4 * 15 + 2] ^= 0xff;
    assert_eq!(parse_ply(&bytes).unwrap(), plain);
    bytes[start + 4 * 4] ^= 0xff;
    assert_ne!(parse_ply(&bytes).unwrap(), plain);
}

#[test]
fn truncation_is_reported_before_too_few_properties() {
    let bytes = header(1, &PROPERTY_NAMES[..13]).into_bytes();
    assert_eq!(parse_ply(&bytes), Err(PlyError::TruncatedData));
}

#[test]
fn trailing_bytes_are_ignored() {
    let values: Vec<f32> = (0..14).map(|i| i as f32 + 0.25).collect();
    let mut bytes = header(1, &PROPERTY_NAMES).into_bytes();
    bytes.extend(body(&values));
    let plain = parse_ply(&bytes).unwrap();
    bytes.extend_from_slice(b"trailing garbage \xff\xfe");
    assert_eq!(parse_ply(&bytes).unwrap(), plain);
}
