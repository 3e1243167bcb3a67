use ply2splat::{
    gaussians_from_elements, gaussians_from_outcome, header_numbers_in_range, load_ply_from_bytes,
    vertex_group, Element, Group, ParseError, PlyGaussian, PropertyValue,
};

const NAMES: [&str; 14] = [
    "x", "y", "z", "f_dc_0", "f_dc_1", "f_dc_2", "opacity", "scale_0", "scale_1", "scale_2",
    "rot_0", "rot_1", "rot_2", "rot_3",
];

fn fields(g: &PlyGaussian) -> [u32; 14] {
    [
        g.x, g.y, g.z, g.f_dc_0, g.f_dc_1, g.f_dc_2, g.opacity, g.scale_0, g.scale_1, g.scale_2,
        g.rot_0, g.rot_1, g.rot_2, g.rot_3,
    ]
}

fn floats(g: &PlyGaussian) -> Vec<f32> {
    fields(g).iter().map(|b| f32::from_bits(*b)).collect()
}

fn header(format: &str, count: usize, properties: &[(&str, &str)]) -> Vec<u8> {
    let mut text = format!("ply\nformat {} 1.0\nelement vertex {}\n", format, count);
    for (kind, name) in properties {
        text.push_str(&format!("property {} {}\n", kind, name));
    }
    text.push_str("end_header\n");
    text.into_bytes()
}

fn all_float_properties() -> Vec<(&'static str, &'static str)> {
    NAMES.iter().map(|n| ("float", *n)).collect()
}

#[test]
fn a_new_gaussian_is_all_zero() {
    assert_eq!(fields(&PlyGaussian::new()), [0u32; 14]);
    assert_eq!(PlyGaussian::default(), PlyGaussian::new());
}

#[test]
fn each_known_name_sets_its_own_field() {
    for (i, name) in NAMES.iter().enumerate() {
        let mut g = PlyGaussian::new();
        g.set_property(name.to_string(), PropertyValue::Float(0x4000_0000 + i as u32));
        let mut expected = [0u32; 14];
        expected[i] = 0x4000_0000 + i as u32;
        assert_eq!(fields(&g), expected);
    }
}

#[test]
fn unknown_names_are_ignored() {
    for name in ["", "X", "xx", "x ", "rot_4", "f_dc_3", "scale", "opacity_", "nx", "f_rest_0", "é"] {
        let mut g = PlyGaussian::new();
        g.set_property(name.to_string(), PropertyValue::Float(7));
        assert_eq!(g, PlyGaussian::new());
    }
}

#[test]
fn values_that_are_not_floats_are_ignored() {
    let mut g = PlyGaussian::new();
    g.set_property("x".to_string(), PropertyValue::Float(5));
    g.set_property("x".to_string(), PropertyValue::Other);
    g.set_property("y".to_string(), PropertyValue::Other);
    assert_eq!(g.x, 5);
    assert_eq!(g.y, 0);
}

#[test]
fn non_finite_values_pass_through() {
    let mut g = PlyGaussian::new();
    g.set_property("opacity".to_string(), PropertyValue::Float(f32::NAN.to_bits()));
    g.set_property("scale_0".to_string(), PropertyValue::Float(f32::INFINITY.to_bits()));
    assert_eq!(g.opacity, f32::NAN.to_bits());
    assert_eq!(g.scale_0, f32::INFINITY.to_bits());
}

#[test]
fn later_properties_stand_over_earlier_ones() {
    let props: Element = vec![
        ("x".to_string(), PropertyValue::Float(1)),
        ("nx".to_string(), PropertyValue::Float(9)),
        ("x".to_string(), PropertyValue::Float(2)),
        ("z".to_string(), PropertyValue::Other),
        ("rot_3".to_string(), PropertyValue::Float(3)),
    ];
    let g = PlyGaussian::from_properties(&props);
    let mut expected = PlyGaussian::new();
    expected.x = 2;
    expected.rot_3 = 3;
    assert_eq!(g, expected);
    assert_eq!(PlyGaussian::from_properties(&Vec::new()), PlyGaussian::new());
}

#[test]
fn elements_become_points_one_by_one() {
    let elements: Vec<Element> = vec![
        vec![("y".to_string(), PropertyValue::Float(4))],
        vec![],
        vec![("opacity".to_string(), PropertyValue::Float(6))],
    ];
    let points = gaussians_from_elements(&elements);
    assert_eq!(points.len(), 3);
    assert_eq!(points[0].y, 4);
    assert_eq!(points[1], PlyGaussian::new());
    assert_eq!(points[2].opacity, 6);
}

fn group(name: &str, xs: &[u32]) -> Group {
    let elements: Vec<Element> = xs
        .iter()
        .map(|x| vec![("x".to_string(), PropertyValue::Float(*x))])
        .collect();
    (name.to_string(), elements)
}

#[test]
fn the_vertex_group_is_picked_by_name() {
    let groups = vec![group("face", &[1]), group("vertex", &[2, 3]), group("edge", &[4])];
    assert_eq!(vertex_group(&groups), Some(&groups[1].1));
    let groups = vec![group("vertex", &[])];
    assert_eq!(vertex_group(&groups), Some(&Vec::new()));
}

#[test]
fn the_first_group_named_vertex_is_picked() {
    let groups = vec![group("a", &[1]), group("vertex", &[2]), group("vertex", &[3])];
    assert_eq!(vertex_group(&groups), Some(&groups[1].1));
}

#[test]
fn groups_under_other_names_are_not_picked() {
    assert_eq!(vertex_group(&Vec::new()), None);
    let groups = vec![
        group("face", &[1]),
        group("Vertex", &[2]),
        group("vertex ", &[3]),
        group("vertices", &[4]),
        group("verte", &[5]),
        group("", &[6]),
    ];
    assert_eq!(vertex_group(&groups), None);
}

#[test]
fn outcomes_are_judged() {
    let points = gaussians_from_outcome(Ok(vec![group("face", &[9, 9]), group("vertex", &[1])]))
        .unwrap();
    assert_eq!(points.len(), 1);
    assert_eq!(points[0].x, 1);
    assert_eq!(
        gaussians_from_outcome(Ok(vec![group("vertex", &[])])),
        Ok(Vec::new())
    );
    assert_eq!(
        gaussians_from_outcome(Ok(vec![group("face", &[1])])),
        Err(ParseError::NoVertexElement)
    );
    assert_eq!(
        gaussians_from_outcome(Ok(Vec::new())),
        Err(ParseError::NoVertexElement)
    );
    assert_eq!(
        gaussians_from_outcome(Err("line 3".to_string())),
        Err(ParseError::Malformed("line 3".to_string()))
    );
}

#[test]
fn single_vertex_fields_match_the_document() {
    let mut doc = header("ascii", 1, &all_float_properties());
    doc.extend_from_slice(b"1.0 2.0 3.0 0.5 0.25 0.125 -4.0 0.1 0.2 0.3 1.0 0.0 -1.0 0.5\n");
    let points = load_ply_from_bytes(&doc).unwrap();
    assert_eq!(points.len(), 1);
    assert_eq!(
        floats(&points[0]),
        vec![1.0, 2.0, 3.0, 0.5, 0.25, 0.125, -4.0, 0.1, 0.2, 0.3, 1.0, 0.0, -1.0, 0.5]
    );
}

#[test]
fn vertices_come_in_document_order() {
    let mut doc = header("ascii", 3, &[("float", "x")]);
    doc.extend_from_slice(b"3.0\n1.0\n2.0\n");
    let points = load_ply_from_bytes(&doc).unwrap();
    let xs: Vec<f32> = points.iter().map(|g| f32::from_bits(g.x)).collect();
    assert_eq!(xs, vec![3.0, 1.0, 2.0]);
}

#[test]
fn binary_little_endian_documents_are_read() {
    let mut doc = header("binary_little_endian", 2, &all_float_properties());
    let values: Vec<f32> = (0..28).map(|i| i as f32 * 0.5 - 3.0).collect();
    for v in &values {
        doc.extend_from_slice(&v.to_le_bytes());
    }
    let points = load_ply_from_bytes(&doc).unwrap();
    assert_eq!(points.len(), 2);
    assert_eq!(floats(&points[0]), values[..14].to_vec());
    assert_eq!(floats(&points[1]), values[14..].to_vec());
}

#[test]
fn binary_big_endian_documents_are_read() {
    let mut doc = header("binary_big_endian", 1, &[("float", "z"), ("float", "x")]);
    doc.extend_from_slice(&7.5f32.to_be_bytes());
    doc.extend_from_slice(&f32::NEG_INFINITY.to_be_bytes());
    let points = load_ply_from_bytes(&doc).unwrap();
    assert_eq!(f32::from_bits(points[0].z), 7.5);
    assert_eq!(points[0].x, f32::NEG_INFINITY.to_bits());
    assert_eq!(points[0].y, 0);
}

#[test]
fn unrecognised_properties_are_ignored_and_missing_ones_are_zero() {
    let mut doc = header(
        "ascii",
        1,
        &[("float", "nx"), ("float", "y"), ("uchar", "red"), ("float", "f_rest_0")],
    );
    doc.extend_from_slice(b"9.0 2.0 255 4.0\n");
    let points = load_ply_from_bytes(&doc).unwrap();
    let mut expected = PlyGaussian::new();
    expected.y = 2.0f32.to_bits();
    assert_eq!(points, vec![expected]);
}

#[test]
fn a_field_of_another_type_is_dropped() {
    let mut doc = header("ascii", 1, &[("double", "x"), ("int", "y"), ("float", "z")]);
    doc.extend_from_slice(b"1.0 2 3.0\n");
    let points = load_ply_from_bytes(&doc).unwrap();
    assert_eq!(points[0].x, 0);
    assert_eq!(points[0].y, 0);
    assert_eq!(f32::from_bits(points[0].z), 3.0);
}

#[test]
fn other_element_groups_are_passed_over() {
    let doc = b"ply\nformat ascii 1.0\nelement vertex 1\nproperty float x\nelement face 1\nproperty list uchar int vertex_indices\nend_header\n5.0\n3 0 1 2\n";
    let points = load_ply_from_bytes(doc).unwrap();
    assert_eq!(points.len(), 1);
    assert_eq!(f32::from_bits(points[0].x), 5.0);
}

#[test]
fn the_vertex_group_is_found_after_other_groups() {
    let doc = b"ply\nformat ascii 1.0\nelement face 2\nproperty float x\nelement vertex 1\nproperty float x\nend_header\n7.0\n8.0\n5.0\n";
    let points = load_ply_from_bytes(doc).unwrap();
    assert_eq!(points.len(), 1);
    assert_eq!(f32::from_bits(points[0].x), 5.0);
}

#[test]
fn an_empty_vertex_group_gives_no_points() {
    let doc = header("ascii", 0, &all_float_properties());
    assert_eq!(load_ply_from_bytes(&doc), Ok(Vec::new()));
}

#[test]
fn a_document_without_vertices_is_refused() {
    let doc = b"ply\nformat ascii 1.0\nelement face 0\nproperty list uchar int vertex_indices\nend_header\n";
    assert_eq!(load_ply_from_bytes(doc), Err(ParseError::NoVertexElement));
    let doc = b"ply\nformat ascii 1.0\nend_header\n";
    assert_eq!(load_ply_from_bytes(doc), Err(ParseError::NoVertexElement));
}

#[test]
fn malformed_documents_are_refused() {
    let cases: [&[u8]; 7] = [
        b"",
        b"not a ply file",
        b"ply\nformat ascii 1.0\nelement vertex 1\nproperty float x\n",
        b"ply\nend_header\n",
        b"ply\nformat ascii 1.0\nelement vertex 2\nproperty float x\nend_header\n1.0\n",
        b"ply\nformat ascii 1.0\nelement vertex 1\nproperty float x\nend_header\nabc\n",
        b"ply\nformat binary_little_endian 1.0\nelement vertex 1\nproperty float x\nend_header\n\x00\x00",
    ];
    for doc in cases {
        assert!(matches!(load_ply_from_bytes(doc), Err(ParseError::Malformed(_))));
    }
}

#[test]
fn a_count_beyond_sixty_four_bits_is_refused() {
    let doc = b"ply\nformat ascii 1.0\nelement vertex 18446744073709551616\nproperty float x\nend_header\n";
    assert_eq!(
        load_ply_from_bytes(doc),
        Err(ParseError::Malformed(
            "a number in the header does not fit in 64 bits".to_string()
        ))
    );
    let doc = b"ply\nformat ascii 1.99999999999999999999999\nelement vertex 0\nend_header\n";
    assert_eq!(
        load_ply_from_bytes(doc),
        Err(ParseError::Malformed(
            "a number in the header does not fit in 64 bits".to_string()
        ))
    );
}

#[test]
fn header_numbers_are_weighed_exactly() {
    assert!(header_numbers_in_range(b""));
    assert!(header_numbers_in_range(b"ply\nformat ascii 1.0\nelement vertex 12\nend_header\n"));
    assert!(header_numbers_in_range(b"element vertex 18446744073709551615"));
    assert!(!header_numbers_in_range(b"element vertex 18446744073709551616"));
    assert!(header_numbers_in_range(b"element vertex 000000000000000000000000000001\n"));
    assert!(!header_numbers_in_range(b"element\tvertex\t99999999999999999999\n"));
    assert!(!header_numbers_in_range(b"ply\nformat ascii 18446744073709551616.0\n"));
    assert!(!header_numbers_in_range(b"ply\nformat ascii 1.18446744073709551616\n"));
    assert!(header_numbers_in_range(b"ply\nformat ascii 18446744073709551615.18446744073709551615\n"));
}

#[test]
fn only_header_numbers_are_weighed() {
    // a long run of digits in a comment, in a name, or after the header
    assert!(header_numbers_in_range(b"ply\ncomment 99999999999999999999999\nend_header\n"));
    assert!(header_numbers_in_range(b"ply\nelement v99999999999999999999999 1\nend_header\n"));
    assert!(header_numbers_in_range(b"ply\nproperty float 99999999999999999999999\n"));
    assert!(header_numbers_in_range(
        b"ply\nend_header\nelement vertex 99999999999999999999999\n"
    ));
    assert!(!header_numbers_in_range(
        b"ply\nelement vertex 99999999999999999999999\nend_header\n"
    ));
    assert!(!header_numbers_in_range(b"ply\n element\nelement a 1 99999999999999999999999"));
}

#[test]
fn long_numbers_outside_the_header_grammar_do_not_stop_a_parse() {
    let doc = b"ply\nformat ascii 1.0\ncomment 99999999999999999999999\nelement vertex 1\nproperty float x\nend_header\n0.99999999999999999999999\n";
    let points = load_ply_from_bytes(doc).unwrap();
    assert_eq!(f32::from_bits(points[0].x), 1.0);
}
