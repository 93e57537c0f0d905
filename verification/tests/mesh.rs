use tracer::mesh::read_obj;
use tracer::mesh::Coordinates;
use tracer::mesh::assemble;
use tracer::mesh::parse_face;
use tracer::mesh::parse_index;
use tracer::mesh::parse_line;
use tracer::mesh::split_fields;
use tracer::mesh::tokenize;
use tracer::mesh::Face;
use tracer::mesh::Line;
use tracer::mesh::MeshError;
use tracer::mesh::MeshKind;
use tracer::mesh::Span;

fn text<'a>(line: &'a str, span: Span) -> &'a str {
    &line[span.start..span.end]
}

fn whole(line: &str) -> Span {
    Span { start: 0, end: line.len() }
}

fn face(verts: [usize; 3], normals: [usize; 3]) -> Face {
    Face { verts, normals }
}

#[test]
fn tokenize_splits_at_white_space() {
    let line = "  v 1.0\t-2.5   3e2 \r";
    let words = tokenize(line.as_bytes());
    let got: Vec<&str> = words.iter().map(|w| text(line, *w)).collect();
    let expected: Vec<&str> = line.split_whitespace().collect();
    assert_eq!(got, expected);
    assert_eq!(got, vec!["v", "1.0", "-2.5", "3e2"]);
}

#[test]
fn tokenize_of_blank_is_empty() {
    assert!(tokenize(b"").is_empty());
    assert!(tokenize(b" \t \r\n").is_empty());
}

#[test]
fn tokenize_gives_places() {
    let words = tokenize(b"ab  c");
    assert_eq!(words, vec![Span { start: 0, end: 2 }, Span { start: 4, end: 5 }]);
}

#[test]
fn split_fields_keeps_empty_fields() {
    let line = "1//3";
    let mut fields = Vec::new();
    split_fields(line.as_bytes(), whole(line), &mut fields);
    let got: Vec<&str> = fields.iter().map(|w| text(line, *w)).collect();
    assert_eq!(got, line.split('/').collect::<Vec<&str>>());
    let line = "12/5/";
    split_fields(line.as_bytes(), whole(line), &mut fields);
    assert_eq!(fields.len(), 6);
    assert_eq!(fields[5], Span { start: 5, end: 5 });
    let mut fields = Vec::new();
    split_fields(b"", Span { start: 0, end: 0 }, &mut fields);
    assert_eq!(fields, vec![Span { start: 0, end: 0 }]);
}

#[test]
fn parse_index_counts_from_zero() {
    assert_eq!(parse_index(b"1", Span { start: 0, end: 1 }), Some(0));
    assert_eq!(parse_index(b"1258", Span { start: 0, end: 4 }), Some(1257));
    assert_eq!(parse_index(b"1258", Span { start: 1, end: 3 }), Some(24));
    assert_eq!(parse_index(b"+7", Span { start: 0, end: 2 }), Some(6));
    assert_eq!(parse_index(b"007", Span { start: 0, end: 3 }), Some(6));
}

#[test]
fn parse_index_refuses_what_is_no_place() {
    assert_eq!(parse_index(b"0", Span { start: 0, end: 1 }), None);
    assert_eq!(parse_index(b"", Span { start: 0, end: 0 }), None);
    assert_eq!(parse_index(b"+", Span { start: 0, end: 1 }), None);
    assert_eq!(parse_index(b"-1", Span { start: 0, end: 2 }), None);
    assert_eq!(parse_index(b"++1", Span { start: 0, end: 3 }), None);
    assert_eq!(parse_index(b"1a", Span { start: 0, end: 2 }), None);
    assert_eq!(parse_index(b"1.0", Span { start: 0, end: 3 }), None);
    assert_eq!(parse_index(b"12", Span { start: 1, end: 3 }), None);
    assert_eq!(parse_index(b"12", Span { start: 2, end: 1 }), None);
}

#[test]
fn parse_index_agrees_with_the_machine_limit() {
    let max = usize::MAX.to_string();
    assert_eq!(parse_index(max.as_bytes(), whole(&max)), Some(usize::MAX - 1));
    let over = format!("{}0", max);
    assert_eq!(parse_index(over.as_bytes(), whole(&over)), None);
    let mut just_over = max.clone().into_bytes();
    let last = just_over.len() - 1;
    just_over[last] += 1;
    assert_eq!(parse_index(&just_over, Span { start: 0, end: last + 1 }), None);
}

#[test]
fn parse_line_reads_a_vertex() {
    let line = "v 0.5 -1 2.25";
    match parse_line(line.as_bytes()) {
        Ok(Line::Vertex(x, y, z)) => {
            assert_eq!(text(line, x).parse::<f32>().unwrap(), 0.5);
            assert_eq!(text(line, y).parse::<f32>().unwrap(), -1.0);
            assert_eq!(text(line, z).parse::<f32>().unwrap(), 2.25);
        }
        other => panic!("{:?}", other),
    }
}

#[test]
fn parse_line_reads_a_normal() {
    let line = "vn 0 1 0";
    match parse_line(line.as_bytes()) {
        Ok(Line::Normal(x, y, z)) => {
            assert_eq!(text(line, x), "0");
            assert_eq!(text(line, y), "1");
            assert_eq!(text(line, z), "0");
        }
        other => panic!("{:?}", other),
    }
}

#[test]
fn parse_line_reads_a_face() {
    let got = parse_line(b"f 24/1/24 25/2/25 26/3/26");
    assert_eq!(got, Ok(Line::Face(face([23, 24, 25], [23, 24, 25]))));
    let got = parse_line(b"  f   1/7/4  2/8/5\t3/9/6 ");
    assert_eq!(got, Ok(Line::Face(face([0, 1, 2], [3, 4, 5]))));
}

#[test]
fn parse_line_reads_the_first_nine_fields_of_a_face() {
    let got = parse_line(b"f 1 2 3 4 5 6 7 8 9 10");
    assert_eq!(got, Ok(Line::Face(face([0, 3, 6], [2, 5, 8]))));
    let got = parse_line(b"f 1/2/3/4/5/6/7/8/9");
    assert_eq!(got, Ok(Line::Face(face([0, 3, 6], [2, 5, 8]))));
}

#[test]
fn parse_line_passes_over_other_lines() {
    assert_eq!(parse_line(b""), Ok(Line::Other));
    assert_eq!(parse_line(b"   "), Ok(Line::Other));
    assert_eq!(parse_line(b"# a comment"), Ok(Line::Other));
    assert_eq!(parse_line(b"vt 0.5 0.5 0"), Ok(Line::Other));
    assert_eq!(parse_line(b"vx 1 2 3"), Ok(Line::Other));
    assert_eq!(parse_line(b"g head"), Ok(Line::Other));
    assert_eq!(parse_line(b"fn 1 2 3"), Ok(Line::Other));
}

#[test]
fn parse_line_refuses_a_short_vertex() {
    assert_eq!(parse_line(b"v 1 2"), Err(MeshError::MissingCoordinate));
    assert_eq!(parse_line(b"vn"), Err(MeshError::MissingCoordinate));
}

#[test]
fn parse_line_refuses_a_malformed_face() {
    assert_eq!(parse_line(b"f"), Err(MeshError::MalformedFace));
    assert_eq!(parse_line(b"f 1 2 3"), Err(MeshError::MalformedFace));
    assert_eq!(parse_line(b"f 1//1 2//2 3//3"), Err(MeshError::MalformedFace));
    assert_eq!(parse_line(b"f 1/1/1 2/2/2 3/3/x"), Err(MeshError::MalformedFace));
    assert_eq!(parse_line(b"f 0/1/1 2/2/2 3/3/3"), Err(MeshError::MalformedFace));
    assert_eq!(parse_line(b"f 1/1/1 2/2/2 3/3/3 4/"), Err(MeshError::MalformedFace));
    assert_eq!(
        parse_line(b"f 1/1/1 2/2/2 3/3/99999999999999999999999999"),
        Err(MeshError::MalformedFace)
    );
}

#[test]
fn parse_face_reads_from_the_second_word_on() {
    let line = b"f 3/1/2 6/4/5 9/7/8";
    let words = tokenize(line);
    assert_eq!(parse_face(line, &words), Ok(face([2, 5, 8], [1, 4, 7])));
}

#[test]
fn assemble_smooth_mesh() {
    let faces = vec![face([0, 1, 2], [0, 1, 2]), face([2, 1, 3], [2, 2, 2])];
    let mesh = assemble(4, 3, faces.clone()).unwrap();
    assert_eq!(mesh.kind, MeshKind::Smooth);
    assert_eq!(mesh.faces, faces);
}

#[test]
fn assemble_flat_mesh_ignores_normals() {
    let faces = vec![face([0, 1, 2], [7, 8, 9])];
    let mesh = assemble(3, 0, faces.clone()).unwrap();
    assert_eq!(mesh.kind, MeshKind::Flat);
    assert_eq!(mesh.faces, faces);
}

#[test]
fn assemble_empty_mesh() {
    let mesh = assemble(0, 0, Vec::new()).unwrap();
    assert_eq!(mesh.kind, MeshKind::Flat);
    assert!(mesh.faces.is_empty());
}

#[test]
fn assemble_refuses_a_vertex_out_of_range() {
    let faces = vec![face([0, 1, 2], [0, 0, 0]), face([0, 1, 3], [0, 0, 0])];
    let got = assemble(3, 1, faces);
    assert_eq!(got.unwrap_err(), MeshError::MalformedMeshReference { face: 1 });
}

#[test]
fn assemble_refuses_a_normal_out_of_range() {
    let faces = vec![face([0, 1, 2], [0, 1, 2]), face([0, 1, 2], [0, 0, 0])];
    let got = assemble(3, 2, faces);
    assert_eq!(got.unwrap_err(), MeshError::MalformedMeshReference { face: 0 });
}

#[test]
fn assemble_names_the_first_bad_face() {
    let faces = vec![
        face([0, 1, 2], [0, 0, 0]),
        face([9, 1, 2], [0, 0, 0]),
        face([0, 9, 2], [0, 0, 0]),
    ];
    let got = assemble(3, 1, faces);
    assert_eq!(got.unwrap_err(), MeshError::MalformedMeshReference { face: 1 });
}

fn words_at<'a>(text: &'a str, at: &Coordinates) -> (&'a str, &'a str, &'a str) {
    (&text[at.x.start..at.x.end], &text[at.y.start..at.y.end], &text[at.z.start..at.z.end])
}

#[test]
fn read_obj_lists_vertices_normals_and_faces() {
    let text = "# a triangle\nv 0 1 0\nv -1 0 0\r\nv 1.5 0 0\n\nvn 0 0 1\nvt 0 0\nf 1/1/1 2/1/1 3/1/1\n";
    let obj = read_obj(text.as_bytes()).unwrap();
    assert_eq!(obj.vertices.len(), 3);
    assert_eq!(words_at(text, &obj.vertices[0]), ("0", "1", "0"));
    assert_eq!(words_at(text, &obj.vertices[1]), ("-1", "0", "0"));
    assert_eq!(words_at(text, &obj.vertices[2]), ("1.5", "0", "0"));
    assert_eq!(obj.normals.len(), 1);
    assert_eq!(words_at(text, &obj.normals[0]), ("0", "0", "1"));
    assert_eq!(obj.mesh.kind, MeshKind::Smooth);
    assert_eq!(obj.mesh.faces, vec![face([0, 1, 2], [0, 0, 0])]);
}

#[test]
fn read_obj_without_normals_is_flat() {
    let text = "v 0 1 0\nv -1 0 0\nv 1 0 0\nv 1 1 0\nf 1/1/1 2/2/2 3/3/3\nf 1/1/1 3/3/3 4/4/4";
    let obj = read_obj(text.as_bytes()).unwrap();
    assert_eq!(obj.vertices.len(), 4);
    assert!(obj.normals.is_empty());
    assert_eq!(obj.mesh.kind, MeshKind::Flat);
    assert_eq!(obj.mesh.faces.len(), 2);
    assert_eq!(obj.mesh.faces[1].verts, [0, 2, 3]);
}

#[test]
fn read_obj_of_nothing_is_an_empty_mesh() {
    let obj = read_obj(b"").unwrap();
    assert!(obj.vertices.is_empty());
    assert!(obj.mesh.faces.is_empty());
    let obj = read_obj(b"\n\n\n").unwrap();
    assert!(obj.vertices.is_empty());
}

#[test]
fn read_obj_keeps_words_within_their_line() {
    let got = read_obj(b"v 1 2\n3\n");
    assert_eq!(got.unwrap_err(), MeshError::MissingCoordinate);
}

#[test]
fn read_obj_refuses_the_first_faulty_line() {
    let got = read_obj(b"v 1 2 3\nf 1/1/1 1/1/1\nvn 1\n");
    assert_eq!(got.unwrap_err(), MeshError::MalformedFace);
    let got = read_obj(b"v 1 2 3\nvn 1\nf 1/1/1 1/1/1\n");
    assert_eq!(got.unwrap_err(), MeshError::MissingCoordinate);
}

#[test]
fn read_obj_refuses_a_face_that_refers_to_nothing() {
    let text = "v 0 1 0\nv -1 0 0\nv 1 0 0\nvn 0 0 1\nf 1/1/1 2/1/1 3/1/1\nf 1/1/1 2/1/1 4/1/1\n";
    assert_eq!(
        read_obj(text.as_bytes()).unwrap_err(),
        MeshError::MalformedMeshReference { face: 1 }
    );
    let text = "v 0 1 0\nv -1 0 0\nv 1 0 0\nvn 0 0 1\nf 1/1/1 2/1/2 3/1/1\n";
    assert_eq!(
        read_obj(text.as_bytes()).unwrap_err(),
        MeshError::MalformedMeshReference { face: 0 }
    );
    let text = "f 1/1/1 2/1/1 3/1/1\nv 0 1 0\nv -1 0 0\nv 1 0 0\n";
    assert!(read_obj(text.as_bytes()).is_ok());
}
