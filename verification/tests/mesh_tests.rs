use obj_reader::mesh::obj_from_lines;
use obj_reader::model::ErrKind;
use obj_reader::model::Index;
use obj_reader::model::ObjFile;

fn lines_of(src: &[&str]) -> Vec<Vec<u8>> {
    src.iter().map(|s| s.as_bytes().to_vec()).collect()
}

fn parse(name: &str, src: &[&str], libs: Vec<(Vec<u8>, Vec<Vec<u8>>)>) -> ObjFile {
    obj_from_lines(name.as_bytes().to_vec(), &lines_of(src), &libs).unwrap()
}

fn cube_lines() -> Vec<&'static str> {
    vec![
        "# a unit cube",
        "mtllib cube.mtl",
        "o Cube1",
        "v 0 0 0",
        "v 1 0 0",
        "v 1 1 0",
        "v 0 1 0",
        "v 0 0 1",
        "v 1 0 1",
        "v 1 1 1",
        "v 0 1 1",
        "vn 0 0 -1",
        "vn 0 0 1",
        "vn -1 0 0",
        "vn 1 0 0",
        "vn 0 -1 0",
        "vn 0 1 0",
        "vn 0.5 0.5 0",
        "vn 0 0.5 0.5",
        "g Cube1_default",
        "usemtl CubeMaterial",
        "f 1//1 2//1 3//1",
        "f 1//1 3//1 4//1",
    ]
}

fn cube_mtl() -> Vec<(Vec<u8>, Vec<Vec<u8>>)> {
    vec![(
        b"cube.mtl".to_vec(),
        lines_of(&["newmtl CubeMaterial", "Kd 0.8 0.8 0.8", "illum 2"]),
    )]
}

#[test]
fn read_cube() {
    let src = cube_lines();
    let obj = parse("cube.obj", &src, cube_mtl());
    assert_eq!(obj.file_name, b"cube.obj".to_vec());
    assert_eq!(obj.objects.len(), 1);
    assert_eq!(obj.materials.len(), 1);
    assert_eq!(obj.objects[0].name, b"Cube1".to_vec());
    assert_eq!(obj.objects[0].vertices.len(), 8 * 3);
    assert_eq!(obj.objects[0].normals.len(), 8 * 3);
    assert_eq!(obj.objects[0].textures.len(), 0);
    assert_eq!(obj.objects[0].parameters.len(), 0);
    assert_eq!(obj.objects[0].groups.len(), 1);
    assert_eq!(obj.objects[0].groups[0].name, b"Cube1_default".to_vec());
    println!("{:?}", obj);
}

#[test]
fn read_cube_and_sphere() {
    let mut src = vec![
        "mtllib cube.mtl",
        "o sphere2",
        "v 0 0 0",
        "v 1 1 1",
        "g sphere_default",
    ];
    let tail = cube_lines();
    src.extend_from_slice(&tail[2..]);
    let obj = parse("cube_and_sphere.obj", &src, cube_mtl());
    assert_eq!(obj.file_name, b"cube_and_sphere.obj".to_vec());
    assert_eq!(obj.objects.len(), 2);
    assert_eq!(obj.materials.len(), 1);
    assert_eq!(obj.objects[0].name, b"sphere2".to_vec());
    assert_eq!(obj.objects[1].name, b"Cube1".to_vec());
    println!("{:?}", obj);
}

#[test]
fn face_vertex_only_indices() {
    let obj = parse("a.obj", &["o a", "g g1", "f 1 2 3"], vec![]);
    let faces = &obj.objects[0].groups[0].faces;
    assert_eq!(
        faces,
        &vec![
            Index::Vertex { v: 1 },
            Index::Vertex { v: 2 },
            Index::Vertex { v: 3 },
        ]
    );
}

#[test]
fn face_with_four_corners_is_dropped() {
    let obj = parse("a.obj", &["o a", "g g1", "f 1 2 3 4"], vec![]);
    assert_eq!(obj.objects[0].groups[0].faces.len(), 0);
}

#[test]
fn face_corner_forms() {
    let obj = parse(
        "a.obj",
        &["o a", "g g1", "f 1/2 3/4 5/6", "f 1//2 3//4 5//6", "f 1/2/3 4/5/6 7/8/9"],
        vec![],
    );
    let faces = &obj.objects[0].groups[0].faces;
    assert_eq!(faces.len(), 9);
    assert_eq!(faces[0], Index::VertexTexture { v: 1, t: 2 });
    assert_eq!(faces[3], Index::VertexNormal { v: 1, n: 2 });
    assert_eq!(faces[6], Index::VertexTextureNormal { v: 1, t: 2, n: 3 });
}

#[test]
fn face_bad_corner_keeps_earlier_corners() {
    let obj = parse("a.obj", &["o a", "g g1", "f 1 2 x"], vec![]);
    let faces = &obj.objects[0].groups[0].faces;
    assert_eq!(
        faces,
        &vec![Index::Vertex { v: 1 }, Index::Vertex { v: 2 }]
    );
}

#[test]
fn line_directive_forms() {
    let obj = parse("a.obj", &["o a", "g g1", "l 7", "l 1/2", "l 1 2"], vec![]);
    let g = &obj.objects[0].groups[0];
    assert_eq!(g.lines, vec![Index::Vertex { v: 7 }]);
    assert_eq!(g.faces, vec![Index::VertexTexture { v: 1, t: 2 }]);
}

#[test]
fn point_directive() {
    let obj = parse("a.obj", &["o a", "g g1", "p 5", "p 5 6"], vec![]);
    assert_eq!(obj.objects[0].groups[0].points, vec![5]);
}

#[test]
fn smoothing_and_material() {
    let obj = parse("a.obj", &["o a", "g g1", "usemtl shiny", "s 12"], vec![]);
    let g = &obj.objects[0].groups[0];
    assert_eq!(g.material, b"shiny".to_vec());
    assert_eq!(g.smoothing_group, 12);
}

#[test]
fn vertex_data_routing() {
    let obj = parse(
        "a.obj",
        &["o a", "v 1 2 3", "vn 4 5 6", "vt 0.5 0.5", "vp 0.25"],
        vec![],
    );
    let o = &obj.objects[0];
    assert_eq!(o.vertices, vec![b"1".to_vec(), b"2".to_vec(), b"3".to_vec()]);
    assert_eq!(o.normals, vec![b"4".to_vec(), b"5".to_vec(), b"6".to_vec()]);
    assert_eq!(o.textures, vec![b"0.5".to_vec(), b"0.5".to_vec()]);
    assert_eq!(o.parameters, vec![b"0.25".to_vec()]);
}

#[test]
fn float_token_shapes_accepted() {
    let obj = parse(
        "a.obj",
        &["o a", "v 1.5e3 .5 -0.25", "v +inf NaN 2.", "v 1e-9 INFINITY 0"],
        vec![],
    );
    assert_eq!(obj.objects[0].vertices.len(), 9);
}

#[test]
fn trailing_comments_and_blank_lines() {
    let obj = parse(
        "a.obj",
        &["", "# full comment", "o a   # name ends before comment", "v 1 2 3 # tail"],
        vec![],
    );
    assert_eq!(obj.objects[0].name, b"a".to_vec());
    assert_eq!(obj.objects[0].vertices.len(), 3);
}

#[test]
fn data_before_object_is_an_error() {
    let e = obj_from_lines(b"a.obj".to_vec(), &lines_of(&["v 1 2 3"]), &vec![]).unwrap_err();
    assert_eq!(e.kind, ErrKind::NoObject);
    assert_eq!(e.line, 1);
    assert_eq!(e.file_name, b"a.obj".to_vec());
}

#[test]
fn bad_float_is_an_error() {
    let e = obj_from_lines(b"a.obj".to_vec(), &lines_of(&["o a", "v 1 x 3"]), &vec![])
        .unwrap_err();
    assert_eq!(e.kind, ErrKind::BadFloat);
    assert_eq!(e.line, 2);
}

#[test]
fn bad_smoothing_integer_is_an_error() {
    let e = obj_from_lines(
        b"a.obj".to_vec(),
        &lines_of(&["o a", "g g1", "s off"]),
        &vec![],
    )
    .unwrap_err();
    assert_eq!(e.kind, ErrKind::BadInt);
    assert_eq!(e.line, 3);
}

#[test]
fn group_scoped_data_without_group_is_an_error() {
    let e = obj_from_lines(b"a.obj".to_vec(), &lines_of(&["o a", "usemtl m"]), &vec![])
        .unwrap_err();
    assert_eq!(e.kind, ErrKind::NoGroup);
    assert_eq!(e.line, 2);
}

#[test]
fn unrecognized_opcodes_are_ignored() {
    let obj = parse("a.obj", &["o a", "curv 1 2", "weird stuff"], vec![]);
    assert_eq!(obj.objects.len(), 1);
}

#[test]
fn mtllib_resolves_against_directory() {
    let libs = vec![(
        b"models/cube.mtl".to_vec(),
        lines_of(&["newmtl M1", "Ns 10"]),
    )];
    let obj = parse("models/cube.obj", &["mtllib cube.mtl", "o a"], libs);
    assert_eq!(obj.materials.len(), 1);
    assert_eq!(obj.materials[0].0, b"M1".to_vec());
    assert_eq!(obj.materials[0].1.file_name, b"models/cube.mtl".to_vec());
}

#[test]
fn mtllib_same_name_overwrites() {
    let libs = vec![
        (b"a.mtl".to_vec(), lines_of(&["newmtl Shared", "Ns 1"])),
        (b"b.mtl".to_vec(), lines_of(&["newmtl Shared", "Ns 2"])),
    ];
    let obj = parse("cube.obj", &["mtllib a.mtl", "mtllib b.mtl", "o a"], libs);
    assert_eq!(obj.materials.len(), 1);
    assert_eq!(obj.materials[0].0, b"Shared".to_vec());
    assert_eq!(obj.materials[0].1.file_name, b"b.mtl".to_vec());
}

#[test]
fn mtllib_missing_library_is_dropped() {
    let obj = parse("cube.obj", &["mtllib nowhere.mtl", "o a"], vec![]);
    assert_eq!(obj.materials.len(), 0);
}

#[test]
fn repeated_parse_is_structurally_equal() {
    let src = cube_lines();
    let first = parse("cube.obj", &src, cube_mtl());
    let second = parse("cube.obj", &src, cube_mtl());
    assert_eq!(first, second);
}
